//! Stateful core of an in-browser text editor: the document buffer, a bounded
//! undo history, a modal (Normal/Insert) key dispatcher, an emoji trie and
//! document statistics.

mod engine;
mod mode;
mod stats;
mod trie;
mod undo;

pub use engine::{
    contents_seen, each_text_changes, law_repeat_update_records_once, law_undo_restores_in_reverse,
    seed_table, EngineView, GhostEngine,
};
pub use mode::{key_step, opt_view, transition, EditorMode};
pub use stats::{
    analyze_text, is_white_space, line_count, newline_count, white_space, word_count, word_starts_at,
    Analysis, WORDS_PER_MINUTE,
};
pub use trie::{entry_of, EmojiTrie};
pub use undo::{recorded, UndoStack, HISTORY_LIMIT};
