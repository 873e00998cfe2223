use crate::mode::{key_step, opt_view, transition, EditorMode};
use crate::stats::{analyze_text, line_count, word_count, Analysis};
use crate::trie::{entry_of, EmojiTrie};
use crate::undo::{recorded, UndoStack, HISTORY_LIMIT};
use vstd::prelude::*;

verus! {

/// The abstract state of an engine.
pub struct EngineView {
    pub content: Seq<char>,
    /// Earlier contents, oldest first.
    pub history: Seq<Seq<char>>,
    pub mode: EditorMode,
    /// The emoji table: each key with its glyph.
    pub emojis: Map<Seq<char>, Seq<char>>,
}

impl EngineView {
    /// The history respects its bound.
    pub open spec fn wf(self) -> bool {
        self.history.len() <= HISTORY_LIMIT
    }

    /// The state after the buffer is set to `text`: nothing changes when it
    /// already holds `text`; else the old buffer is recorded first.
    pub open spec fn after_update(self, text: Seq<char>) -> EngineView {
        if text == self.content {
            self
        } else {
            EngineView {
                content: text,
                history: recorded(self.history, self.content),
                ..self
            }
        }
    }

    /// The state after one undo, with the text it returns.
    pub open spec fn after_undo(self) -> (EngineView, Seq<char>) {
        if self.history.len() == 0 {
            (self, self.content)
        } else {
            (
                EngineView {
                    content: self.history.last(),
                    history: self.history.drop_last(),
                    ..self
                },
                self.history.last(),
            )
        }
    }

    /// The state after the buffer is set to each of `texts` in turn.
    pub open spec fn after_updates(self, texts: Seq<Seq<char>>) -> EngineView
        decreases texts.len(),
    {
        if texts.len() == 0 {
            self
        } else {
            self.after_updates(texts.drop_last()).after_update(texts.last())
        }
    }

    /// The state after `k` undos.
    pub open spec fn undone(self, k: nat) -> EngineView
        decreases k,
    {
        if k == 0 {
            self
        } else {
            self.undone((k - 1) as nat).after_undo().0
        }
    }
}

/// The buffer held before each of `texts` was applied to `v`, followed by the
/// last of them: entry `i` is the buffer after `i` updates.
pub open spec fn contents_seen(v: EngineView, texts: Seq<Seq<char>>) -> Seq<Seq<char>> {
    seq![v.content] + texts
}

/// Each text differs from the buffer it replaces.
pub open spec fn each_text_changes(v: EngineView, texts: Seq<Seq<char>>) -> bool {
    forall|i: int| 0 <= i < texts.len() ==> #[trigger] texts[i] != contents_seen(v, texts)[i]
}

/// Entry `j` from the end of a history after recording `x`.
proof fn lemma_recorded_from_end(h: Seq<Seq<char>>, x: Seq<char>, j: int)
    requires
        h.len() <= HISTORY_LIMIT,
        0 <= j < recorded(h, x).len(),
    ensures
        recorded(h, x).len() <= HISTORY_LIMIT,
        recorded(h, x).len() >= h.len(),
        h.len() < HISTORY_LIMIT ==> recorded(h, x).len() == h.len() + 1,
        j == 0 ==> recorded(h, x)[recorded(h, x).len() - 1] == x,
        j > 0 ==> recorded(h, x)[recorded(h, x).len() - 1 - j] == h[h.len() - 1 - (j - 1)],
{
}

proof fn lemma_updates_history(v: EngineView, texts: Seq<Seq<char>>)
    requires
        v.wf(),
        each_text_changes(v, texts),
    ensures
        v.after_updates(texts).content == contents_seen(v, texts)[texts.len() as int],
        v.after_updates(texts).history.len() <= HISTORY_LIMIT,
        v.after_updates(texts).history.len() >= texts.len() || v.after_updates(texts).history.len()
            == HISTORY_LIMIT,
        forall|j: int|
            0 <= j < texts.len() && j < HISTORY_LIMIT ==> #[trigger] v.after_updates(
                texts,
            ).history[v.after_updates(texts).history.len() - 1 - j] == contents_seen(v, texts)[texts.len()
                - 1 - j],
    decreases texts.len(),
{
    let n = texts.len() as int;
    let seen = contents_seen(v, texts);
    if n == 0 {
        assert(seen[0] == v.content);
    } else {
        let prev = texts.drop_last();
        let pseen = contents_seen(v, prev);
        assert forall|i: int| 0 <= i < n implies pseen[i] == seen[i] by {
            if i > 0 {
                assert(pseen[i] == prev[i - 1]);
                assert(seen[i] == texts[i - 1]);
            }
        }
        assert(each_text_changes(v, prev)) by {
            assert forall|i: int| 0 <= i < prev.len() implies #[trigger] prev[i] != pseen[i] by {
                assert(prev[i] == texts[i]);
                assert(pseen[i] == seen[i]);
            }
        }
        lemma_updates_history(v, prev);
        let u = v.after_updates(prev);
        let x = texts[n - 1];
        assert(x != seen[n - 1]);
        assert(u.content == seen[n - 1]);
        assert(seen[n] == x);
        let w = v.after_updates(texts);
        assert(prev =~= texts.drop_last());
        assert(w == u.after_update(x));
        assert(w.history == recorded(u.history, u.content));
        lemma_recorded_from_end(u.history, u.content, 0);
        assert forall|j: int| 0 <= j < n && j < HISTORY_LIMIT implies #[trigger] w.history[
            w.history.len() - 1 - j] == seen[n - 1 - j] by {
            lemma_recorded_from_end(u.history, u.content, j);
            if j > 0 {
                assert(u.history[u.history.len() - 1 - (j - 1)] == pseen[(n - 1) - 1 - (j - 1)]);
            }
        }
    }
}

/// After `k` undos from `w`, with `k` at most the history's length, the
/// history has lost its last `k` entries.
proof fn lemma_undone_history(w: EngineView, k: nat)
    requires
        k <= w.history.len(),
    ensures
        w.undone(k).history == w.history.take(w.history.len() - k),
    decreases k,
{
    if k == 0 {
        assert(w.history.take(w.history.len() as int) =~= w.history);
    } else {
        lemma_undone_history(w, (k - 1) as nat);
        let h = w.history.take(w.history.len() - (k - 1));
        assert(h.drop_last() =~= w.history.take(w.history.len() - k));
    }
}

/// Setting the buffer to `texts` in turn, each different from the one
/// before, keeps the history within its bound, and undoing then returns the
/// earlier buffers, most recent first, as far back as the bound allows.
pub proof fn law_undo_restores_in_reverse(v: EngineView, texts: Seq<Seq<char>>)
    requires
        v.wf(),
        each_text_changes(v, texts),
    ensures
        v.after_updates(texts).wf(),
        forall|j: nat|
            j < texts.len() && j < HISTORY_LIMIT ==> (#[trigger] v.after_updates(texts).undone(
                j,
            ).after_undo()).1 == contents_seen(v, texts)[texts.len() - 1 - j],
{
    lemma_updates_history(v, texts);
    let w = v.after_updates(texts);
    assert(w.wf());
    assert forall|j: nat| j < texts.len() && j < HISTORY_LIMIT implies (
    #[trigger] w.undone(j).after_undo()).1 == contents_seen(v, texts)[texts.len() - 1 - j] by {
        lemma_undone_history(w, j);
        let h = w.history.take(w.history.len() - j);
        assert(h.last() == w.history[w.history.len() - 1 - j]);
    }
}

/// Setting the buffer to the same text twice in a row records one history
/// entry, not two: the second update changes nothing.
pub proof fn law_repeat_update_records_once(v: EngineView, text: Seq<char>)
    ensures
        v.after_update(text).after_update(text) == v.after_update(text),
        text != v.content ==> v.after_update(text).after_update(text).history == recorded(
            v.history,
            v.content,
        ),
{
}

/// The emoji table an engine starts with.
pub open spec fn seed_table() -> Map<Seq<char>, Seq<char>> {
    Map::<Seq<char>, Seq<char>>::empty().insert("ghost"@, "\u{1F47B}"@).insert(
        "fire"@,
        "\u{1F525}"@,
    ).insert("heart"@, "\u{2764}\u{FE0F}"@).insert("rocket"@, "\u{1F680}"@).insert(
        "smile"@,
        "\u{1F60A}"@,
    ).insert("check"@, "\u{2705}"@)
}

/// The editor engine: the document buffer, its undo history, the key mode
/// and the emoji index.
pub struct GhostEngine {
    content: String,
    history: UndoStack,
    emoji_trie: EmojiTrie,
    mode: EditorMode,
}

impl View for GhostEngine {
    type V = EngineView;

    closed spec fn view(&self) -> EngineView {
        EngineView {
            content: self.content@,
            history: self.history@,
            mode: self.mode,
            emojis: self.emoji_trie@,
        }
    }
}

impl GhostEngine {
    pub closed spec fn wf(&self) -> bool {
        self.history.wf() && self.emoji_trie.wf()
    }

    /// The history of a well-formed engine never holds more than
    /// `HISTORY_LIMIT` snapshots.
    pub proof fn law_history_bounded(&self)
        requires
            self.wf(),
        ensures
            self@.wf(),
    {
    }

    /// An engine with an empty buffer and history, in Insert mode, with the
    /// emoji table loaded.
    pub fn new() -> (r: GhostEngine)
        ensures
            r.wf(),
            r@ == (EngineView {
                content: Seq::<char>::empty(),
                history: Seq::<Seq<char>>::empty(),
                mode: EditorMode::Insert,
                emojis: seed_table(),
            }),
    {
        let mut engine = GhostEngine {
            content: String::new(),
            history: UndoStack::new(),
            emoji_trie: EmojiTrie::new(),
            mode: EditorMode::Insert,
        };
        engine.seed_emojis();
        assert(Map::<Seq<char>, Seq<char>>::empty().union_prefer_right(seed_table())
            =~= seed_table());
        engine
    }

    fn seed_emojis(&mut self)
        requires
            old(self).emoji_trie.wf(),
        ensures
            final(self).emoji_trie.wf(),
            final(self).emoji_trie@ == old(self).emoji_trie@.union_prefer_right(seed_table()),
            final(self).content == old(self).content,
            final(self).history == old(self).history,
            final(self).mode == old(self).mode,
    {
        self.emoji_trie.insert("ghost", String::from_str("\u{1F47B}"));
        self.emoji_trie.insert("fire", String::from_str("\u{1F525}"));
        self.emoji_trie.insert("heart", String::from_str("\u{2764}\u{FE0F}"));
        self.emoji_trie.insert("rocket", String::from_str("\u{1F680}"));
        self.emoji_trie.insert("smile", String::from_str("\u{1F60A}"));
        self.emoji_trie.insert("check", String::from_str("\u{2705}"));
        assert(self.emoji_trie@ =~= old(self).emoji_trie@.union_prefer_right(seed_table()));
    }

    /// The current mode.
    pub fn get_mode(&self) -> (r: EditorMode)
        ensures
            r == self@.mode,
    {
        self.mode
    }

    /// Classifies a keystroke by the transition table, moves to the next
    /// mode and returns the command emitted. The modifier flag is reserved
    /// and changes nothing.
    pub fn handle_key(&mut self, key: &str, _ctrl: bool) -> (r: Option<String>)
        requires
            old(self).wf(),
        ensures
            final(self).wf(),
            (final(self)@.mode, opt_view(r)) == key_step(old(self)@.mode, key@),
            final(self)@.content == old(self)@.content,
            final(self)@.history == old(self)@.history,
            final(self)@.emojis == old(self)@.emojis,
    {
        let (next, command) = transition(self.mode, key);
        self.mode = next;
        command
    }

    /// Replaces the buffer with `new_text`, recording the old buffer in the
    /// history; does nothing when the buffer already holds `new_text`.
    pub fn update_content(&mut self, new_text: &str)
        requires
            old(self).wf(),
        ensures
            final(self).wf(),
            final(self)@ == old(self)@.after_update(new_text@),
    {
        if !new_text.eq(self.content.as_str()) {
            self.history.record(self.content.clone());
            self.content = String::from_str(new_text);
        }
    }

    /// Restores the most recent snapshot and returns it; with an empty
    /// history, returns the buffer unchanged.
    pub fn undo(&mut self) -> (r: String)
        requires
            old(self).wf(),
        ensures
            final(self).wf(),
            (final(self)@, r@) == old(self)@.after_undo(),
    {
        match self.history.pop() {
            Some(previous) => {
                self.content = previous.clone();
                previous
            },
            None => self.content.clone(),
        }
    }

    /// The glyph whose key is exactly `prefix`, if any.
    pub fn suggest_emoji(&self, prefix: &str) -> (r: Option<String>)
        requires
            self.wf(),
        ensures
            opt_view(r) == entry_of(self@.emojis, prefix@),
    {
        self.emoji_trie.lookup(prefix)
    }

    /// Word, character and line counts of the buffer.
    pub fn analyze(&self) -> (r: Analysis)
        ensures
            r.words == word_count(self@.content),
            r.chars == self@.content.len(),
            r.lines == line_count(self@.content),
    {
        analyze_text(self.content.as_str())
    }
}

} // verus!
