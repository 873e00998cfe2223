use editor_engine::{analyze_text, transition, EditorMode, EmojiTrie, GhostEngine, UndoStack, HISTORY_LIMIT, WORDS_PER_MINUTE};

#[test]
fn undo_on_fresh_engine_returns_empty_and_keeps_state() {
    let mut e = GhostEngine::new();
    assert_eq!(e.undo(), "");
    assert_eq!(e.undo(), "");
    assert_eq!(e.get_mode(), EditorMode::Insert);
    let a = e.analyze();
    assert_eq!((a.words, a.chars, a.lines), (0, 0, 0));
}

#[test]
fn suggest_emoji_needs_an_exact_key() {
    let e = GhostEngine::new();
    assert_eq!(e.suggest_emoji("gho"), None);
    assert_eq!(e.suggest_emoji("ghost"), Some("\u{1F47B}".to_string()));
    assert_eq!(e.suggest_emoji("ghostx"), None);
    assert_eq!(e.suggest_emoji(""), None);
    assert_eq!(e.suggest_emoji("Ghost"), None);
}

#[test]
fn seed_table_is_loaded() {
    let e = GhostEngine::new();
    assert_eq!(e.suggest_emoji("fire"), Some("\u{1F525}".to_string()));
    assert_eq!(e.suggest_emoji("heart"), Some("\u{2764}\u{FE0F}".to_string()));
    assert_eq!(e.suggest_emoji("rocket"), Some("\u{1F680}".to_string()));
    assert_eq!(e.suggest_emoji("smile"), Some("\u{1F60A}".to_string()));
    assert_eq!(e.suggest_emoji("check"), Some("\u{2705}".to_string()));
}

#[test]
fn escape_and_i_switch_modes() {
    let mut e = GhostEngine::new();
    assert_eq!(e.get_mode(), EditorMode::Insert);
    assert_eq!(e.handle_key("Escape", false), Some("MODE_NORMAL".to_string()));
    assert_eq!(e.get_mode(), EditorMode::Normal);
    assert_eq!(e.handle_key("i", false), Some("MODE_INSERT".to_string()));
    assert_eq!(e.get_mode(), EditorMode::Insert);
    assert_eq!(e.handle_key("Escape", false), Some("MODE_NORMAL".to_string()));
    assert_eq!(e.handle_key("z", false), None);
    assert_eq!(e.get_mode(), EditorMode::Normal);
}

#[test]
fn normal_mode_motion_keys() {
    let mut e = GhostEngine::new();
    e.handle_key("Escape", true);
    assert_eq!(e.handle_key("h", false), Some("MOVE_LEFT".to_string()));
    assert_eq!(e.handle_key("j", false), Some("MOVE_DOWN".to_string()));
    assert_eq!(e.handle_key("k", true), Some("MOVE_UP".to_string()));
    assert_eq!(e.handle_key("l", false), Some("MOVE_RIGHT".to_string()));
    assert_eq!(e.handle_key("x", false), Some("DELETE_CHAR".to_string()));
    assert_eq!(e.handle_key("Escape", false), None);
    assert_eq!(e.get_mode(), EditorMode::Normal);
}

#[test]
fn insert_mode_ignores_other_keys() {
    let mut e = GhostEngine::new();
    assert_eq!(e.handle_key("h", false), None);
    assert_eq!(e.handle_key("i", true), None);
    assert_eq!(e.handle_key("escape", false), None);
    assert_eq!(e.get_mode(), EditorMode::Insert);
}

#[test]
fn transition_table_as_a_function() {
    let (m, c) = transition(EditorMode::Normal, "x");
    assert_eq!(m, EditorMode::Normal);
    assert_eq!(c, Some("DELETE_CHAR".to_string()));
    let (m, c) = transition(EditorMode::Insert, "Escape");
    assert_eq!(m, EditorMode::Normal);
    assert_eq!(c, Some("MODE_NORMAL".to_string()));
    let (m, c) = transition(EditorMode::Normal, "ii");
    assert_eq!(m, EditorMode::Normal);
    assert_eq!(c, None);
}

#[test]
fn analyze_counts_words_chars_lines() {
    let mut e = GhostEngine::new();
    e.update_content("a b c\nd e");
    let a = e.analyze();
    assert_eq!(a.words, 5);
    assert_eq!(a.lines, 2);
    // the line feed counts as a character
    assert_eq!(a.chars, 9);
    assert_eq!(a.words as f64 / WORDS_PER_MINUTE as f64, 0.025);
}

#[test]
fn analyze_edge_cases() {
    let a = analyze_text("");
    assert_eq!((a.words, a.chars, a.lines), (0, 0, 0));
    let a = analyze_text("one\n");
    assert_eq!((a.words, a.chars, a.lines), (1, 4, 1));
    let a = analyze_text("\n\n");
    assert_eq!((a.words, a.chars, a.lines), (0, 2, 2));
    let a = analyze_text("  hi\tthere\u{3000}you \r\nx");
    assert_eq!((a.words, a.lines), (4, 2));
    let a = analyze_text("h\u{e9}llo w\u{f6}rld");
    assert_eq!((a.words, a.chars, a.lines), (2, 11, 1));
    // a lone carriage return separates words but ends no line
    let a = analyze_text("a\rb");
    assert_eq!((a.words, a.lines), (2, 1));
}

#[test]
fn repeated_update_records_once() {
    let mut e = GhostEngine::new();
    e.update_content("x");
    e.update_content("x");
    assert_eq!(e.undo(), "");
    assert_eq!(e.undo(), "");
    assert_eq!(e.analyze().chars, 0);
}

#[test]
fn undo_restores_in_reverse_order() {
    let mut e = GhostEngine::new();
    e.update_content("one");
    e.update_content("two");
    e.update_content("three");
    assert_eq!(e.undo(), "two");
    assert_eq!(e.undo(), "one");
    assert_eq!(e.undo(), "");
    assert_eq!(e.undo(), "");
}

#[test]
fn history_keeps_the_latest_fifty() {
    let mut e = GhostEngine::new();
    for i in 1..=60 {
        e.update_content(&format!("v{}", i));
    }
    for i in (10..=59).rev() {
        assert_eq!(e.undo(), format!("v{}", i));
    }
    // history is exhausted: the buffer stays as the oldest kept snapshot
    assert_eq!(e.undo(), "v10");
    assert_eq!(e.analyze().chars, 3);
}

#[test]
fn undo_stack_evicts_oldest() {
    let mut s = UndoStack::new();
    for i in 0..(HISTORY_LIMIT + 3) {
        s.record(format!("{}", i));
        assert!(s.len() <= HISTORY_LIMIT);
    }
    assert_eq!(s.len(), HISTORY_LIMIT);
    assert_eq!(s.pop(), Some(format!("{}", HISTORY_LIMIT + 2)));
    assert_eq!(s.len(), HISTORY_LIMIT - 1);
    let mut last = None;
    while let Some(x) = s.pop() {
        last = Some(x);
    }
    assert_eq!(last, Some("3".to_string()));
    assert_eq!(s.pop(), None);
}

#[test]
fn trie_insert_overwrites_and_supports_inner_keys() {
    let mut t = EmojiTrie::new();
    assert_eq!(t.lookup(""), None);
    t.insert("ab", "1".to_string());
    t.insert("abc", "2".to_string());
    assert_eq!(t.lookup("a"), None);
    assert_eq!(t.lookup("ab"), Some("1".to_string()));
    assert_eq!(t.lookup("abc"), Some("2".to_string()));
    t.insert("ab", "3".to_string());
    assert_eq!(t.lookup("ab"), Some("3".to_string()));
    t.insert("", "root".to_string());
    assert_eq!(t.lookup(""), Some("root".to_string()));
    t.insert("\u{1F47B}x", "u".to_string());
    assert_eq!(t.lookup("\u{1F47B}x"), Some("u".to_string()));
    assert_eq!(t.lookup("\u{1F47B}"), None);
}
