use vstd::prelude::*;

verus! {

/// The interaction state of the editor.
#[derive(PartialEq, Eq, Structural, Clone, Copy, Debug)]
pub enum EditorMode {
    Normal,
    Insert,
}

/// Relies on `<str as PartialEq>::eq`: two string slices are equal exactly
/// when they hold the same characters.
pub assume_specification[ <str as PartialEq>::eq ](s: &str, other: &str) -> (r: bool)
    ensures
        r == (s@ == other@),
;

/// The transition table: from a mode and a key, the next mode and the
/// command emitted, if any.
pub open spec fn key_step(mode: EditorMode, key: Seq<char>) -> (EditorMode, Option<Seq<char>>) {
    match mode {
        EditorMode::Normal => {
            if key == "i"@ {
                (EditorMode::Insert, Some("MODE_INSERT"@))
            } else if key == "h"@ {
                (EditorMode::Normal, Some("MOVE_LEFT"@))
            } else if key == "j"@ {
                (EditorMode::Normal, Some("MOVE_DOWN"@))
            } else if key == "k"@ {
                (EditorMode::Normal, Some("MOVE_UP"@))
            } else if key == "l"@ {
                (EditorMode::Normal, Some("MOVE_RIGHT"@))
            } else if key == "x"@ {
                (EditorMode::Normal, Some("DELETE_CHAR"@))
            } else {
                (EditorMode::Normal, None)
            }
        },
        EditorMode::Insert => {
            if key == "Escape"@ {
                (EditorMode::Normal, Some("MODE_NORMAL"@))
            } else {
                (EditorMode::Insert, None)
            }
        },
    }
}

/// The view of an optional command string.
pub open spec fn opt_view(o: Option<String>) -> Option<Seq<char>> {
    match o {
        Some(s) => Some(s@),
        None => None,
    }
}

fn command(name: &str) -> (r: Option<String>)
    ensures
        opt_view(r) == Some(name@),
{
    Some(String::from_str(name))
}

/// Applies the transition table to `mode` and `key`.
pub fn transition(mode: EditorMode, key: &str) -> (r: (EditorMode, Option<String>))
    ensures
        (r.0, opt_view(r.1)) == key_step(mode, key@),
{
    match mode {
        EditorMode::Normal => {
            if key.eq("i") {
                (EditorMode::Insert, command("MODE_INSERT"))
            } else if key.eq("h") {
                (EditorMode::Normal, command("MOVE_LEFT"))
            } else if key.eq("j") {
                (EditorMode::Normal, command("MOVE_DOWN"))
            } else if key.eq("k") {
                (EditorMode::Normal, command("MOVE_UP"))
            } else if key.eq("l") {
                (EditorMode::Normal, command("MOVE_RIGHT"))
            } else if key.eq("x") {
                (EditorMode::Normal, command("DELETE_CHAR"))
            } else {
                (EditorMode::Normal, None)
            }
        },
        EditorMode::Insert => {
            if key.eq("Escape") {
                (EditorMode::Normal, command("MODE_NORMAL"))
            } else {
                (EditorMode::Insert, None)
            }
        },
    }
}

} // verus!
