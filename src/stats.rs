use vstd::prelude::*;

verus! {

/// Words read per minute in the reading-time estimate.
pub const WORDS_PER_MINUTE: usize = 200;

/// Whether `c` has the Unicode White_Space property.
pub open spec fn is_white_space(c: char) -> bool {
    let u = c as u32;
    (0x09 <= u <= 0x0D) || u == 0x20 || u == 0x85 || u == 0xA0 || u == 0x1680 || (0x2000 <= u
        <= 0x200A) || u == 0x2028 || u == 0x2029 || u == 0x202F || u == 0x205F || u == 0x3000
}

/// Decides the Unicode White_Space property of `c`.
pub fn white_space(c: char) -> (r: bool)
    ensures
        r == is_white_space(c),
{
    let u = c as u32;
    (0x09 <= u && u <= 0x0D) || u == 0x20 || u == 0x85 || u == 0xA0 || u == 0x1680 || (0x2000 <= u
        && u <= 0x200A) || u == 0x2028 || u == 0x2029 || u == 0x202F || u == 0x205F || u == 0x3000
}

/// Whether a word starts at position `i` of `s`: a character that is not
/// white space, at the start or after white space.
pub open spec fn word_starts_at(s: Seq<char>, i: int) -> bool {
    !is_white_space(s[i]) && (i == 0 || is_white_space(s[i - 1]))
}

/// The number of maximal runs of non-white-space characters in `s`.
pub open spec fn word_count(s: Seq<char>) -> nat
    decreases s.len(),
{
    if s.len() == 0 {
        0
    } else {
        word_count(s.drop_last()) + if word_starts_at(s, s.len() - 1) {
            1nat
        } else {
            0nat
        }
    }
}

/// The number of line feeds in `s`.
pub open spec fn newline_count(s: Seq<char>) -> nat
    decreases s.len(),
{
    if s.len() == 0 {
        0
    } else {
        newline_count(s.drop_last()) + if s.last() == '\n' {
            1nat
        } else {
            0nat
        }
    }
}

/// The number of lines of `s`: each line feed ends one, and text after the
/// last line feed makes one more; empty text has none.
pub open spec fn line_count(s: Seq<char>) -> nat {
    newline_count(s) + if s.len() > 0 && s.last() != '\n' {
        1nat
    } else {
        0nat
    }
}

/// Statistics of a document.
pub struct Analysis {
    pub words: usize,
    pub chars: usize,
    pub lines: usize,
}

/// Counts the words, characters and lines of `text`.
pub fn analyze_text(text: &str) -> (r: Analysis)
    ensures
        r.words == word_count(text@),
        r.chars == text@.len(),
        r.lines == line_count(text@),
{
    let ghost s = text@;
    let len = text.unicode_len();
    let mut words: usize = 0;
    let mut newlines: usize = 0;
    let mut prev_white = true;
    let mut last_newline = false;
    assert(s.take(0) =~= Seq::<char>::empty());
    for c in it: text.chars()
        invariant
            it.seq() == s,
            s == text@,
            len == s.len(),
            words == word_count(s.take(it.index() as int)),
            newlines == newline_count(s.take(it.index() as int)),
            words <= it.index(),
            newlines <= it.index(),
            it.index() > 0 && !last_newline ==> newlines < it.index(),
            it.index() <= s.len(),
            prev_white == (it.index() == 0 || is_white_space(s[it.index() - 1])),
            last_newline == (it.index() > 0 && s[it.index() - 1] == '\n'),
    {
        let ghost i = it.index() as int;
        let ghost t = s.take(i + 1);
        assert(t.drop_last() =~= s.take(i));
        assert(t.last() == c);
        assert(i > 0 ==> t[i - 1] == s[i - 1]);
        let white = white_space(c);
        if !white && prev_white {
            words = words + 1;
        }
        if c == '\n' {
            newlines = newlines + 1;
        }
        prev_white = white;
        last_newline = c == '\n';
    }
    assert(s.take(s.len() as int) =~= s);
    let lines = if len > 0 && !last_newline {
        newlines + 1
    } else {
        newlines
    };
    Analysis { words, chars: len, lines }
}

} // verus!
