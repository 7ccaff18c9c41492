//! The terminal-output pre-gate: does copied text look like agent/terminal
//! output worth cleaning? Fail-safe: false unless a definite signal is seen.

use vstd::prelude::*;
use crate::text::{all_white, back_white, chars_of, is_blank, lines_view, skip_white};
use crate::text::{slice_copy, split_chars, split_on, trim_end, trim_start};
use crate::lines::{is_box_rule, is_gutter_glyph, spec_is_box_rule};

verus! {

/// After trailing whitespace is dropped, the line is empty or ends with `.`,
/// `!` or `?`.
pub open spec fn ends_sentence(raw: Seq<char>) -> bool {
    let e = trim_end(raw);
    e.len() == 0 || e.last() == '.' || e.last() == '!' || e.last() == '?'
}

/// The line starts with a space or a tab and is not blank.
pub open spec fn indented_continuation(next: Seq<char>) -> bool {
    next.len() > 0 && (next[0] == ' ' || next[0] == '\t') && !is_blank(next)
}

/// Line `i` shows a terminal signal: a response glyph at its start, a
/// box-drawing rule, or the soft-wrap pattern (it does not end a sentence and
/// the next line is indented content).
pub open spec fn terminal_signal(lines: Seq<Seq<char>>, i: int) -> bool {
    let t = trim_start(lines[i]);
    ||| t.len() > 0 && is_gutter_glyph(t[0])
    ||| spec_is_box_rule(t)
    ||| i + 1 < lines.len() && !ends_sentence(lines[i]) && indented_continuation(lines[i + 1])
}

/// What `looks_like_terminal_output` answers: an ESC character anywhere, or a
/// terminal signal on some line.
pub open spec fn spec_looks_like_terminal_output(s: Seq<char>) -> bool {
    let lines = split_on(s, '\n');
    s.contains('\u{1b}') || exists|i: int| 0 <= i < lines.len() && #[trigger] terminal_signal(
        lines,
        i,
    )
}

fn signal_at(lines: &Vec<Vec<char>>, i: usize) -> (b: bool)
    requires
        i < lines@.len(),
    ensures
        b == terminal_signal(lines_view(lines@), i as int),
{
    let ghost lv = lines_view(lines@);
    let raw = lines[i].as_slice();
    assert(lv[i as int] == raw@);
    assert(raw@.skip(0) == raw@);
    let a = skip_white(raw, 0);
    let t = slice_copy(raw, a, raw.len());
    assert(t@ =~= trim_start(raw@));
    if t.len() > 0 {
        let g = t[0];
        if g == '\u{23fa}' || g == '\u{23bf}' || g == '\u{276f}' || g == '\u{2022}' || g
            == '\u{2502}' {
            return true;
        }
    }
    if is_box_rule(t.as_slice()) {
        return true;
    }
    if i < lines.len() - 1 {
        let b = back_white(raw, 0, raw.len());
        assert(raw@.subrange(0, raw@.len() as int) =~= raw@);
        assert(trim_end(raw@) =~= raw@.take(b as int));
        let ends = b == 0 || raw[b - 1] == '.' || raw[b - 1] == '!' || raw[b - 1] == '?';
        let next = lines[i + 1].as_slice();
        assert(lv[i + 1] == next@);
        let indented = next.len() > 0 && (next[0] == ' ' || next[0] == '\t') && !all_white(next);
        if !ends && indented {
            return true;
        }
    }
    false
}

/// Deterministic pre-gate for the menu-bar app: does this text look like agent
/// / terminal output worth cleaning? Returns false when unsure, so ordinary
/// copied text (a Markdown snippet, plain prose) is never rewritten.
pub fn looks_like_terminal_output(text: &str) -> (b: bool)
    ensures
        b == spec_looks_like_terminal_output(text@),
{
    let s = chars_of(text);
    let mut k: usize = 0;
    while k < s.len()
        invariant
            k <= s@.len(),
            s@ == text@,
            forall|m: int| 0 <= m < k ==> #[trigger] s@[m] != '\u{1b}',
        decreases s@.len() - k,
    {
        if s[k] == '\u{1b}' {
            assert(s@[k as int] == '\u{1b}');
            return true;
        }
        k += 1;
    }
    assert(!text@.contains('\u{1b}'));
    let lines = split_chars(s.as_slice(), '\n');
    let ghost lv = lines_view(lines@);
    let mut i: usize = 0;
    while i < lines.len()
        invariant
            i <= lines@.len(),
            lv == lines_view(lines@),
            lv == split_on(text@, '\n'),
            forall|m: int| 0 <= m < i ==> !#[trigger] terminal_signal(lv, m),
        decreases lines@.len() - i,
    {
        if signal_at(&lines, i) {
            return true;
        }
        i += 1;
    }
    false
}

} // verus!
