//! Classifiers for one trimmed prose line: rules, tables, headings, lists.

use vstd::prelude::*;
use crate::text::char_is_whitespace;
use crate::text::{compact, lead_count, lemma_lead_count, trim_start, white_pred};
use crate::text::{skip_white, slice_copy};

verus! {

/// Terminal presentation glyphs drawn by agent UIs at the start of a line.
pub open spec fn is_gutter_glyph(c: char) -> bool {
    c == '\u{23fa}' || c == '\u{23bf}' || c == '\u{276f}' || c == '\u{2022}' || c == '\u{2502}'
}

/// Box-drawing horizontals used for separator rules.
pub open spec fn is_box_char(c: char) -> bool {
    c == '\u{2500}' || c == '\u{2501}' || c == '\u{2550}' || c == '\u{254c}' || c == '\u{254d}'
        || c == '\u{2504}' || c == '\u{2505}'
}

pub open spec fn hash_pred() -> spec_fn(char) -> bool {
    |c: char| c == '#'
}

pub open spec fn digit_pred() -> spec_fn(char) -> bool {
    |c: char| '0' <= c && c <= '9'
}

/// A line of at least three box-drawing horizontals (whitespace ignored).
pub open spec fn spec_is_box_rule(t: Seq<char>) -> bool {
    let c = compact(t);
    c.len() >= 3 && forall|i: int| 0 <= i < c.len() ==> is_box_char(#[trigger] c[i])
}

/// A Markdown table row: it starts with `|`.
pub open spec fn spec_is_table_row(t: Seq<char>) -> bool {
    t.len() > 0 && t[0] == '|'
}

/// A table delimiter row such as `| --- | :--: |`.
pub open spec fn spec_is_table_delimiter(t: Seq<char>) -> bool {
    &&& t.len() > 0 && t[0] == '|'
    &&& exists|i: int| 0 <= i < t.len() && #[trigger] t[i] == '-'
    &&& forall|i: int|
        0 <= i < t.len() ==> (#[trigger] t[i] == '|' || t[i] == '-' || t[i] == ':' || t[i] == ' ')
}

/// A horizontal rule: three or more of one of `-`, `*`, `_` (whitespace ignored).
pub open spec fn spec_is_hr(t: Seq<char>) -> bool {
    let c = compact(t);
    &&& c.len() >= 3
    &&& c[0] == '-' || c[0] == '*' || c[0] == '_'
    &&& forall|i: int| 0 <= i < c.len() ==> #[trigger] c[i] == c[0]
}

/// A setext underline: two or more `=` and nothing else.
pub open spec fn spec_is_setext_underline(t: Seq<char>) -> bool {
    t.len() >= 2 && forall|i: int| 0 <= i < t.len() ==> #[trigger] t[i] == '='
}

/// An ATX heading: one to six `#` followed by a space.
pub open spec fn spec_is_heading(t: Seq<char>) -> bool {
    let h = lead_count(t, hash_pred());
    1 <= h <= 6 && h < t.len() && t[h as int] == ' '
}

/// The heading text: leading `#`s and the whitespace after them removed.
pub open spec fn spec_strip_heading(t: Seq<char>) -> Seq<char> {
    trim_start(t.skip(lead_count(t, hash_pred()) as int))
}

/// A list item: `- `, `* `, `+ `, or digits followed by `. ` or `) `.
pub open spec fn spec_is_list_item(t: Seq<char>) -> bool {
    let d = lead_count(t, digit_pred());
    ||| t.len() >= 2 && (t[0] == '-' || t[0] == '*' || t[0] == '+') && t[1] == ' '
    ||| d > 0 && d + 1 < t.len() && (t[d as int] == '.' || t[d as int] == ')') && t[d + 1int] == ' '
}

/// The non-whitespace characters of `t`.
pub fn compact_chars(t: &[char]) -> (c: Vec<char>)
    ensures
        c@ == compact(t@),
{
    let mut c: Vec<char> = Vec::new();
    let mut i: usize = 0;
    assert(t@.take(0) =~= Seq::<char>::empty());
    while i < t.len()
        invariant
            i <= t@.len(),
            c@ == compact(t@.take(i as int)),
        decreases t@.len() - i,
    {
        let ghost pre = t@.take(i as int);
        assert(t@.take(i + 1).drop_last() =~= pre);
        if !char_is_whitespace(t[i]) {
            c.push(t[i]);
        }
        i += 1;
    }
    assert(t@.take(t@.len() as int) =~= t@);
    c
}

/// Number of leading characters equal to `ch`.
fn lead_run(t: &[char], ch: char) -> (n: usize)
    ensures
        n <= t@.len(),
        forall|j: int| 0 <= j < n ==> #[trigger] t@[j] == ch,
        n < t@.len() ==> t@[n as int] != ch,
{
    let mut n: usize = 0;
    while n < t.len() && t[n] == ch
        invariant
            n <= t@.len(),
            forall|j: int| 0 <= j < n ==> #[trigger] t@[j] == ch,
        decreases t@.len() - n,
    {
        n += 1;
    }
    n
}

/// Number of leading ASCII digits.
fn lead_digits(t: &[char]) -> (n: usize)
    ensures
        n == lead_count(t@, digit_pred()),
        n <= t@.len(),
{
    let mut n: usize = 0;
    while n < t.len() && '0' <= t[n] && t[n] <= '9'
        invariant
            n <= t@.len(),
            forall|j: int| 0 <= j < n ==> digit_pred()(#[trigger] t@[j]),
        decreases t@.len() - n,
    {
        n += 1;
    }
    proof {
        lemma_lead_count(t@, digit_pred(), n as int);
    }
    n
}

/// Number of leading `#`.
fn lead_hashes(t: &[char]) -> (n: usize)
    ensures
        n == lead_count(t@, hash_pred()),
        n <= t@.len(),
{
    let n = lead_run(t, '#');
    proof {
        assert forall|j: int| 0 <= j < n implies hash_pred()(#[trigger] t@[j]) by {}
        lemma_lead_count(t@, hash_pred(), n as int);
    }
    n
}

pub fn is_box_rule(t: &[char]) -> (b: bool)
    ensures
        b == spec_is_box_rule(t@),
{
    let c = compact_chars(t);
    if c.len() < 3 {
        return false;
    }
    let mut i: usize = 0;
    while i < c.len()
        invariant
            i <= c@.len(),
            c@ == compact(t@),
            forall|k: int| 0 <= k < i ==> is_box_char(#[trigger] c@[k]),
        decreases c@.len() - i,
    {
        let x = c[i];
        if !(x == '\u{2500}' || x == '\u{2501}' || x == '\u{2550}' || x == '\u{254c}' || x
            == '\u{254d}' || x == '\u{2504}' || x == '\u{2505}') {
            assert(!is_box_char(c@[i as int]));
            return false;
        }
        i += 1;
    }
    true
}

pub fn is_table_row(t: &[char]) -> (b: bool)
    ensures
        b == spec_is_table_row(t@),
{
    t.len() > 0 && t[0] == '|'
}

pub fn is_table_delimiter(t: &[char]) -> (b: bool)
    ensures
        b == spec_is_table_delimiter(t@),
{
    if !(t.len() > 0 && t[0] == '|') {
        return false;
    }
    let mut dash = false;
    let mut i: usize = 0;
    while i < t.len()
        invariant
            i <= t@.len(),
            dash == exists|k: int| 0 <= k < i && #[trigger] t@[k] == '-',
            forall|k: int|
                0 <= k < i ==> (#[trigger] t@[k] == '|' || t@[k] == '-' || t@[k] == ':' || t@[k]
                    == ' '),
        decreases t@.len() - i,
    {
        let x = t[i];
        if !(x == '|' || x == '-' || x == ':' || x == ' ') {
            return false;
        }
        if x == '-' {
            dash = true;
        }
        i += 1;
    }
    dash
}

pub fn is_hr(t: &[char]) -> (b: bool)
    ensures
        b == spec_is_hr(t@),
{
    let c = compact_chars(t);
    if c.len() < 3 {
        return false;
    }
    let first = c[0];
    if !(first == '-' || first == '*' || first == '_') {
        return false;
    }
    let mut i: usize = 0;
    while i < c.len()
        invariant
            i <= c@.len(),
            c@ == compact(t@),
            c@.len() >= 3,
            first == c@[0],
            forall|k: int| 0 <= k < i ==> #[trigger] c@[k] == first,
        decreases c@.len() - i,
    {
        if c[i] != first {
            assert(c@[i as int] != c@[0]);
            return false;
        }
        i += 1;
    }
    true
}

pub fn is_setext_underline(t: &[char]) -> (b: bool)
    ensures
        b == spec_is_setext_underline(t@),
{
    if t.len() < 2 {
        return false;
    }
    let n = lead_run(t, '=');
    n == t.len()
}

pub fn is_heading(t: &[char]) -> (b: bool)
    ensures
        b == spec_is_heading(t@),
{
    let h = lead_hashes(t);
    1 <= h && h <= 6 && h < t.len() && t[h] == ' '
}

pub fn strip_heading(t: &[char]) -> (s: Vec<char>)
    ensures
        s@ == spec_strip_heading(t@),
{
    let h = lead_hashes(t);
    let k = skip_white(t, h);
    proof {
        let rest = t@.skip(h as int);
        assert(rest.skip(lead_count(rest, white_pred()) as int) =~= t@.skip(k as int));
    }
    slice_copy(t, k, t.len())
}

pub fn is_list_item(t: &[char]) -> (b: bool)
    ensures
        b == spec_is_list_item(t@),
{
    if t.len() >= 2 && (t[0] == '-' || t[0] == '*' || t[0] == '+') && t[1] == ' ' {
        return true;
    }
    let d = lead_digits(t);
    d > 0 && d < t.len() - 1 && (t[d] == '.' || t[d] == ')') && t[d + 1] == ' '
}

} // verus!
