//! Rendering of one prose block: terminal chrome removal, reflow of wrapped
//! lines into logical lines, and emphasis stripping outside inline code.

use vstd::prelude::*;
use crate::outside::{regex_compiles, regex_replace_all, regex_replaced, string_from_chars};
use crate::text::{char_is_whitespace, is_white};
use crate::text::{chars_of, join, join_chars, lemma_lead_count_le, lines_view};
use crate::text::{skip_white, slice_copy, split_chars, split_on, trim, trim_chars, trim_start};
use crate::text::white_pred;
use crate::lines::{is_gutter_glyph, spec_is_box_rule, spec_is_heading, spec_is_hr};
use crate::lines::{spec_is_list_item, spec_is_setext_underline, spec_is_table_delimiter};
use crate::lines::{spec_is_table_row, spec_strip_heading};
use crate::lines::{is_box_rule, is_heading, is_hr, is_list_item, is_setext_underline};
use crate::lines::{is_table_delimiter, is_table_row, strip_heading};

verus! {

/// An ANSI CSI escape sequence, such as an SGR colour code.
pub const ANSI_CSI: &'static str = "\\x1b\\[[0-9;?=]*[A-Za-z]";

/// A `**`-delimited span whose inner text starts and ends with a non-space.
pub const BOLD_STAR: &'static str = "\\*\\*(\\S|\\S.*?\\S)\\*\\*";

/// A `*`-delimited span whose inner text starts and ends with a non-space.
pub const ITALIC_STAR: &'static str = "\\*(\\S|\\S.*?\\S)\\*";

/// The first capture group, as a `replace_all` replacement.
pub const FIRST_GROUP: &'static str = "$1";

/// The outcome of a regex replacement, or the haystack itself when the
/// pattern does not compile.
pub open spec fn replaced_or_kept(
    pattern: Seq<char>,
    haystack: Seq<char>,
    replacement: Seq<char>,
) -> Seq<char> {
    if regex_compiles(pattern) {
        regex_replaced(pattern, haystack, replacement)
    } else {
        haystack
    }
}

/// Runs `replace_all` with `pattern` over `s`, keeping `s` if the pattern does
/// not compile.
fn replace_all_chars(pattern: &str, s: &[char], replacement: &str) -> (r: Vec<char>)
    ensures
        r@ == replaced_or_kept(pattern@, s@, replacement@),
{
    let hay = string_from_chars(s);
    match regex_replace_all(pattern, hay.as_str(), replacement) {
        Some(out) => chars_of(out.as_str()),
        None => slice_copy(s, 0, s.len()),
    }
}

/// ANSI CSI sequences removed.
pub open spec fn spec_strip_ansi(s: Seq<char>) -> Seq<char> {
    replaced_or_kept(ANSI_CSI@, s, ""@)
}

/// Remove ANSI CSI escape sequences (e.g. SGR colour codes) that survive copies
/// from raw terminal buffers.
pub fn strip_ansi(s: &[char]) -> (r: Vec<char>)
    ensures
        r@ == spec_strip_ansi(s@),
{
    replace_all_chars(ANSI_CSI, s, "")
}

/// One leading terminal glyph removed, when whitespace (or nothing) follows it.
pub open spec fn spec_strip_gutter(raw: Seq<char>) -> Seq<char> {
    let t = trim_start(raw);
    if t.len() > 0 && is_gutter_glyph(t[0]) && (t.len() == 1 || is_white(t[1])) {
        trim_start(t.skip(1))
    } else {
        t
    }
}

/// Remove one recognized terminal UI gutter from a prose line. A glyph glued
/// to text (`•nospace`) is kept.
pub fn strip_terminal_gutter(raw: &[char]) -> (r: Vec<char>)
    ensures
        r@ == spec_strip_gutter(raw@),
{
    assert(raw@.skip(0) == raw@);
    let a = skip_white(raw, 0);
    let ghost t = trim_start(raw@);
    assert(t =~= raw@.skip(a as int));
    if a < raw.len() {
        let g = raw[a];
        if g == '\u{23fa}' || g == '\u{23bf}' || g == '\u{276f}' || g == '\u{2022}' || g
            == '\u{2502}' {
            if a + 1 == raw.len() || char_is_whitespace(raw[a + 1]) {
                let b = skip_white(raw, a + 1);
                assert(t.skip(1) =~= raw@.skip(a + 1));
                assert(trim_start(t.skip(1)) =~= raw@.skip(b as int));
                return slice_copy(raw, b, raw.len());
            }
        }
    }
    slice_copy(raw, a, raw.len())
}

/// A leading run of `>` markers removed, each with the whitespace after it.
pub open spec fn spec_strip_quotes(s: Seq<char>) -> Seq<char>
    decreases s.len(),
{
    let cur = trim_start(s);
    if cur.len() > 0 && cur[0] == '>' {
        proof {
            lemma_lead_count_le(s, white_pred());
        }
        spec_strip_quotes(cur.skip(1))
    } else {
        cur
    }
}

/// Remove a leading run of blockquote markers (`>`, including nested `> >`)
/// plus the whitespace after each. Only markers are removed, never content.
pub fn strip_leading_blockquotes(s: &[char]) -> (r: Vec<char>)
    ensures
        r@ == spec_strip_quotes(s@),
{
    assert(s@.skip(0) == s@);
    let mut k = skip_white(s, 0);
    let ghost mut x = s@;
    assert(trim_start(x) =~= s@.skip(k as int));
    while k < s.len() && s[k] == '>'
        invariant
            k <= s@.len(),
            trim_start(x) == s@.skip(k as int),
            spec_strip_quotes(s@) == spec_strip_quotes(x),
        decreases s@.len() - k,
    {
        let ghost old_x = x;
        proof {
            assert(trim_start(old_x)[0] == s@[k as int]);
            x = s@.skip(k + 1);
            assert(trim_start(old_x).skip(1) =~= x);
            assert(spec_strip_quotes(old_x) == spec_strip_quotes(x));
        }
        k = skip_white(s, k + 1);
        assert(trim_start(x) =~= s@.skip(k as int));
    }
    slice_copy(s, k, s.len())
}

/// Matched `**` pairs, then matched `*` pairs, replaced by their inner text.
pub open spec fn spec_strip_star_emphasis(s: Seq<char>) -> Seq<char> {
    replaced_or_kept(
        ITALIC_STAR@,
        replaced_or_kept(BOLD_STAR@, s, FIRST_GROUP@),
        FIRST_GROUP@,
    )
}

/// Strip matched `*`/`**` pairs with non-space inner boundaries, so lone
/// asterisks (`2 * 3`, `*.py`, `rm *`) survive.
pub fn strip_star_emphasis(s: &[char]) -> (r: Vec<char>)
    ensures
        r@ == spec_strip_star_emphasis(s@),
{
    let bold = replace_all_chars(BOLD_STAR, s, FIRST_GROUP);
    replace_all_chars(ITALIC_STAR, bold.as_slice(), FIRST_GROUP)
}

/// Pieces between backticks: even ones (outside inline code) have their star
/// emphasis stripped, odd ones (inside inline code) are kept verbatim.
pub open spec fn outside_code_stripped(parts: Seq<Seq<char>>) -> Seq<Seq<char>> {
    Seq::new(
        parts.len(),
        |i: int|
            if i % 2 == 0 {
                spec_strip_star_emphasis(parts[i])
            } else {
                parts[i]
            },
    )
}

/// Emphasis stripped outside inline-code spans; code spans kept verbatim.
pub open spec fn spec_strip_emphasis(s: Seq<char>) -> Seq<char> {
    join(outside_code_stripped(split_on(s, '`')), seq!['`'])
}

/// Strip matched `*`/`**` emphasis, but keep inline-code (backtick) spans
/// verbatim. Underscore emphasis is left alone.
pub fn strip_emphasis(s: &[char]) -> (r: Vec<char>)
    ensures
        r@ == spec_strip_emphasis(s@),
{
    let parts = split_chars(s, '`');
    let ghost pv = lines_view(parts@);
    let mut mapped: Vec<Vec<char>> = Vec::new();
    let mut i: usize = 0;
    while i < parts.len()
        invariant
            i <= parts@.len(),
            pv == lines_view(parts@),
            mapped@.len() == i,
            forall|k: int| 0 <= k < i ==> #[trigger] mapped@[k]@ == outside_code_stripped(pv)[k],
        decreases parts@.len() - i,
    {
        assert(pv[i as int] == parts@[i as int]@);
        if i % 2 == 0 {
            let m = strip_star_emphasis(parts[i].as_slice());
            assert(outside_code_stripped(pv)[i as int] == m@);
            mapped.push(m);
        } else {
            let m = slice_copy(parts[i].as_slice(), 0, parts[i].len());
            assert(m@ =~= parts@[i as int]@);
            assert(outside_code_stripped(pv)[i as int] == m@);
            mapped.push(m);
        }
        i += 1;
    }
    assert(lines_view(mapped@) =~= outside_code_stripped(pv));
    let tick = vec!['`'];
    assert(tick@ =~= seq!['`']);
    join_chars(&mapped, tick.as_slice())
}

/// The text of one prose line once ANSI codes are gone: gutter glyph and
/// blockquote markers removed, then trimmed.
pub open spec fn prose_text(deansied: Seq<char>) -> Seq<char> {
    trim(spec_strip_quotes(spec_strip_gutter(deansied)))
}

/// Reflow state: finished logical lines and the logical line still open.
pub struct ReflowState {
    pub done: Seq<Seq<char>>,
    pub open: Option<Seq<char>>,
}

/// The finished lines with the open line, if any, closed.
pub open spec fn flushed(st: ReflowState) -> Seq<Seq<char>> {
    match st.open {
        Some(c) => st.done.push(c),
        None => st.done,
    }
}

/// One trimmed line fed to the reflow: structural lines close the open line,
/// plain lines extend it.
pub open spec fn reflow_step(st: ReflowState, t: Seq<char>) -> ReflowState {
    if t.len() == 0 {
        st
    } else if spec_is_hr(t) || spec_is_box_rule(t) || spec_is_setext_underline(t) {
        ReflowState { done: flushed(st), open: None }
    } else if spec_is_table_row(t) {
        if spec_is_table_delimiter(t) {
            ReflowState { done: flushed(st), open: None }
        } else {
            ReflowState { done: flushed(st).push(t), open: None }
        }
    } else if spec_is_heading(t) {
        ReflowState { done: flushed(st).push(spec_strip_heading(t)), open: None }
    } else if spec_is_list_item(t) {
        ReflowState { done: flushed(st), open: Some(t) }
    } else {
        match st.open {
            Some(c) => ReflowState { done: st.done, open: Some(c + seq![' '] + t) },
            None => ReflowState { done: st.done, open: Some(t) },
        }
    }
}

/// The reflow state after feeding every line of `lines` in order.
pub open spec fn reflow_fold(lines: Seq<Seq<char>>) -> ReflowState
    decreases lines.len(),
{
    if lines.len() == 0 {
        ReflowState { done: Seq::empty(), open: None }
    } else {
        reflow_step(reflow_fold(lines.drop_last()), prose_text(lines.last()))
    }
}

/// Logical lines of a prose block whose ANSI codes are already removed.
pub open spec fn spec_reflow(lines: Seq<Seq<char>>) -> Seq<Seq<char>> {
    flushed(reflow_fold(lines))
}

pub open spec fn open_view(o: Option<Vec<char>>) -> Option<Seq<char>> {
    match o {
        Some(v) => Some(v@),
        None => None,
    }
}

/// Closes the open logical line, if any.
fn flush_open(done: &mut Vec<Vec<char>>, open: Option<Vec<char>>)
    ensures
        lines_view(final(done)@) == flushed(
            ReflowState { done: lines_view(old(done)@), open: open_view(open) },
        ),
{
    match open {
        Some(c) => {
            done.push(c);
            assert(lines_view(done@) =~= lines_view(old(done)@).push(open_view(open)->0));
        },
        None => {},
    }
}

/// Reflow the lines of a prose block (ANSI codes already removed) into logical
/// lines: soft (single-newline) breaks join with one space; headings, rules,
/// table rows and list items bound the join; rules and table delimiters are
/// dropped, heading markers stripped.
pub fn reflow(lines: &Vec<Vec<char>>) -> (logical: Vec<Vec<char>>)
    ensures
        lines_view(logical@) == spec_reflow(lines_view(lines@)),
{
    let ghost lv = lines_view(lines@);
    let mut done: Vec<Vec<char>> = Vec::new();
    let mut open: Option<Vec<char>> = None;
    let mut i: usize = 0;
    assert(lv.take(0) =~= Seq::<Seq<char>>::empty());
    assert(lines_view(done@) =~= Seq::<Seq<char>>::empty());
    while i < lines.len()
        invariant
            i <= lines@.len(),
            lv == lines_view(lines@),
            (ReflowState { done: lines_view(done@), open: open_view(open) }) == reflow_fold(
                lv.take(i as int),
            ),
        decreases lines@.len() - i,
    {
        assert(lv.take(i + 1).drop_last() =~= lv.take(i as int));
        assert(lv.take(i + 1).last() == lines@[i as int]@);
        let g = strip_terminal_gutter(lines[i].as_slice());
        let q = strip_leading_blockquotes(g.as_slice());
        let t = trim_chars(q.as_slice());
        let ts = t.as_slice();
        if t.len() == 0 {
        } else if is_hr(ts) || is_box_rule(ts) || is_setext_underline(ts) {
            let taken = open;
            open = None;
            flush_open(&mut done, taken);
        } else if is_table_row(ts) {
            let taken = open;
            open = None;
            flush_open(&mut done, taken);
            if !is_table_delimiter(ts) {
                let ghost before = lines_view(done@);
                done.push(t);
                assert(lines_view(done@) =~= before.push(t@));
            }
        } else if is_heading(ts) {
            let h = strip_heading(ts);
            let taken = open;
            open = None;
            flush_open(&mut done, taken);
            let ghost before = lines_view(done@);
            done.push(h);
            assert(lines_view(done@) =~= before.push(h@));
        } else if is_list_item(ts) {
            let taken = open;
            open = None;
            flush_open(&mut done, taken);
            open = Some(t);
        } else {
            let taken = open;
            match taken {
                Some(mut c) => {
                    let ghost old_c = c@;
                    c.push(' ');
                    crate::text::append_chars(&mut c, ts);
                    assert(c@ =~= old_c + seq![' '] + t@);
                    open = Some(c);
                },
                None => {
                    open = Some(t);
                },
            }
        }
        i += 1;
    }
    assert(lv.take(lines@.len() as int) =~= lv);
    let taken = open;
    flush_open(&mut done, taken);
    done
}

/// The rendered text of a prose block, or `None` when nothing but chrome is left.
pub open spec fn spec_render_prose(lines: Seq<Seq<char>>) -> Option<Seq<char>> {
    let logical = spec_reflow(lines.map_values(|l: Seq<char>| spec_strip_ansi(l)));
    if logical.len() == 0 {
        None
    } else {
        Some(join(logical.map_values(|l: Seq<char>| spec_strip_emphasis(l)), seq!['\n']))
    }
}

/// Reflow a prose block into logical lines, then strip emphasis from each and
/// join them with newlines. `None` when the block held only chrome.
pub fn render_prose_block(lines: &Vec<Vec<char>>) -> (r: Option<Vec<char>>)
    ensures
        open_view(r) == spec_render_prose(lines_view(lines@)),
{
    let ghost lv = lines_view(lines@);
    let mut deansied: Vec<Vec<char>> = Vec::new();
    let mut i: usize = 0;
    while i < lines.len()
        invariant
            i <= lines@.len(),
            lv == lines_view(lines@),
            deansied@.len() == i,
            forall|k: int| 0 <= k < i ==> #[trigger] deansied@[k]@ == spec_strip_ansi(lv[k]),
        decreases lines@.len() - i,
    {
        let d = strip_ansi(lines[i].as_slice());
        assert(lv[i as int] == lines@[i as int]@);
        deansied.push(d);
        i += 1;
    }
    assert(lines_view(deansied@) =~= lv.map_values(|l: Seq<char>| spec_strip_ansi(l)));
    let logical = reflow(&deansied);
    if logical.len() == 0 {
        return None;
    }
    let ghost ll = lines_view(logical@);
    let mut stripped: Vec<Vec<char>> = Vec::new();
    let mut j: usize = 0;
    while j < logical.len()
        invariant
            j <= logical@.len(),
            ll == lines_view(logical@),
            stripped@.len() == j,
            forall|k: int| 0 <= k < j ==> #[trigger] stripped@[k]@ == spec_strip_emphasis(ll[k]),
        decreases logical@.len() - j,
    {
        let e = strip_emphasis(logical[j].as_slice());
        assert(ll[j as int] == logical@[j as int]@);
        stripped.push(e);
        j += 1;
    }
    assert(lines_view(stripped@) =~= ll.map_values(|l: Seq<char>| spec_strip_emphasis(l)));
    let nl = vec!['\n'];
    assert(nl@ =~= seq!['\n']);
    Some(join_chars(&stripped, nl.as_slice()))
}

} // verus!
