//! Properties of the library as a whole, each proved over the spec functions
//! that the functions' contracts use.

use vstd::prelude::*;
use vstd::utf8::{decode_utf8, encode_utf8, encode_utf8_decode_utf8, encode_utf8_valid_utf8};
use vstd::utf8::valid_utf8;
use crate::text::is_white;
use crate::text::{is_blank, join, lead_count, split_on, trim_start, white_pred};
use crate::text::lemma_lead_count;
use crate::lines::{spec_is_box_rule, spec_is_heading, spec_is_hr, spec_is_list_item};
use crate::lines::{spec_is_setext_underline, spec_is_table_row};
use crate::prose::{prose_text, reflow_fold, spec_reflow, spec_strip_quotes, ReflowState};
use crate::clean::{chunks_from, drop_preamble, fence_close, is_fence_line, normalize};
use crate::clean::prose_stop;
use crate::clean::{has_framing_marker, is_framing};
use crate::text::{contains_seq, starts_with, trim};
use crate::outside::lowercased;
use crate::prose::{flushed, reflow_step, spec_render_prose, spec_strip_ansi, spec_strip_emphasis};
use crate::lines::spec_is_table_delimiter;

use crate::lines::is_gutter_glyph;
use crate::clean::{rendered, spec_clean, spec_is_preamble, ChunkView};
use crate::gate::{spec_looks_like_terminal_output, terminal_signal};
use crate::watch::{observed, spec_clipboard_action, watch_run, watch_step, ActionView};
use crate::watch::{WatchEvent, WatchView};

verus! {

// ---------------------------------------------------------------------------
// Helper facts about the character-sequence spec functions.
// ---------------------------------------------------------------------------

/// Splitting on a separator and joining with it gives the text back.
pub proof fn lemma_join_split(s: Seq<char>, sep: char)
    ensures
        join(split_on(s, sep), seq![sep]) == s,
    decreases s.len(),
{
    if s.len() == 0 {
        assert(join(split_on(s, sep), seq![sep]) =~= s);
    } else {
        let d = s.drop_last();
        let p = split_on(d, sep);
        lemma_join_split(d, sep);
        crate::text::lemma_split_on_nonempty(d, sep);
        if s.last() == sep {
            let q = p.push(Seq::<char>::empty());
            assert(q.drop_last() =~= p);
            assert(join(q, seq![sep]) =~= s);
        } else {
            let q = p.update(p.len() - 1, p.last().push(s.last()));
            if p.len() == 1 {
                assert(q[0] == p[0].push(s.last()));
                assert(join(p, seq![sep]) == p[0]);
                assert(d.push(s.last()) =~= s);
                assert(join(q, seq![sep]) == q[0]);
            } else {
                assert(q.drop_last() =~= p.drop_last());
                assert(join(p, seq![sep]) == join(p.drop_last(), seq![sep]) + seq![sep] + p.last());
                assert(q.last() == p.last().push(s.last()));
                assert(join(q, seq![sep]) == join(q.drop_last(), seq![sep]) + seq![sep] + q.last());
                assert(d.push(s.last()) =~= s);
                assert(join(q, seq![sep]) =~= join(p, seq![sep]).push(s.last()));
            }
        }
    }
}

/// Every piece of a split of blank text is blank.
pub proof fn lemma_split_blank(s: Seq<char>, sep: char)
    requires
        is_blank(s),
    ensures
        forall|i: int| 0 <= i < split_on(s, sep).len() ==> is_blank(#[trigger] split_on(s, sep)[i]),
    decreases s.len(),
{
    if s.len() > 0 {
        let d = s.drop_last();
        assert(is_blank(d)) by {
            assert forall|k: int| 0 <= k < d.len() implies is_white(#[trigger] d[k]) by {
                assert(d[k] == s[k]);
            }
        }
        lemma_split_blank(d, sep);
        crate::text::lemma_split_on_nonempty(d, sep);
        let p = split_on(d, sep);
        if s.last() != sep {
            let q = p.update(p.len() - 1, p.last().push(s.last()));
            assert forall|i: int| 0 <= i < q.len() implies is_blank(#[trigger] q[i]) by {
                if i == p.len() - 1 {
                    assert(is_blank(p[i]));
                    assert forall|k: int| 0 <= k < q[i].len() implies is_white(#[trigger] q[i][k]) by {
                        if k < p[i].len() {
                            assert(q[i][k] == p[i][k]);
                        } else {
                            assert(q[i][k] == s.last());
                        }
                    }
                }
            }
        } else {
            let q = p.push(Seq::<char>::empty());
            assert forall|i: int| 0 <= i < q.len() implies is_blank(#[trigger] q[i]) by {
                if i < p.len() {
                    assert(q[i] == p[i]);
                }
            }
        }
    }
}

/// A split into two or more pieces means the separator occurs.
pub proof fn lemma_split_many_contains(s: Seq<char>, sep: char)
    requires
        split_on(s, sep).len() >= 2,
    ensures
        s.contains(sep),
    decreases s.len(),
{
    if s.len() > 0 {
        if s.last() == sep {
            assert(s[s.len() - 1] == sep);
        } else {
            crate::text::lemma_split_on_nonempty(s.drop_last(), sep);
            assert(split_on(s, sep).len() == split_on(s.drop_last(), sep).len());
            lemma_split_many_contains(s.drop_last(), sep);
            let k = choose|k: int| 0 <= k < s.drop_last().len() && s.drop_last()[k] == sep;
            assert(s[k] == sep);
        }
    }
}

/// Text without byte-order marks or zero-width spaces is left as it is by
/// `normalize`.
pub proof fn lemma_normalize_keeps(s: Seq<char>)
    requires
        forall|i: int| 0 <= i < s.len() ==> #[trigger] s[i] != '\u{feff}' && s[i] != '\u{200b}',
    ensures
        normalize(s) == s,
    decreases s.len(),
{
    if s.len() > 0 {
        let d = s.drop_last();
        assert forall|i: int| 0 <= i < d.len() implies #[trigger] d[i] != '\u{feff}' && d[i]
            != '\u{200b}' by {
            assert(d[i] == s[i]);
        }
        lemma_normalize_keeps(d);
        assert(d.push(s.last()) =~= s);
    }
}

/// `normalize` of blank text is blank.
pub proof fn lemma_normalize_blank(s: Seq<char>)
    requires
        is_blank(s),
    ensures
        is_blank(normalize(s)),
    decreases s.len(),
{
    if s.len() > 0 {
        let d = s.drop_last();
        assert(is_blank(d)) by {
            assert forall|k: int| 0 <= k < d.len() implies is_white(#[trigger] d[k]) by {
                assert(d[k] == s[k]);
            }
        }
        lemma_normalize_blank(d);
        let n = normalize(d);
        if !(s.last() == '\u{feff}' || s.last() == '\u{200b}') {
            assert forall|k: int| 0 <= k < n.push(s.last()).len() implies is_white(
                #[trigger] n.push(s.last())[k],
            ) by {
                if k < n.len() {
                    assert(n.push(s.last())[k] == n[k]);
                }
            }
        }
    }
}

/// Leading whitespace removed from a blank line leaves nothing.
pub proof fn lemma_trim_start_blank(s: Seq<char>)
    requires
        is_blank(s),
    ensures
        trim_start(s).len() == 0,
{
    assert forall|j: int| 0 <= j < s.len() implies white_pred()(#[trigger] s[j]) by {}
    lemma_lead_count(s, white_pred(), s.len() as int);
}

/// No block comes out of lines that are all blank.
pub proof fn lemma_chunks_of_blank_lines(lines: Seq<Seq<char>>, i: int)
    requires
        0 <= i,
        forall|k: int| 0 <= k < lines.len() ==> is_blank(#[trigger] lines[k]),
    ensures
        chunks_from(lines, i) == Seq::<ChunkView>::empty(),
    decreases lines.len() - i,
{
    if i < lines.len() {
        lemma_trim_start_blank(lines[i]);
        assert(!is_fence_line(lines[i]));
        lemma_chunks_of_blank_lines(lines, i + 1);
    }
}

/// A fence that opens at line `0` closes at the first later fence line.
proof fn lemma_fence_closes_at_last(lines: Seq<Seq<char>>, j: int)
    requires
        1 <= j <= lines.len() - 1,
        is_fence_line(lines[lines.len() - 1]),
        forall|k: int| 1 <= k < lines.len() - 1 ==> !is_fence_line(#[trigger] lines[k]),
    ensures
        fence_close(lines, j) == lines.len(),
    decreases lines.len() - j,
{
    if j < lines.len() - 1 {
        lemma_fence_closes_at_last(lines, j + 1);
    }
}

// ---------------------------------------------------------------------------
// The cleaner.
// ---------------------------------------------------------------------------

/// Code is passed through byte for byte: text that is one fenced code block
/// (an opening fence line, lines with no fence, a closing fence line) and holds
/// no byte-order mark or zero-width space is returned unchanged, so cleaning it
/// again changes nothing either.
pub proof fn law_fenced_code_passes_verbatim(s: Seq<char>)
    requires
        split_on(s, '\n').len() >= 2,
        is_fence_line(split_on(s, '\n')[0]),
        is_fence_line(split_on(s, '\n')[split_on(s, '\n').len() - 1]),
        forall|k: int|
            1 <= k < split_on(s, '\n').len() - 1 ==> !is_fence_line(#[trigger] split_on(s, '\n')[k]),
        forall|i: int| 0 <= i < s.len() ==> #[trigger] s[i] != '\u{feff}' && s[i] != '\u{200b}',
    ensures
        spec_clean(s) == s,
        spec_clean(spec_clean(s)) == spec_clean(s),
{
    let lines = split_on(s, '\n');
    let n = lines.len() as int;
    lemma_normalize_keeps(s);
    lemma_fence_closes_at_last(lines, 1);
    lemma_join_split(s, '\n');
    assert(lines.subrange(0, n) =~= lines);
    assert(chunks_from(lines, n) == Seq::<ChunkView>::empty());
    let cs = chunks_from(lines, 0);
    assert(cs =~= seq![ChunkView::Code(s)]);
    assert(cs.drop_last() =~= Seq::<ChunkView>::empty());
    let bs = rendered(cs);
    assert(rendered(cs.drop_last()) =~= Seq::<Seq<char>>::empty());
    assert(bs =~= seq![s]);
    lemma_split_many_contains(s, '\n');
    assert(!spec_is_preamble(s));
    assert(drop_preamble(bs) == bs);
    assert(spec_clean(s) =~= s);
}

/// Blank or whitespace-only input cleans to the empty string.
pub proof fn law_blank_input_cleans_to_empty(s: Seq<char>)
    requires
        is_blank(s),
    ensures
        spec_clean(s) == Seq::<char>::empty(),
{
    lemma_normalize_blank(s);
    let lines = split_on(normalize(s), '\n');
    lemma_split_blank(normalize(s), '\n');
    lemma_chunks_of_blank_lines(lines, 0);
    assert(rendered(chunks_from(lines, 0)) =~= Seq::<Seq<char>>::empty());
}

/// `normalize` removes every byte-order mark and zero-width space.
pub proof fn law_normalize_removes_invisible_marks(s: Seq<char>)
    ensures
        forall|i: int|
            0 <= i < normalize(s).len() ==> #[trigger] normalize(s)[i] != '\u{feff}'
                && normalize(s)[i] != '\u{200b}',
    decreases s.len(),
{
    if s.len() > 0 {
        law_normalize_removes_invisible_marks(s.drop_last());
        let n = normalize(s.drop_last());
        if !(s.last() == '\u{feff}' || s.last() == '\u{200b}') {
            assert forall|i: int| 0 <= i < n.push(s.last()).len() implies #[trigger] n.push(
                s.last(),
            )[i] != '\u{feff}' && n.push(s.last())[i] != '\u{200b}' by {
                if i < n.len() {
                    assert(n.push(s.last())[i] == n[i]);
                }
            }
        }
    }
}

/// A reflowed line that is none of the structural kinds (rule, box rule,
/// setext underline, table row, heading, list item) and not empty.
pub open spec fn is_plain_line(t: Seq<char>) -> bool {
    &&& t.len() > 0
    &&& !spec_is_hr(t) && !spec_is_box_rule(t) && !spec_is_setext_underline(t)
    &&& !spec_is_table_row(t) && !spec_is_heading(t) && !spec_is_list_item(t)
}

proof fn lemma_soft_wrap_fold(lines: Seq<Seq<char>>)
    requires
        lines.len() >= 1,
        is_plain_line(prose_text(lines[0])) || (prose_text(lines[0]).len() > 0 && spec_is_list_item(
            prose_text(lines[0]),
        ) && !spec_is_hr(prose_text(lines[0])) && !spec_is_box_rule(prose_text(lines[0]))
            && !spec_is_setext_underline(prose_text(lines[0])) && !spec_is_table_row(
            prose_text(lines[0]),
        ) && !spec_is_heading(prose_text(lines[0]))),
        forall|i: int| 1 <= i < lines.len() ==> is_plain_line(#[trigger] prose_text(lines[i])),
    ensures
        reflow_fold(lines) == (ReflowState {
            done: Seq::empty(),
            open: Some(join(lines.map_values(|l: Seq<char>| prose_text(l)), seq![' '])),
        }),
    decreases lines.len(),
{
    let texts = lines.map_values(|l: Seq<char>| prose_text(l));
    if lines.len() == 1 {
        assert(lines.drop_last() =~= Seq::<Seq<char>>::empty());
        assert(reflow_fold(lines.drop_last()) == (ReflowState { done: Seq::empty(), open: None }));
    } else {
        let d = lines.drop_last();
        assert(d[0] == lines[0]);
        assert forall|i: int| 1 <= i < d.len() implies is_plain_line(#[trigger] prose_text(d[i])) by {
            assert(d[i] == lines[i]);
            assert(is_plain_line(prose_text(lines[i])));
        }
        lemma_soft_wrap_fold(d);
        let dt = d.map_values(|l: Seq<char>| prose_text(l));
        assert(texts.drop_last() =~= dt);
        assert(is_plain_line(prose_text(lines[lines.len() - 1])));
        assert(join(texts, seq![' ']) == join(dt, seq![' ']) + seq![' '] + texts.last());
    }
}

/// Single-newline breaks inside a paragraph are wrap artifacts: plain lines,
/// or a list item followed by plain lines, reflow into one logical line whose
/// parts are joined by single spaces.
pub proof fn law_soft_wraps_join_with_one_space(lines: Seq<Seq<char>>)
    requires
        lines.len() >= 1,
        is_plain_line(prose_text(lines[0])) || (prose_text(lines[0]).len() > 0 && spec_is_list_item(
            prose_text(lines[0]),
        ) && !spec_is_hr(prose_text(lines[0])) && !spec_is_box_rule(prose_text(lines[0]))
            && !spec_is_setext_underline(prose_text(lines[0])) && !spec_is_table_row(
            prose_text(lines[0]),
        ) && !spec_is_heading(prose_text(lines[0]))),
        forall|i: int| 1 <= i < lines.len() ==> is_plain_line(#[trigger] prose_text(lines[i])),
    ensures
        spec_reflow(lines) == seq![join(lines.map_values(|l: Seq<char>| prose_text(l)), seq![' '])],
{
    lemma_soft_wrap_fold(lines);
    assert(spec_reflow(lines) =~= seq![
        join(lines.map_values(|l: Seq<char>| prose_text(l)), seq![' ']),
    ]);
}

proof fn lemma_strip_quotes_shape(s: Seq<char>)
    ensures
        ({
            let r = spec_strip_quotes(s);
            r.len() == 0 || (!is_white(r[0]) && r[0] != '>')
        }),
    decreases s.len(),
{
    let cur = trim_start(s);
    crate::text::lemma_lead_count_le(s, white_pred());
    if cur.len() > 0 && cur[0] == '>' {
        lemma_strip_quotes_shape(cur.skip(1));
    } else if cur.len() > 0 {
        lemma_lead_count_stop(s);
    }
}

proof fn lemma_lead_count_stop(s: Seq<char>)
    ensures
        lead_count(s, white_pred()) < s.len() ==> !is_white(
            s[lead_count(s, white_pred()) as int],
        ),
    decreases s.len(),
{
    if s.len() > 0 && is_white(s[0]) {
        lemma_lead_count_stop(s.drop_first());
        let k = lead_count(s.drop_first(), white_pred());
        if k < s.drop_first().len() {
            assert(s.drop_first()[k as int] == s[k + 1int]);
        }
    }
}

proof fn lemma_lead_count_prefix(s: Seq<char>, p: spec_fn(char) -> bool)
    ensures
        lead_count(s, p) <= s.len(),
        forall|j: int| 0 <= j < lead_count(s, p) ==> p(#[trigger] s[j]),
    decreases s.len(),
{
    if s.len() > 0 && p(s[0]) {
        let d = s.drop_first();
        lemma_lead_count_prefix(d, p);
        assert forall|j: int| 0 <= j < lead_count(s, p) implies p(#[trigger] s[j]) by {
            if j > 0 {
                assert(s[j] == d[j - 1]);
            }
        }
    }
}

/// How many leading characters blockquote stripping removes.
proof fn quote_cut(s: Seq<char>) -> (k: int)
    ensures
        0 <= k <= s.len(),
        spec_strip_quotes(s) == s.skip(k),
        forall|j: int| 0 <= j < k ==> #[trigger] s[j] == '>' || is_white(s[j]),
    decreases s.len(),
{
    let a = lead_count(s, white_pred()) as int;
    lemma_lead_count_prefix(s, white_pred());
    let cur = trim_start(s);
    if cur.len() > 0 && cur[0] == '>' {
        let t = cur.skip(1);
        assert(t =~= s.skip(a + 1));
        let k2 = quote_cut(t);
        let k = a + 1 + k2;
        assert(s.skip(k) =~= t.skip(k2));
        assert forall|j: int| 0 <= j < k implies #[trigger] s[j] == '>' || is_white(s[j]) by {
            if j < a {
                assert(white_pred()(s[j]));
            } else if j == a {
                assert(cur[0] == s[a]);
            } else {
                assert(s[j] == t[j - a - 1]);
            }
        }
        k
    } else {
        assert forall|j: int| 0 <= j < a implies #[trigger] s[j] == '>' || is_white(s[j]) by {
            assert(white_pred()(s[j]));
        }
        a
    }
}

/// Blockquote stripping removes markers only, never content: what it returns
/// is a suffix of its input, everything it removed is `>` or whitespace, and
/// what is left starts with neither.
pub proof fn law_quote_strip_removes_only_markers(s: Seq<char>)
    ensures
        exists|k: int|
            0 <= k <= s.len() && #[trigger] s.skip(k) == spec_strip_quotes(s) && forall|j: int|
                0 <= j < k ==> #[trigger] s[j] == '>' || is_white(s[j]),
        spec_strip_quotes(s).len() == 0 || (!is_white(spec_strip_quotes(s)[0])
            && spec_strip_quotes(s)[0] != '>'),
{
    let k = quote_cut(s);
    assert(s.skip(k) == spec_strip_quotes(s));
    lemma_strip_quotes_shape(s);
}

/// Stripping leading blockquote markers twice is the same as once.
pub proof fn law_quote_strip_idempotent(s: Seq<char>)
    ensures
        spec_strip_quotes(spec_strip_quotes(s)) == spec_strip_quotes(s),
{
    let r = spec_strip_quotes(s);
    lemma_strip_quotes_shape(s);
    assert(lead_count(r, white_pred()) == 0);
    assert(r.skip(0) =~= r);
}

/// Preamble stripping fails open: a first block of more than one line is never
/// dropped.
pub proof fn law_multi_line_first_block_is_kept(blocks: Seq<Seq<char>>)
    requires
        blocks.len() > 0,
        blocks[0].contains('\n'),
    ensures
        drop_preamble(blocks) == blocks,
{
}

proof fn lemma_prose_stop_at(lines: Seq<Seq<char>>, j: int, e: int)
    requires
        0 <= j <= e < lines.len(),
        forall|k: int| j <= k < e ==> !is_blank(#[trigger] lines[k]) && !is_fence_line(lines[k]),
        is_blank(lines[e]),
    ensures
        prose_stop(lines, j) == e,
    decreases e - j,
{
    if j < e {
        lemma_prose_stop_at(lines, j + 1, e);
    }
}

/// A blank line is a hard break: a run of prose lines ends at the first blank
/// line, which starts nothing itself.
pub proof fn law_blank_line_ends_a_prose_block(lines: Seq<Seq<char>>, i: int, e: int)
    requires
        0 <= i < e < lines.len(),
        forall|k: int| i <= k < e ==> !is_blank(#[trigger] lines[k]) && !is_fence_line(lines[k]),
        is_blank(lines[e]),
    ensures
        chunks_from(lines, i) == seq![ChunkView::Prose(lines.subrange(i, e))] + chunks_from(
            lines,
            e + 1,
        ),
{
    lemma_prose_stop_at(lines, i, e);
    lemma_trim_start_blank(lines[e]);
    assert(!is_fence_line(lines[e]));
    assert(chunks_from(lines, e) == chunks_from(lines, e + 1));
    assert(!is_blank(lines[i]) && !is_fence_line(lines[i]));
    assert(chunks_from(lines, i) == seq![ChunkView::Prose(lines.subrange(i, e))] + chunks_from(
        lines,
        e,
    ));
}

proof fn lemma_rendered_keeps_code(cs: Seq<ChunkView>, j: int) -> (k: int)
    requires
        0 <= j < cs.len(),
        cs[j] is Code,
    ensures
        0 <= k < rendered(cs).len(),
        rendered(cs)[k] == cs[j]->Code_0,
    decreases cs.len(),
{
    let d = cs.drop_last();
    let r = rendered(d);
    if j == cs.len() - 1 {
        r.len() as int
    } else {
        assert(d[j] == cs[j]);
        let k = lemma_rendered_keeps_code(d, j);
        match cs.last() {
            ChunkView::Code(x) => {
                assert(rendered(cs)[k] == r[k]);
            },
            ChunkView::Prose(ls) => {
                match crate::prose::spec_render_prose(ls) {
                    Some(x) => {
                        assert(rendered(cs)[k] == r[k]);
                    },
                    None => {},
                }
            },
        }
        k
    }
}

proof fn lemma_join_contains(xs: Seq<Seq<char>>, sep: Seq<char>, k: int)
    requires
        0 <= k < xs.len(),
    ensures
        crate::text::contains_seq(join(xs, sep), xs[k]),
    decreases xs.len(),
{
    let j = join(xs, sep);
    let n = xs[k].len() as int;
    if xs.len() == 1 {
        let w: int = 0;
        assert(j.subrange(w, w + n) =~= xs[k]);
        assert(crate::text::contains_seq(j, xs[k]));
    } else if k == xs.len() - 1 {
        let pre = join(xs.drop_last(), sep) + sep;
        assert(j == pre + xs.last());
        let w: int = pre.len() as int;
        assert(j.subrange(w, w + n) =~= xs[k]);
        assert(crate::text::contains_seq(j, xs[k]));
    } else {
        let d = xs.drop_last();
        assert(d[k] == xs[k]);
        lemma_join_contains(d, sep, k);
        let jd = join(d, sep);
        let i = choose|i: int|
            0 <= i && i + xs[k].len() <= jd.len() && #[trigger] jd.subrange(i, i + xs[k].len())
                == xs[k];
        assert(j == jd + sep + xs.last());
        assert(j.subrange(i, i + n) =~= jd.subrange(i, i + n));
        assert(crate::text::contains_seq(j, xs[k]));
    }
}

/// Code is sacred wherever it stands: every fenced code block of the input
/// that spans more than one line (its lines exactly as they were, fences
/// included) appears as one contiguous run of the output.
pub proof fn law_every_code_block_comes_out_verbatim(s: Seq<char>, j: int)
    requires
        0 <= j < chunks_from(split_on(normalize(s), '\n'), 0).len(),
        chunks_from(split_on(normalize(s), '\n'), 0)[j] is Code,
        chunks_from(split_on(normalize(s), '\n'), 0)[j]->Code_0.contains('\n'),
    ensures
        crate::text::contains_seq(
            spec_clean(s),
            chunks_from(split_on(normalize(s), '\n'), 0)[j]->Code_0,
        ),
{
    let cs = chunks_from(split_on(normalize(s), '\n'), 0);
    let c = cs[j]->Code_0;
    let bs = rendered(cs);
    let k = lemma_rendered_keeps_code(cs, j);
    let kept = drop_preamble(bs);
    if bs.len() > 0 && spec_is_preamble(bs[0]) {
        assert(k != 0);
        assert(kept[k - 1] == bs[k]);
        lemma_join_contains(kept, seq!['\n', '\n'], k - 1);
    } else {
        lemma_join_contains(kept, seq!['\n', '\n'], k);
    }
}

proof fn lemma_normalize_concat(x: Seq<char>, y: Seq<char>)
    ensures
        normalize(x + y) == normalize(x) + normalize(y),
    decreases y.len(),
{
    if y.len() == 0 {
        assert(x + y =~= x);
        assert(normalize(x) + normalize(y) =~= normalize(x));
    } else {
        lemma_normalize_concat(x, y.drop_last());
        assert((x + y).drop_last() =~= x + y.drop_last());
        assert((x + y).last() == y.last());
        if !(y.last() == '\u{feff}' || y.last() == '\u{200b}') {
            assert(normalize(x) + normalize(y) =~= (normalize(x) + normalize(y.drop_last())).push(
                y.last(),
            ));
        }
    }
}

proof fn lemma_split_concat(x: Seq<char>, y: Seq<char>, sep: char)
    ensures
        split_on(x + seq![sep] + y, sep) == split_on(x, sep) + split_on(y, sep),
    decreases y.len(),
{
    let xs = x + seq![sep];
    if y.len() == 0 {
        assert(xs + y =~= xs);
        assert(xs.drop_last() =~= x);
        assert(split_on(x, sep) + split_on(y, sep) =~= split_on(x, sep).push(Seq::<char>::empty()));
    } else {
        let d = y.drop_last();
        lemma_split_concat(x, d, sep);
        crate::text::lemma_split_on_nonempty(d, sep);
        assert((xs + y).drop_last() =~= xs + d);
        assert((xs + y).last() == y.last());
        let a = split_on(x, sep);
        let b = split_on(d, sep);
        if y.last() == sep {
            assert((a + b).push(Seq::<char>::empty()) =~= a + b.push(Seq::<char>::empty()));
        } else {
            assert((a + b).update((a + b).len() - 1, (a + b).last().push(y.last())) =~= a
                + b.update(b.len() - 1, b.last().push(y.last())));
        }
    }
}

proof fn lemma_fence_close_shift(p: Seq<Seq<char>>, q: Seq<Seq<char>>, j: int)
    requires
        0 <= j <= q.len(),
    ensures
        fence_close(p + q, p.len() + j) == p.len() + fence_close(q, j),
    decreases q.len() - j,
{
    if j < q.len() {
        assert((p + q)[p.len() + j] == q[j]);
        lemma_fence_close_shift(p, q, j + 1);
    }
}

proof fn lemma_prose_stop_shift(p: Seq<Seq<char>>, q: Seq<Seq<char>>, j: int)
    requires
        0 <= j <= q.len(),
    ensures
        prose_stop(p + q, p.len() + j) == p.len() + prose_stop(q, j),
    decreases q.len() - j,
{
    if j < q.len() {
        assert((p + q)[p.len() + j] == q[j]);
        lemma_prose_stop_shift(p, q, j + 1);
    }
}

proof fn lemma_chunks_shift(p: Seq<Seq<char>>, q: Seq<Seq<char>>, j: int)
    requires
        0 <= j <= q.len(),
    ensures
        chunks_from(p + q, p.len() + j) == chunks_from(q, j),
    decreases q.len() - j,
{
    let l = p + q;
    let i = p.len() + j;
    if j < q.len() {
        assert(l[i] == q[j]);
        if is_fence_line(q[j]) {
            lemma_fence_close_shift(p, q, j + 1);
            crate::clean::lemma_fence_close_bounds(q, j + 1);
            let e = fence_close(q, j + 1);
            assert(l.subrange(i, p.len() + e) =~= q.subrange(j, e));
            lemma_chunks_shift(p, q, e);
        } else if is_blank(q[j]) {
            lemma_chunks_shift(p, q, j + 1);
        } else {
            lemma_prose_stop_shift(p, q, j);
            crate::clean::lemma_prose_stop_bounds(q, j + 1);
            let e = prose_stop(q, j);
            assert(l.subrange(i, p.len() + e) =~= q.subrange(j, e));
            lemma_chunks_shift(p, q, e);
        }
    }
}

proof fn lemma_prose_stop_prefix(l1: Seq<Seq<char>>, rest: Seq<Seq<char>>, j: int)
    requires
        0 <= j <= l1.len(),
        rest.len() > 0,
        is_blank(rest[0]),
    ensures
        prose_stop(l1 + rest, j) == prose_stop(l1, j),
    decreases l1.len() - j,
{
    let l = l1 + rest;
    if j == l1.len() {
        assert(l[j] == rest[0]);
    } else {
        assert(l[j] == l1[j]);
        lemma_prose_stop_prefix(l1, rest, j + 1);
    }
}

proof fn lemma_chunks_split(l1: Seq<Seq<char>>, blank: Seq<char>, l2: Seq<Seq<char>>, i: int)
    requires
        0 <= i <= l1.len(),
        is_blank(blank),
        forall|k: int| 0 <= k < l1.len() ==> !is_fence_line(#[trigger] l1[k]),
    ensures
        chunks_from(l1 + seq![blank] + l2, i) == chunks_from(l1, i) + chunks_from(l2, 0),
    decreases l1.len() - i,
{
    let l = l1 + seq![blank] + l2;
    if i == l1.len() {
        assert(l[i] == blank);
        lemma_trim_start_blank(blank);
        assert(!is_fence_line(blank));
        assert(l =~= (l1 + seq![blank]) + l2);
        lemma_chunks_shift(l1 + seq![blank], l2, 0);
        assert(chunks_from(l, i) == chunks_from(l, i + 1));
        assert(chunks_from(l1, i) + chunks_from(l2, 0) =~= chunks_from(l2, 0));
    } else {
        assert(l[i] == l1[i]);
        if is_blank(l1[i]) {
            lemma_chunks_split(l1, blank, l2, i + 1);
        } else {
            let rest = seq![blank] + l2;
            assert(l =~= l1 + rest);
            assert(rest[0] == blank);
            lemma_prose_stop_prefix(l1, rest, i);
            crate::clean::lemma_prose_stop_bounds(l1, i + 1);
            let e = prose_stop(l1, i);
            assert(l.subrange(i, e) =~= l1.subrange(i, e));
            lemma_chunks_split(l1, blank, l2, e);
            let head = seq![ChunkView::Prose(l1.subrange(i, e))];
            assert(chunks_from(l, i) == head + chunks_from(l, e));
            assert(chunks_from(l1, i) == head + chunks_from(l1, e));
            assert(head + (chunks_from(l1, e) + chunks_from(l2, 0)) =~= (head + chunks_from(
                l1,
                e,
            )) + chunks_from(l2, 0));
        }
    }
}

proof fn lemma_rendered_concat(c1: Seq<ChunkView>, c2: Seq<ChunkView>)
    ensures
        rendered(c1 + c2) == rendered(c1) + rendered(c2),
    decreases c2.len(),
{
    if c2.len() == 0 {
        assert(c1 + c2 =~= c1);
        assert(rendered(c1) + rendered(c2) =~= rendered(c1));
    } else {
        lemma_rendered_concat(c1, c2.drop_last());
        assert((c1 + c2).drop_last() =~= c1 + c2.drop_last());
        assert((c1 + c2).last() == c2.last());
        let r1 = rendered(c1);
        let r2 = rendered(c2.drop_last());
        match c2.last() {
            ChunkView::Code(x) => {
                assert((r1 + r2).push(x) =~= r1 + r2.push(x));
            },
            ChunkView::Prose(ls) => match crate::prose::spec_render_prose(ls) {
                Some(x) => {
                    assert((r1 + r2).push(x) =~= r1 + r2.push(x));
                },
                None => {},
            },
        }
    }
}

proof fn lemma_join_concat(xs: Seq<Seq<char>>, ys: Seq<Seq<char>>, sep: Seq<char>)
    requires
        xs.len() > 0,
        ys.len() > 0,
    ensures
        join(xs + ys, sep) == join(xs, sep) + sep + join(ys, sep),
    decreases ys.len(),
{
    let z = xs + ys;
    assert(z.drop_last() =~= xs + ys.drop_last());
    assert(z.last() == ys.last());
    if ys.len() == 1 {
        assert(xs + ys.drop_last() =~= xs);
        assert(join(ys, sep) == ys[0]);
    } else {
        lemma_join_concat(xs, ys.drop_last(), sep);
        assert(join(xs, sep) + sep + join(ys, sep) =~= join(xs, sep) + sep + join(
            ys.drop_last(),
            sep,
        ) + sep + ys.last());
    }
}

/// The rendered blocks of a text, before the preamble check and the re-join.
pub open spec fn clean_blocks(s: Seq<char>) -> Seq<Seq<char>> {
    rendered(chunks_from(split_on(normalize(s), '\n'), 0))
}

/// Blocks are cleaned one by one and re-joined with one blank line: for a text
/// `a` without code fences, joining it to `b` with a blank line and cleaning
/// gives `clean(a)`, a blank line, and `clean(b)`, provided neither cleans to
/// nothing and `b`'s first block is not taken for a preamble.
pub proof fn law_blank_line_joined_texts_clean_separately(a: Seq<char>, b: Seq<char>)
    requires
        forall|k: int|
            0 <= k < split_on(normalize(a), '\n').len() ==> !is_fence_line(
                #[trigger] split_on(normalize(a), '\n')[k],
            ),
        spec_clean(a).len() > 0,
        spec_clean(b).len() > 0,
        !spec_is_preamble(clean_blocks(b)[0]),
    ensures
        spec_clean(a + seq!['\n', '\n'] + b) == spec_clean(a) + seq!['\n', '\n'] + spec_clean(b),
{
    let nn = seq!['\n', '\n'];
    let x = normalize(a);
    let y = normalize(b);
    lemma_normalize_concat(a + nn, b);
    lemma_normalize_concat(a, nn);
    lemma_normalize_keeps(nn);
    let z = normalize(a + nn + b);
    assert(z == x + nn + y);
    assert(z =~= x + seq!['\n'] + (seq!['\n'] + y));
    lemma_split_concat(x, seq!['\n'] + y, '\n');
    assert(seq!['\n'] + y =~= Seq::<char>::empty() + seq!['\n'] + y);
    lemma_split_concat(Seq::<char>::empty(), y, '\n');
    let l1 = split_on(x, '\n');
    let l2 = split_on(y, '\n');
    assert(split_on(Seq::<char>::empty(), '\n') =~= seq![Seq::<char>::empty()]);
    let lines = split_on(z, '\n');
    assert(lines =~= l1 + seq![Seq::<char>::empty()] + l2);
    lemma_chunks_split(l1, Seq::<char>::empty(), l2, 0);
    let c1 = chunks_from(l1, 0);
    let c2 = chunks_from(l2, 0);
    lemma_rendered_concat(c1, c2);
    let r1 = rendered(c1);
    let r2 = rendered(c2);
    let d1 = drop_preamble(r1);
    assert(d1.len() > 0) by {
        if d1.len() == 0 {
            assert(join(d1, nn) =~= Seq::<char>::empty());
        }
    }
    assert(r2.len() > 0) by {
        if r2.len() == 0 {
            assert(drop_preamble(r2) =~= r2);
            assert(join(r2, nn) =~= Seq::<char>::empty());
        }
    }
    assert(drop_preamble(r2) == r2);
    assert(drop_preamble(r1 + r2) =~= d1 + r2);
    lemma_join_concat(d1, r2, nn);
}

// ---------------------------------------------------------------------------
// The terminal-output pre-gate.
// ---------------------------------------------------------------------------

/// Empty or whitespace-only text is never taken for terminal output.
pub proof fn law_blank_text_is_not_terminal(s: Seq<char>)
    requires
        is_blank(s),
    ensures
        !spec_looks_like_terminal_output(s),
{
    assert(!s.contains('\u{1b}')) by {
        if s.contains('\u{1b}') {
            let k = choose|k: int| 0 <= k < s.len() && s[k] == '\u{1b}';
            assert(is_white(s[k]));
        }
    }
    let lines = split_on(s, '\n');
    lemma_split_blank(s, '\n');
    assert forall|i: int| 0 <= i < lines.len() implies !#[trigger] terminal_signal(lines, i) by {
        lemma_trim_start_blank(lines[i]);
        assert(crate::text::compact(trim_start(lines[i])) =~= Seq::<char>::empty());
        if i + 1 < lines.len() {
            assert(is_blank(lines[i + 1]));
        }
    }
}

proof fn lemma_split_without_sep(s: Seq<char>, sep: char)
    requires
        !s.contains(sep),
    ensures
        split_on(s, sep) == seq![s],
    decreases s.len(),
{
    if s.len() > 0 {
        let d = s.drop_last();
        assert(!d.contains(sep)) by {
            if d.contains(sep) {
                let k = choose|k: int| 0 <= k < d.len() && d[k] == sep;
                assert(s[k] == sep);
            }
        }
        lemma_split_without_sep(d, sep);
        assert(s.last() != sep) by {
            if s.last() == sep {
                assert(s[s.len() - 1] == sep);
            }
        }
        assert(d.push(s.last()) =~= s);
        assert(split_on(s, sep) =~= seq![s]);
    } else {
        assert(s =~= Seq::<char>::empty());
        assert(split_on(s, sep) =~= seq![s]);
    }
}

/// Ordinary single-line text is not terminal output: without an escape
/// character, a response glyph at its start, or a box-drawing rule, one line
/// is never flagged.
pub proof fn law_single_plain_line_is_not_terminal(s: Seq<char>)
    requires
        !s.contains('\n'),
        !s.contains('\u{1b}'),
        trim_start(s).len() == 0 || !is_gutter_glyph(trim_start(s)[0]),
        !spec_is_box_rule(trim_start(s)),
    ensures
        !spec_looks_like_terminal_output(s),
{
    lemma_split_without_sep(s, '\n');
    let lines = split_on(s, '\n');
    assert forall|i: int| 0 <= i < lines.len() implies !#[trigger] terminal_signal(lines, i) by {
        assert(i == 0);
        assert(lines[0] == s);
    }
}

/// Joining texts keeps terminal signals: when either text looks like terminal
/// output, so does the two joined by a newline.
pub proof fn law_terminal_output_survives_joining(a: Seq<char>, b: Seq<char>)
    requires
        spec_looks_like_terminal_output(a) || spec_looks_like_terminal_output(b),
    ensures
        spec_looks_like_terminal_output(a + seq!['\n'] + b),
{
    let s = a + seq!['\n'] + b;
    let la = split_on(a, '\n');
    let lb = split_on(b, '\n');
    lemma_split_concat(a, b, '\n');
    let l = split_on(s, '\n');
    assert(l == la + lb);
    if a.contains('\u{1b}') {
        let k = choose|k: int| 0 <= k < a.len() && a[k] == '\u{1b}';
        assert(s[k] == '\u{1b}');
    } else if b.contains('\u{1b}') {
        let k = choose|k: int| 0 <= k < b.len() && b[k] == '\u{1b}';
        assert(s[a.len() + 1 + k] == '\u{1b}');
    } else if exists|i: int| 0 <= i < la.len() && #[trigger] terminal_signal(la, i) {
        let i = choose|i: int| 0 <= i < la.len() && #[trigger] terminal_signal(la, i);
        assert(l[i] == la[i]);
        if i + 1 < la.len() {
            assert(l[i + 1] == la[i + 1]);
        }
        assert(terminal_signal(l, i));
    } else {
        let i = choose|i: int| 0 <= i < lb.len() && #[trigger] terminal_signal(lb, i);
        let m = la.len() + i;
        assert(l[m] == lb[i]);
        if i + 1 < lb.len() {
            assert(l[m + 1] == lb[i + 1]);
        }
        assert(terminal_signal(l, m));
    }
}

/// An ANSI escape character anywhere makes the text terminal output.
pub proof fn law_escape_is_terminal(s: Seq<char>)
    requires
        s.contains('\u{1b}'),
    ensures
        spec_looks_like_terminal_output(s),
{
}

// ---------------------------------------------------------------------------
// The clipboard watcher.
// ---------------------------------------------------------------------------

/// Bytes that are not valid UTF-8 are skipped, whatever was seen before.
pub proof fn law_non_utf8_is_skipped(last_seen: Seq<char>, raw: Seq<u8>)
    requires
        !valid_utf8(raw),
    ensures
        spec_clipboard_action(last_seen, raw) == ActionView::Skip,
{
}

/// Text that cleaning leaves unchanged is never rewritten.
pub proof fn law_clean_text_is_not_rewritten(last_seen: Seq<char>, raw: Seq<u8>)
    requires
        valid_utf8(raw),
        spec_clean(decode_utf8(raw)) == decode_utf8(raw),
    ensures
        !(spec_clipboard_action(last_seen, raw) is Replace),
{
}

/// No rewrite loop: once a cleaned value has been written back and recorded as
/// last seen, reading that same value again is skipped.
pub proof fn law_written_value_is_skipped_next(last_seen: Seq<char>, raw: Seq<u8>)
    requires
        spec_clipboard_action(last_seen, raw) is Replace,
    ensures
        spec_clipboard_action(
            spec_clipboard_action(last_seen, raw)->Replace_0,
            encode_utf8(spec_clipboard_action(last_seen, raw)->Replace_0),
        ) == ActionView::Skip,
{
    let c = spec_clipboard_action(last_seen, raw)->Replace_0;
    encode_utf8_valid_utf8(c);
    encode_utf8_decode_utf8(c);
}

/// Starting to watch never reads the clipboard: the first count only sets the
/// baseline.
pub proof fn law_first_count_never_reads(current: Option<isize>)
    ensures
        !observed(None, current).1,
{
}

/// Each change is consumed once: observing the same count again asks for no
/// second read, whatever happened to the first.
pub proof fn law_change_is_read_at_most_once(last_count: Option<isize>, c: isize)
    ensures
        !observed(observed(last_count, Some(c)).0, Some(c)).1,
{
}

/// An unreadable change count keeps the baseline and asks for no read.
pub proof fn law_unreadable_count_keeps_baseline(last_count: Option<isize>)
    ensures
        observed(last_count, None) == (last_count, false),
{
}

/// A change count recorded after the watcher's own write is not taken for a
/// new copy.
pub proof fn law_own_write_is_not_a_new_copy(count_after_write: isize)
    ensures
        observed(Some(count_after_write), Some(count_after_write)) == (
            Some(count_after_write),
            false,
        ),
{
}

/// The latest readable change count in a run of events (from polls and from
/// the re-reads after the watcher's own writes), or `start` when there is none.
pub open spec fn latest_count(start: Option<isize>, evs: Seq<WatchEvent>) -> Option<isize>
    decreases evs.len(),
{
    if evs.len() == 0 {
        start
    } else {
        match evs.last() {
            WatchEvent::Poll(Some(n)) => Some(n),
            WatchEvent::Written(_, Some(n)) => Some(n),
            _ => latest_count(start, evs.drop_last()),
        }
    }
}

/// Across any run, the count the watcher compares against is the latest
/// readable count it has seen.
pub proof fn law_tracked_count_is_latest_readable(st: WatchView, evs: Seq<WatchEvent>)
    ensures
        watch_run(st, evs).count == latest_count(st.count, evs),
    decreases evs.len(),
{
    if evs.len() > 0 {
        law_tracked_count_is_latest_readable(st, evs.drop_last());
        let prev = watch_run(st, evs.drop_last());
        match evs.last() {
            WatchEvent::Read(raw) => {
                assert(watch_step(prev, evs.last()).count == prev.count);
            },
            _ => {},
        }
    }
}

/// Change-gated polling over a run: after any run of events, a poll asks for a
/// read exactly when it reads a count that differs from the latest readable
/// count before it; so never before a first readable count, never while the
/// count is unchanged or unreadable.
pub proof fn law_poll_reads_only_on_a_new_count(
    st: WatchView,
    evs: Seq<WatchEvent>,
    current: Option<isize>,
)
    ensures
        observed(watch_run(st, evs).count, current).1 == (current is Some && latest_count(
            st.count,
            evs,
        ) is Some && latest_count(st.count, evs)->0 != current->0),
{
    law_tracked_count_is_latest_readable(st, evs);
}

/// Each change is read at most once over a run: once a poll has seen count
/// `n`, a later poll that sees `n` again (with only reads and unreadable polls
/// between) asks for no read.
pub proof fn law_change_read_once_in_a_run(
    st: WatchView,
    evs: Seq<WatchEvent>,
    n: isize,
    between: Seq<WatchEvent>,
)
    requires
        forall|k: int|
            0 <= k < between.len() ==> (#[trigger] between[k] is Read || between[k]
                == WatchEvent::Poll(None)),
    ensures
        !observed(watch_run(st, evs.push(WatchEvent::Poll(Some(n))) + between).count, Some(n)).1,
{
    let run = evs.push(WatchEvent::Poll(Some(n))) + between;
    law_tracked_count_is_latest_readable(st, run);
    lemma_latest_count_skips(st.count, evs.push(WatchEvent::Poll(Some(n))), between);
}

proof fn lemma_latest_count_skips(start: Option<isize>, pre: Seq<WatchEvent>, between: Seq<WatchEvent>)
    requires
        forall|k: int|
            0 <= k < between.len() ==> (#[trigger] between[k] is Read || between[k]
                == WatchEvent::Poll(None)),
    ensures
        latest_count(start, pre + between) == latest_count(start, pre),
    decreases between.len(),
{
    if between.len() == 0 {
        assert(pre + between =~= pre);
    } else {
        let b = between.drop_last();
        assert((pre + between).drop_last() =~= pre + b);
        assert((pre + between).last() == between[between.len() - 1]);
        lemma_latest_count_skips(start, pre, b);
    }
}

/// No rewrite loop over a run: when a read calls for writing `c` back and the
/// write succeeds, the count re-read after it is the new baseline (a poll that
/// sees it reads nothing) and reading `c` itself afterwards is skipped.
pub proof fn law_run_never_rewrites_its_own_write(
    st: WatchView,
    evs: Seq<WatchEvent>,
    raw: Seq<u8>,
    after: isize,
)
    requires
        spec_clipboard_action(watch_run(st, evs).seen, raw) is Replace,
    ensures
        ({
            let c = spec_clipboard_action(watch_run(st, evs).seen, raw)->Replace_0;
            let run = evs.push(WatchEvent::Read(raw)).push(WatchEvent::Written(c, Some(after)));
            &&& !observed(watch_run(st, run).count, Some(after)).1
            &&& spec_clipboard_action(watch_run(st, run).seen, encode_utf8(c)) == ActionView::Skip
        }),
{
    let c = spec_clipboard_action(watch_run(st, evs).seen, raw)->Replace_0;
    let run = evs.push(WatchEvent::Read(raw)).push(WatchEvent::Written(c, Some(after)));
    assert(run.drop_last() =~= evs.push(WatchEvent::Read(raw)));
    assert(evs.push(WatchEvent::Read(raw)).drop_last() =~= evs);
    encode_utf8_valid_utf8(c);
    encode_utf8_decode_utf8(c);
}

// ---------------------------------------------------------------------------
// What each decision is for, stated over all inputs.
// ---------------------------------------------------------------------------

/// The watcher replaces every changed, dirty value: for valid UTF-8 text that
/// differs from the last value seen and that cleaning changes, the action is to
/// write back the cleaned text, whatever the last value seen was.
pub proof fn law_dirty_new_text_is_always_replaced(last_seen: Seq<char>, raw: Seq<u8>)
    requires
        valid_utf8(raw),
        decode_utf8(raw) != last_seen,
        spec_clean(decode_utf8(raw)) != decode_utf8(raw),
    ensures
        spec_clipboard_action(last_seen, raw) == ActionView::Replace(spec_clean(decode_utf8(raw))),
{
}

/// The watcher skips only what it must: a skip happens only for bytes that are
/// not UTF-8 or for text equal to the last value seen; anything else is either
/// replaced by its cleaned form or adopted as it is.
pub proof fn law_skip_only_for_non_text_or_unchanged(last_seen: Seq<char>, raw: Seq<u8>)
    ensures
        spec_clipboard_action(last_seen, raw) is Skip ==> !valid_utf8(raw) || decode_utf8(raw)
            == last_seen,
        spec_clipboard_action(last_seen, raw) matches ActionView::Adopt(t) ==> valid_utf8(raw)
            && t == decode_utf8(raw) && spec_clean(t) == t && t != last_seen,
        spec_clipboard_action(last_seen, raw) matches ActionView::Replace(c) ==> valid_utf8(raw)
            && c == spec_clean(decode_utf8(raw)) && c != decode_utf8(raw),
{
}

/// Any line whose text, after leading whitespace, starts with one of the
/// terminal response glyphs (U+23FA, U+23BF, U+276F, U+2022, U+2502) makes the
/// whole text terminal output.
pub proof fn law_response_glyph_line_is_terminal(s: Seq<char>, i: int)
    requires
        0 <= i < split_on(s, '\n').len(),
        trim_start(split_on(s, '\n')[i]).len() > 0,
        ({
            let g = trim_start(split_on(s, '\n')[i])[0];
            g == '\u{23fa}' || g == '\u{23bf}' || g == '\u{276f}' || g == '\u{2022}' || g
                == '\u{2502}'
        }),
    ensures
        spec_looks_like_terminal_output(s),
{
    assert(terminal_signal(split_on(s, '\n'), i));
}

/// Each of the eleven allowlisted framing phrases, wherever it occurs in the
/// lowercased text, counts as a framing marker; and nothing else does.
pub proof fn law_framing_markers_are_the_allowlist(s: Seq<char>)
    ensures
        has_framing_marker(s) <==> (contains_seq(s, "longer version"@) || contains_seq(
            s,
            "shorter version"@,
        ) || contains_seq(s, "revised version"@) || contains_seq(s, "updated version"@)
            || contains_seq(s, "cleaned up version"@) || contains_seq(s, "cleaned-up version"@)
            || contains_seq(s, "here's a draft"@) || contains_seq(s, "here's the rewrite"@)
            || contains_seq(s, "here you go"@) || contains_seq(s, "sure, here's"@) || contains_seq(
            s,
            "sure! here's"@,
        )),
{
}

/// Lowercased text that opens with `here's`, `here is`, `sure` or `here you go`
/// and holds any allowlisted phrase is framing, and a single-line first block
/// whose trimmed, lowercased text is framing is dropped from the output blocks.
pub proof fn law_framing_first_line_is_dropped(blocks: Seq<Seq<char>>, phrase: Seq<char>)
    requires
        blocks.len() > 0,
        !blocks[0].contains('\n'),
        ({
            let l = lowercased(trim(blocks[0]));
            (starts_with(l, "here's"@) || starts_with(l, "here is"@) || starts_with(l, "sure"@)
                || starts_with(l, "here you go"@)) && contains_seq(l, phrase)
        }),
        phrase == "longer version"@ || phrase == "shorter version"@ || phrase
            == "revised version"@ || phrase == "updated version"@ || phrase
            == "cleaned up version"@ || phrase == "cleaned-up version"@ || phrase
            == "here's a draft"@ || phrase == "here's the rewrite"@ || phrase == "here you go"@
            || phrase == "sure, here's"@ || phrase == "sure! here's"@,
    ensures
        is_framing(lowercased(trim(blocks[0]))),
        spec_is_preamble(blocks[0]),
        drop_preamble(blocks) == blocks.drop_first(),
{
}

/// A bullet line (`- `, `* ` or `+ ` followed by text) that is not a rule is a
/// list item.
pub proof fn law_bullet_lines_are_list_items(t: Seq<char>)
    requires
        t.len() >= 2,
        t[0] == '-' || t[0] == '*' || t[0] == '+',
        t[1] == ' ',
    ensures
        spec_is_list_item(t),
{
}

/// A bullet line never joins the line before it: it closes the open logical
/// line and opens a new one of its own, so two bullet lines in a row stay two
/// logical lines.
pub proof fn law_bullet_line_starts_a_new_logical_line(st: ReflowState, t: Seq<char>)
    requires
        t.len() >= 2,
        t[0] == '-' || t[0] == '*' || t[0] == '+',
        t[1] == ' ',
        !spec_is_hr(t),
    ensures
        reflow_step(st, t) == (ReflowState { done: flushed(st), open: Some(t) }),
{
    assert(!spec_is_box_rule(t)) by {
        if spec_is_box_rule(t) {
            assert(crate::text::compact(t).len() >= 3);
            lemma_compact_first(t);
        }
    }
}

proof fn lemma_compact_first(t: Seq<char>)
    requires
        t.len() > 0,
        !is_white(t[0]),
    ensures
        crate::text::compact(t).len() > 0,
        crate::text::compact(t)[0] == t[0],
    decreases t.len(),
{
    if t.len() == 1 {
        assert(t.drop_last() =~= Seq::<char>::empty());
        assert(crate::text::compact(t.drop_last()) =~= Seq::<char>::empty());
    } else {
        assert(t.drop_last()[0] == t[0]);
        lemma_compact_first(t.drop_last());
    }
}

/// Two bullet lines in a row reflow into two logical lines, each kept as it is.
pub proof fn law_two_bullet_lines_stay_apart(l1: Seq<char>, l2: Seq<char>)
    requires
        prose_text(l1).len() >= 2,
        prose_text(l1)[0] == '-' || prose_text(l1)[0] == '*' || prose_text(l1)[0] == '+',
        prose_text(l1)[1] == ' ',
        !spec_is_hr(prose_text(l1)),
        prose_text(l2).len() >= 2,
        prose_text(l2)[0] == '-' || prose_text(l2)[0] == '*' || prose_text(l2)[0] == '+',
        prose_text(l2)[1] == ' ',
        !spec_is_hr(prose_text(l2)),
    ensures
        spec_reflow(seq![l1, l2]) == seq![prose_text(l1), prose_text(l2)],
{
    let lines = seq![l1, l2];
    let empty = ReflowState { done: Seq::empty(), open: None };
    assert(lines.drop_last() =~= seq![l1]);
    assert(seq![l1].drop_last() =~= Seq::<Seq<char>>::empty());
    law_bullet_line_starts_a_new_logical_line(empty, prose_text(l1));
    let s1 = reflow_step(empty, prose_text(l1));
    assert(seq![l1].last() == l1);
    assert(reflow_fold(Seq::<Seq<char>>::empty()) == empty);
    assert(reflow_fold(seq![l1]) == s1);
    law_bullet_line_starts_a_new_logical_line(s1, prose_text(l2));
    assert(lines.last() == l2);
    assert(reflow_fold(lines) == reflow_step(s1, prose_text(l2)));
    assert(spec_reflow(lines) =~= seq![prose_text(l1), prose_text(l2)]);
}

/// Emphasis is stripped from every logical line of a rendered prose block,
/// table rows included: the block is the emphasis-stripped logical lines,
/// in order, one per line.
pub proof fn law_every_logical_line_is_emphasis_stripped(lines: Seq<Seq<char>>)
    ensures
        ({
            let logical = spec_reflow(lines.map_values(|l: Seq<char>| spec_strip_ansi(l)));
            &&& logical.len() == 0 ==> spec_render_prose(lines) is None
            &&& logical.len() > 0 ==> spec_render_prose(lines) == Some(
                join(
                    Seq::new(logical.len(), |k: int| spec_strip_emphasis(logical[k])),
                    seq!['\n'],
                ),
            )
        }),
{
    let logical = spec_reflow(lines.map_values(|l: Seq<char>| spec_strip_ansi(l)));
    assert(logical.map_values(|l: Seq<char>| spec_strip_emphasis(l)) =~= Seq::new(
        logical.len(),
        |k: int| spec_strip_emphasis(logical[k]),
    ));
}

/// A table row of a prose block has its emphasis stripped like any other line:
/// a block holding one data row renders to that row, emphasis stripped.
pub proof fn law_table_row_emphasis_is_stripped(l: Seq<char>)
    requires
        spec_is_table_row(prose_text(spec_strip_ansi(l))),
        !spec_is_table_delimiter(prose_text(spec_strip_ansi(l))),
        !spec_is_hr(prose_text(spec_strip_ansi(l))),
        !spec_is_box_rule(prose_text(spec_strip_ansi(l))),
        !spec_is_setext_underline(prose_text(spec_strip_ansi(l))),
    ensures
        spec_render_prose(seq![l]) == Some(spec_strip_emphasis(prose_text(spec_strip_ansi(l)))),
{
    let t = prose_text(spec_strip_ansi(l));
    let d = seq![l].map_values(|x: Seq<char>| spec_strip_ansi(x));
    assert(d =~= seq![spec_strip_ansi(l)]);
    assert(d.drop_last() =~= Seq::<Seq<char>>::empty());
    let logical = spec_reflow(d);
    let empty = ReflowState { done: Seq::empty(), open: None };
    assert(d.last() == spec_strip_ansi(l));
    assert(reflow_fold(Seq::<Seq<char>>::empty()) == empty);
    assert(reflow_fold(d) == reflow_step(empty, t));
    assert(flushed(empty) =~= Seq::<Seq<char>>::empty());
    assert(reflow_step(empty, t).done =~= seq![t]);
    assert(logical =~= seq![t]);
    assert(logical.map_values(|x: Seq<char>| spec_strip_emphasis(x)) =~= seq![
        spec_strip_emphasis(t),
    ]);
}

} // verus!
