//! The cleaner: split pasted text into fenced code and prose blocks, render
//! each prose block, drop a leading framing preamble, and re-join the blocks
//! with one blank line.

use vstd::prelude::*;
use crate::outside::{all_ascii, ascii_lowered, lowercased, str_to_lowercase, string_from_chars};
use crate::text::{chars_of, contains_seq, contains_str, is_blank, join, join_chars};
use crate::text::{lines_view, slice_copy, split_chars, split_on, trim, trim_chars, trim_start};
use crate::text::{all_white, skip_white, starts_with, starts_with_str, trim_index, lemma_trim_within};
use crate::prose::{render_prose_block, spec_render_prose};

verus! {

/// The text with every U+FEFF (byte-order mark) and U+200B (zero-width space) removed.
pub open spec fn normalize(s: Seq<char>) -> Seq<char>
    decreases s.len(),
{
    if s.len() == 0 {
        s
    } else if s.last() == '\u{feff}' || s.last() == '\u{200b}' {
        normalize(s.drop_last())
    } else {
        normalize(s.drop_last()).push(s.last())
    }
}

/// A code fence line: after leading whitespace, it starts with three backticks
/// or three tildes.
pub open spec fn is_fence_line(line: Seq<char>) -> bool {
    let ts = trim_start(line);
    ts.len() >= 3 && ((ts[0] == '`' && ts[1] == '`' && ts[2] == '`') || (ts[0] == '~' && ts[1]
        == '~' && ts[2] == '~'))
}

/// Index just past the first fence line at or after `j`, or the number of
/// lines when there is none.
pub open spec fn fence_close(lines: Seq<Seq<char>>, j: int) -> int
    decreases lines.len() - j,
{
    if j < 0 || j >= lines.len() {
        lines.len() as int
    } else if is_fence_line(lines[j]) {
        j + 1
    } else {
        fence_close(lines, j + 1)
    }
}

/// Index of the first blank or fence line at or after `j`, or the number of
/// lines when there is none.
pub open spec fn prose_stop(lines: Seq<Seq<char>>, j: int) -> int
    decreases lines.len() - j,
{
    if j < 0 || j >= lines.len() {
        lines.len() as int
    } else if is_blank(lines[j]) || is_fence_line(lines[j]) {
        j
    } else {
        prose_stop(lines, j + 1)
    }
}

pub proof fn lemma_fence_close_bounds(lines: Seq<Seq<char>>, j: int)
    requires
        0 <= j <= lines.len(),
    ensures
        j <= fence_close(lines, j) <= lines.len(),
    decreases lines.len() - j,
{
    if j < lines.len() && !is_fence_line(lines[j]) {
        lemma_fence_close_bounds(lines, j + 1);
    }
}

pub proof fn lemma_prose_stop_bounds(lines: Seq<Seq<char>>, j: int)
    requires
        0 <= j <= lines.len(),
    ensures
        j <= prose_stop(lines, j) <= lines.len(),
    decreases lines.len() - j,
{
    if j < lines.len() && !(is_blank(lines[j]) || is_fence_line(lines[j])) {
        lemma_prose_stop_bounds(lines, j + 1);
    }
}

/// A block of the pasted text before rendering.
pub enum ChunkView {
    /// Fenced code: the lines from the opening fence through the closing one,
    /// joined with newlines.
    Code(Seq<char>),
    /// A run of consecutive non-blank, non-fence lines.
    Prose(Seq<Seq<char>>),
}

/// The blocks of `lines` from line `i` on: fenced code verbatim (through its
/// closing fence, or to the end), blank lines skipped, other runs of lines as
/// prose.
pub open spec fn chunks_from(lines: Seq<Seq<char>>, i: int) -> Seq<ChunkView>
    decreases lines.len() - i,
{
    if i < 0 || i >= lines.len() {
        Seq::empty()
    } else if is_fence_line(lines[i]) {
        let e = fence_close(lines, i + 1);
        proof {
            lemma_fence_close_bounds(lines, i + 1);
        }
        seq![ChunkView::Code(join(lines.subrange(i, e), seq!['\n']))] + chunks_from(lines, e)
    } else if is_blank(lines[i]) {
        chunks_from(lines, i + 1)
    } else {
        let e = prose_stop(lines, i);
        proof {
            lemma_prose_stop_bounds(lines, i + 1);
        }
        seq![ChunkView::Prose(lines.subrange(i, e))] + chunks_from(lines, e)
    }
}

/// A block of the pasted text before rendering.
pub enum Chunk {
    Code(Vec<char>),
    Prose(Vec<Vec<char>>),
}

impl View for Chunk {
    type V = ChunkView;

    open spec fn view(&self) -> ChunkView {
        match self {
            Chunk::Code(c) => ChunkView::Code(c@),
            Chunk::Prose(ls) => ChunkView::Prose(lines_view(ls@)),
        }
    }
}

pub open spec fn chunks_view(cs: Seq<Chunk>) -> Seq<ChunkView> {
    cs.map_values(|c: Chunk| c@)
}

/// Whether a line opens or closes a code fence.
fn is_fence(line: &[char]) -> (b: bool)
    ensures
        b == is_fence_line(line@),
{
    assert(line@.skip(0) == line@);
    let a = skip_white(line, 0);
    let ghost ts = trim_start(line@);
    assert(ts =~= line@.skip(a as int));
    if line.len() - a < 3 {
        return false;
    }
    (line[a] == '`' && line[a + 1] == '`' && line[a + 2] == '`') || (line[a] == '~' && line[a
        + 1] == '~' && line[a + 2] == '~')
}

/// `fence_close` computed.
fn find_fence_close(lines: &Vec<Vec<char>>, j: usize) -> (e: usize)
    requires
        j <= lines@.len(),
    ensures
        e == fence_close(lines_view(lines@), j as int),
{
    let ghost lv = lines_view(lines@);
    let mut k = j;
    while k < lines.len() && !is_fence(lines[k].as_slice())
        invariant
            j <= k <= lines@.len(),
            lv == lines_view(lines@),
            fence_close(lv, j as int) == fence_close(lv, k as int),
        decreases lines@.len() - k,
    {
        assert(lv[k as int] == lines@[k as int]@);
        k += 1;
    }
    if k < lines.len() {
        assert(lv[k as int] == lines@[k as int]@);
        k + 1
    } else {
        k
    }
}

/// `prose_stop` computed.
fn find_prose_stop(lines: &Vec<Vec<char>>, j: usize) -> (e: usize)
    requires
        j <= lines@.len(),
    ensures
        e == prose_stop(lines_view(lines@), j as int),
{
    let ghost lv = lines_view(lines@);
    let mut k = j;
    while k < lines.len() && !all_white(lines[k].as_slice()) && !is_fence(lines[k].as_slice())
        invariant
            j <= k <= lines@.len(),
            lv == lines_view(lines@),
            prose_stop(lv, j as int) == prose_stop(lv, k as int),
        decreases lines@.len() - k,
    {
        assert(lv[k as int] == lines@[k as int]@);
        k += 1;
    }
    if k < lines.len() {
        assert(lv[k as int] == lines@[k as int]@);
    }
    k
}

/// Copies of `lines[from..to]`.
fn lines_copy(lines: &Vec<Vec<char>>, from: usize, to: usize) -> (out: Vec<Vec<char>>)
    requires
        from <= to <= lines@.len(),
    ensures
        lines_view(out@) == lines_view(lines@).subrange(from as int, to as int),
{
    let mut out: Vec<Vec<char>> = Vec::new();
    let mut k = from;
    while k < to
        invariant
            from <= k <= to <= lines@.len(),
            out@.len() == k - from,
            forall|m: int| 0 <= m < k - from ==> #[trigger] out@[m]@ == lines@[from + m]@,
        decreases to - k,
    {
        let l = slice_copy(lines[k].as_slice(), 0, lines[k].len());
        assert(l@ =~= lines@[k as int]@);
        out.push(l);
        k += 1;
    }
    assert(lines_view(out@) =~= lines_view(lines@).subrange(from as int, to as int));
    out
}

/// Split the lines of the pasted text into fenced code blocks (kept verbatim,
/// fence lines included) and prose blocks (runs of non-blank, non-fence
/// lines); blank lines separate blocks and are dropped.
pub fn split_chunks(lines: &Vec<Vec<char>>) -> (chunks: Vec<Chunk>)
    ensures
        chunks_view(chunks@) == chunks_from(lines_view(lines@), 0),
{
    let ghost lv = lines_view(lines@);
    let mut out: Vec<Chunk> = Vec::new();
    let mut i: usize = 0;
    assert(chunks_view(out@) + chunks_from(lv, 0) =~= chunks_from(lv, 0));
    while i < lines.len()
        invariant
            i <= lines@.len(),
            lv == lines_view(lines@),
            chunks_view(out@) + chunks_from(lv, i as int) == chunks_from(lv, 0),
        decreases lines@.len() - i,
    {
        assert(lv[i as int] == lines@[i as int]@);
        let ghost before = chunks_view(out@);
        if is_fence(lines[i].as_slice()) {
            let e = find_fence_close(lines, i + 1);
            proof {
                lemma_fence_close_bounds(lv, i + 1);
            }
            let code_lines = lines_copy(lines, i, e);
            let nl = vec!['\n'];
            assert(nl@ =~= seq!['\n']);
            let code = join_chars(&code_lines, nl.as_slice());
            out.push(Chunk::Code(code));
            assert(chunks_view(out@) =~= before.push(ChunkView::Code(code@)));
            assert(chunks_from(lv, i as int) =~= seq![ChunkView::Code(code@)] + chunks_from(
                lv,
                e as int,
            ));
            assert(chunks_view(out@) + chunks_from(lv, e as int) =~= before + chunks_from(
                lv,
                i as int,
            ));
            i = e;
        } else if all_white(lines[i].as_slice()) {
            i += 1;
        } else {
            let e = find_prose_stop(lines, i);
            proof {
                lemma_prose_stop_bounds(lv, i + 1);
            }
            let para = lines_copy(lines, i, e);
            let ghost pv = lines_view(para@);
            out.push(Chunk::Prose(para));
            assert(chunks_view(out@) =~= before.push(ChunkView::Prose(pv)));
            assert(chunks_from(lv, i as int) =~= seq![ChunkView::Prose(pv)] + chunks_from(
                lv,
                e as int,
            ));
            assert(chunks_view(out@) + chunks_from(lv, e as int) =~= before + chunks_from(
                lv,
                i as int,
            ));
            i = e;
        }
    }
    assert(chunks_from(lv, i as int) =~= Seq::<ChunkView>::empty());
    assert(chunks_view(out@) =~= chunks_from(lv, 0));
    out
}

/// The blocks after rendering: code kept, prose rendered, prose that held only
/// chrome dropped.
pub open spec fn rendered(cs: Seq<ChunkView>) -> Seq<Seq<char>>
    decreases cs.len(),
{
    if cs.len() == 0 {
        Seq::empty()
    } else {
        let r = rendered(cs.drop_last());
        match cs.last() {
            ChunkView::Code(c) => r.push(c),
            ChunkView::Prose(ls) => match spec_render_prose(ls) {
                Some(x) => r.push(x),
                None => r,
            },
        }
    }
}

/// The text (already lowercased) contains one of the framing openers on the
/// allowlist.
pub open spec fn has_framing_marker(s: Seq<char>) -> bool {
    ||| contains_seq(s, "longer version"@)
    ||| contains_seq(s, "shorter version"@)
    ||| contains_seq(s, "revised version"@)
    ||| contains_seq(s, "updated version"@)
    ||| contains_seq(s, "cleaned up version"@)
    ||| contains_seq(s, "cleaned-up version"@)
    ||| contains_seq(s, "here's a draft"@)
    ||| contains_seq(s, "here's the rewrite"@)
    ||| contains_seq(s, "here you go"@)
    ||| contains_seq(s, "sure, here's"@)
    ||| contains_seq(s, "sure! here's"@)
}

/// The text (already lowercased) starts with a framing opener: `here's`,
/// `here is`, `sure` or `here you go`.
pub open spec fn starts_with_opener(s: Seq<char>) -> bool {
    ||| starts_with(s, "here's"@)
    ||| starts_with(s, "here is"@)
    ||| starts_with(s, "sure"@)
    ||| starts_with(s, "here you go"@)
}

/// Lowercased text that is framing: it opens with a framing opener and holds an
/// allowlisted framing phrase.
pub open spec fn is_framing(lowered: Seq<char>) -> bool {
    starts_with_opener(lowered) && has_framing_marker(lowered)
}

/// A single-line block whose trimmed, lowercased text starts with a framing
/// opener and holds an allowlisted framing phrase. Anything else is kept.
pub open spec fn spec_is_preamble(block: Seq<char>) -> bool {
    !block.contains('\n') && is_framing(lowercased(trim(block)))
}

/// The blocks with a leading framing preamble removed.
pub open spec fn drop_preamble(blocks: Seq<Seq<char>>) -> Seq<Seq<char>> {
    if blocks.len() > 0 && spec_is_preamble(blocks[0]) {
        blocks.drop_first()
    } else {
        blocks
    }
}

/// What `clean` returns for the characters of its input.
pub open spec fn spec_clean(input: Seq<char>) -> Seq<char> {
    let lines = split_on(normalize(input), '\n');
    join(drop_preamble(rendered(chunks_from(lines, 0))), seq!['\n', '\n'])
}

/// Whether already-lowercased text holds an allowlisted framing opener.
pub fn has_framing_marker_chars(lowered: &[char]) -> (b: bool)
    ensures
        b == has_framing_marker(lowered@),
{
    contains_str(lowered, "longer version") || contains_str(lowered, "shorter version")
        || contains_str(lowered, "revised version") || contains_str(lowered, "updated version")
        || contains_str(lowered, "cleaned up version") || contains_str(
        lowered,
        "cleaned-up version",
    ) || contains_str(lowered, "here's a draft") || contains_str(lowered, "here's the rewrite")
        || contains_str(lowered, "here you go") || contains_str(lowered, "sure, here's")
        || contains_str(lowered, "sure! here's")
}

/// Whether already-lowercased text starts with a framing opener.
pub fn starts_with_opener_chars(lowered: &[char]) -> (b: bool)
    ensures
        b == starts_with_opener(lowered@),
{
    starts_with_str(lowered, "here's") || starts_with_str(lowered, "here is") || starts_with_str(
        lowered,
        "sure",
    ) || starts_with_str(lowered, "here you go")
}

/// Whether already-lowercased text is framing: an opener at its start and an
/// allowlisted framing phrase in it.
pub fn is_framing_chars(lowered: &[char]) -> (b: bool)
    ensures
        b == is_framing(lowered@),
{
    starts_with_opener_chars(lowered) && has_framing_marker_chars(lowered)
}

/// Leading framing preamble detector. Narrow allowlist anchored at the start,
/// fails open: a block of more than one line, or one that does not open with
/// a framing opener, is never a preamble.
pub fn is_preamble(block: &[char]) -> (b: bool)
    ensures
        b == spec_is_preamble(block@),
        all_ascii(block@) ==> b == (!block@.contains('\n') && is_framing(
            ascii_lowered(trim(block@)),
        )),
{
    let mut i: usize = 0;
    while i < block.len()
        invariant
            i <= block@.len(),
            forall|k: int| 0 <= k < i ==> #[trigger] block@[k] != '\n',
        decreases block@.len() - i,
    {
        if block[i] == '\n' {
            assert(block@.contains('\n')) by {
                assert(block@[i as int] == '\n');
            }
            return false;
        }
        i += 1;
    }
    let trimmed = trim_chars(block);
    proof {
        if all_ascii(block@) {
            lemma_trim_within(block@);
            assert forall|k: int| 0 <= k < trimmed@.len() implies #[trigger] trimmed@[k]
                <= '\u{7f}' by {
                let j = trim_index(block@, k);
                assert(block@[j] <= '\u{7f}');
            }
        }
    }
    let s = string_from_chars(trimmed.as_slice());
    let lowered = str_to_lowercase(s.as_str());
    let lc = chars_of(lowered.as_str());
    is_framing_chars(lc.as_slice())
}

/// The characters with every U+FEFF and U+200B removed.
fn normalize_chars(s: &[char]) -> (r: Vec<char>)
    ensures
        r@ == normalize(s@),
{
    let mut r: Vec<char> = Vec::new();
    let mut i: usize = 0;
    assert(s@.take(0) =~= Seq::<char>::empty());
    while i < s.len()
        invariant
            i <= s@.len(),
            r@ == normalize(s@.take(i as int)),
        decreases s@.len() - i,
    {
        assert(s@.take(i + 1).drop_last() =~= s@.take(i as int));
        let c = s[i];
        if c != '\u{feff}' && c != '\u{200b}' {
            r.push(c);
        }
        i += 1;
    }
    assert(s@.take(s@.len() as int) =~= s@);
    r
}

/// Clean terminal-pasted agent output into message-ready prose: soft-wrapped
/// lines are joined, terminal glyphs, ANSI codes and Markdown chrome removed,
/// fenced code passed through verbatim, a leading framing preamble dropped,
/// and blocks re-joined with one blank line.
pub fn clean(input: &str) -> (out: String)
    ensures
        out@ == spec_clean(input@),
{
    let chars = chars_of(input);
    let norm = normalize_chars(chars.as_slice());
    let lines = split_chars(norm.as_slice(), '\n');
    let chunks = split_chunks(&lines);
    let ghost cv = chunks_view(chunks@);
    let mut blocks: Vec<Vec<char>> = Vec::new();
    let mut i: usize = 0;
    assert(cv.take(0) =~= Seq::<ChunkView>::empty());
    assert(lines_view(blocks@) =~= Seq::<Seq<char>>::empty());
    while i < chunks.len()
        invariant
            i <= chunks@.len(),
            cv == chunks_view(chunks@),
            lines_view(blocks@) == rendered(cv.take(i as int)),
        decreases chunks@.len() - i,
    {
        assert(cv.take(i + 1).drop_last() =~= cv.take(i as int));
        assert(cv.take(i + 1).last() == chunks@[i as int]@);
        let ghost before = lines_view(blocks@);
        match &chunks[i] {
            Chunk::Code(c) => {
                let copy = slice_copy(c.as_slice(), 0, c.len());
                assert(copy@ =~= c@);
                blocks.push(copy);
                assert(lines_view(blocks@) =~= before.push(c@));
            },
            Chunk::Prose(ls) => {
                match render_prose_block(ls) {
                    Some(r) => {
                        let ghost rv = r@;
                        blocks.push(r);
                        assert(lines_view(blocks@) =~= before.push(rv));
                    },
                    None => {},
                }
            },
        }
        i += 1;
    }
    assert(cv.take(chunks@.len() as int) =~= cv);
    let ghost all = lines_view(blocks@);
    if blocks.len() > 0 && is_preamble(blocks[0].as_slice()) {
        blocks.remove(0);
        assert(lines_view(blocks@) =~= all.drop_first());
    }
    let sep = vec!['\n', '\n'];
    assert(sep@ =~= seq!['\n', '\n']);
    let out = join_chars(&blocks, sep.as_slice());
    string_from_chars(out.as_slice())
}

} // verus!
