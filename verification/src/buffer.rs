use std::ops::Range;
use vstd::prelude::*;
use vstd::slice::slice_subrange;

use vstd::slice::slice_to_vec;
use vstd::utf8::{decode_utf8, encode_utf8, valid_utf8};

use crate::cursor::CursorPos;
use crate::error::ParserFailures;
use crate::graphemes::{extended_graphemes, grapheme_clusters};
use crate::term_char::{char_of_byte, CharModel, TChar};
use crate::utf8::{string_from_utf8, utf8_is_valid};
use crate::vec_lemmas::lemma_set_deep_view;

verus! {

/// A range of buffer positions as a pair of integers.
pub open spec fn range_pair(r: Range<usize>) -> (int, int) {
    (r.start as int, r.end as int)
}

/// Ranges of buffer positions as pairs of integers.
pub open spec fn pairs(v: Seq<Range<usize>>) -> Seq<(int, int)> {
    Seq::new(v.len(), |i: int| range_pair(v[i]))
}

/// Scanning `buf` from the front, line by line, where a line ends at a line
/// break (which it does not include) or after `width` characters: the lines
/// that have ended, and where the current line starts.
pub open spec fn line_scan(buf: Seq<CharModel>, width: nat) -> (Seq<(int, int)>, int)
    decreases buf.len(),
{
    if buf.len() == 0 {
        (Seq::empty(), 0)
    } else {
        let prev = line_scan(buf.drop_last(), width);
        let i = buf.len() - 1;
        if buf.last() == CharModel::NewLine {
            (prev.0.push((prev.1, i)), i + 1)
        } else if i - prev.1 == width {
            (prev.0.push((prev.1, i)), i)
        } else {
            prev
        }
    }
}

/// The lines of `buf` on a screen `width` characters wide: the ranges of
/// positions that each line covers, line breaks left out. A line break
/// right after a full line does not start an extra line.
pub open spec fn line_ranges(buf: Seq<CharModel>, width: nat) -> Seq<(int, int)> {
    let s = line_scan(buf, width);
    if buf.len() > s.1 {
        s.0.push((s.1, buf.len() as int))
    } else {
        s.0
    }
}

/// The last `height` entries of `v` (all of them when it has fewer).
pub open spec fn visible_ranges<T>(v: Seq<T>, height: nat) -> Seq<T> {
    let first = if v.len() > height {
        v.len() - height
    } else {
        0
    };
    v.subrange(first, v.len() as int)
}

/// The lines of `buf` that a screen `width` wide and `height` high shows:
/// the last `height` of them.
pub open spec fn visible_lines(buf: Seq<CharModel>, width: nat, height: nat) -> Seq<(int, int)> {
    visible_ranges(line_ranges(buf, width), height)
}

/// Whether every line is well-formed: it lies within `len` positions and
/// starts no later than it ends.
pub open spec fn ranges_within(v: Seq<(int, int)>, len: int) -> bool {
    forall|k: int| 0 <= k < v.len() ==> 0 <= (#[trigger] v[k]).0 <= v[k].1 <= len
}

/// Whether the lines come in order: each ends no later than the next
/// starts.
pub open spec fn ranges_ordered(v: Seq<(int, int)>) -> bool {
    forall|j: int, k: int| 0 <= j < k < v.len() ==> (#[trigger] v[j]).1 <= (#[trigger] v[k]).0
}

/// What scanning keeps: the current line starts within the buffer and is
/// shorter than a full line, and the ended lines are ordered and lie before
/// it.
pub proof fn lemma_line_scan_bounds(buf: Seq<CharModel>, width: nat)
    requires
        width > 0,
    ensures
        0 <= line_scan(buf, width).1 <= buf.len(),
        buf.len() - line_scan(buf, width).1 <= width,
        ranges_within(line_scan(buf, width).0, line_scan(buf, width).1),
        ranges_ordered(line_scan(buf, width).0),
    decreases buf.len(),
{
    if buf.len() > 0 {
        lemma_line_scan_bounds(buf.drop_last(), width);
    }
}

/// What scanning keeps at any width: the current line starts within the
/// buffer, and the ended lines are ordered and lie before it.
pub proof fn lemma_line_scan_order(buf: Seq<CharModel>, width: nat)
    ensures
        0 <= line_scan(buf, width).1 <= buf.len(),
        ranges_within(line_scan(buf, width).0, line_scan(buf, width).1),
        ranges_ordered(line_scan(buf, width).0),
    decreases buf.len(),
{
    if buf.len() > 0 {
        lemma_line_scan_order(buf.drop_last(), width);
    }
}

/// Whether scanning `buf` never finds a character past the end of a full
/// line: each character that is not a line break lies at most `width`
/// positions after the start of its line. Every buffer fits a positive
/// width; at width 0 the buffers that fit are those without two characters
/// in a row that are not line breaks.
pub open spec fn scan_fits(buf: Seq<CharModel>, width: nat) -> bool {
    forall|k: int|
        0 <= k < buf.len() && buf[k] != CharModel::NewLine ==> k - (#[trigger] line_scan(buf.take(k), width)).1
            <= width
}

/// The lines of a buffer lie within it and come in order.
pub proof fn lemma_line_ranges_bounds(buf: Seq<CharModel>, width: nat)
    ensures
        ranges_within(line_ranges(buf, width), buf.len() as int),
        ranges_ordered(line_ranges(buf, width)),
{
    lemma_line_scan_order(buf, width);
}

/// Every line of a buffer holds at most `width` characters and no line
/// break.
pub proof fn lemma_lines_are_short_and_unbroken(buf: Seq<CharModel>, width: nat)
    requires
        width > 0,
    ensures
        forall|k: int|
            0 <= k < line_ranges(buf, width).len() ==> (#[trigger] line_ranges(buf, width)[k]).1
                - line_ranges(buf, width)[k].0 <= width,
        forall|k: int, j: int|
            0 <= k < line_ranges(buf, width).len() && (#[trigger] line_ranges(buf, width)[k]).0 <= j
                < line_ranges(buf, width)[k].1 ==> #[trigger] buf[j] != CharModel::NewLine,
{
    lemma_scan_lines_short_and_unbroken(buf, width);
    lemma_line_scan_bounds(buf, width);
}

proof fn lemma_scan_lines_short_and_unbroken(buf: Seq<CharModel>, width: nat)
    requires
        width > 0,
    ensures
        forall|k: int|
            0 <= k < line_scan(buf, width).0.len() ==> (#[trigger] line_scan(buf, width).0[k]).1
                - line_scan(buf, width).0[k].0 <= width,
        forall|k: int, j: int|
            0 <= k < line_scan(buf, width).0.len() && (#[trigger] line_scan(buf, width).0[k]).0 <= j
                < line_scan(buf, width).0[k].1 ==> #[trigger] buf[j] != CharModel::NewLine,
        forall|j: int| line_scan(buf, width).1 <= j < buf.len() ==> buf[j] != CharModel::NewLine,
    decreases buf.len(),
{
    if buf.len() > 0 {
        let p = buf.drop_last();
        lemma_scan_lines_short_and_unbroken(p, width);
        lemma_line_scan_bounds(p, width);
        assert forall|j: int| 0 <= j < p.len() implies p[j] == buf[j] by {}
    }
}

/// Splits a buffer into lines on a screen `width` characters wide. Each
/// range covers one line, line breaks left out.
pub fn calc_line_ranges(buf: &[TChar], width: usize) -> (ret: Vec<Range<usize>>)
    requires
        width > 0 || scan_fits(buf.deep_view(), width as nat),
    ensures
        pairs(ret@) == line_ranges(buf.deep_view(), width as nat),
{
    let ghost b = buf.deep_view();
    let mut ret: Vec<Range<usize>> = Vec::new();
    let mut current_start: usize = 0;
    let mut i: usize = 0;
    proof {
        assert(b.take(0) =~= Seq::<CharModel>::empty());
        assert(pairs(ret@) =~= Seq::<(int, int)>::empty());
    }
    while i < buf.len()
        invariant
            i <= buf@.len(),
            b == buf.deep_view(),
            b.len() == buf@.len(),
            pairs(ret@) == line_scan(b.take(i as int), width as nat).0,
            current_start == line_scan(b.take(i as int), width as nat).1,
        decreases buf@.len() - i,
    {
        proof {
            assert(b.take(i + 1).drop_last() =~= b.take(i as int));
            lemma_line_scan_order(b.take(i as int), width as nat);
        }
        let ghost before = ret@;
        if buf[i].is_newline() {
            ret.push(Range { start: current_start, end: i });
            current_start = i + 1;
            assert(pairs(ret@) =~= pairs(before).push((line_scan(b.take(i as int), width as nat).1, i as int)));
        } else if i - current_start == width {
            ret.push(Range { start: current_start, end: i });
            current_start = i;
            assert(pairs(ret@) =~= pairs(before).push((line_scan(b.take(i as int), width as nat).1, i as int)));
        }
        i += 1;
    }
    proof {
        assert(b.take(b.len() as int) =~= b);
        lemma_line_scan_order(b, width as nat);
    }
    if buf.len() > current_start {
        let ghost before = ret@;
        ret.push(Range { start: current_start, end: buf.len() });
        assert(pairs(ret@) =~= pairs(before).push((current_start as int, buf@.len() as int)));
    }
    ret
}

/// The lines that a screen `height` lines high shows: the last `height` of
/// them.
pub fn line_ranges_to_visible_line_ranges(line_ranges: &[Range<usize>], height: usize) -> (r: &[Range<usize>])
    ensures
        r@ == visible_ranges(line_ranges@, height as nat),
{
    let n = line_ranges.len();
    let first = if n > height {
        n - height
    } else {
        0
    };
    slice_subrange(line_ranges, first, n)
}

/// Taking the visible lines commutes with reading ranges as pairs.
pub proof fn lemma_pairs_visible(v: Seq<Range<usize>>, height: nat)
    ensures
        pairs(visible_ranges(v, height)) == visible_ranges(pairs(v), height),
{
    assert(pairs(visible_ranges(v, height)) =~= visible_ranges(pairs(v), height));
}

/// Whether line `i` of `v` is the first that ends at or after `pos`.
pub open spec fn is_first_line_reaching(v: Seq<(int, int)>, pos: int, i: int) -> bool {
    &&& 0 <= i < v.len()
    &&& v[i].1 >= pos
    &&& forall|j: int| 0 <= j < i ==> v[j].1 < pos
}

/// The screen position of buffer position `pos`: on the first visible line
/// that ends at or after it. Positions before the screen, and past the
/// last visible line, map to the top left corner.
pub open spec fn cursor_of_pos(buf: Seq<CharModel>, width: nat, height: nat, pos: int) -> CursorPos {
    let v = visible_lines(buf, width, height);
    if exists|i: int| is_first_line_reaching(v, pos, i) {
        let i = choose|i: int| is_first_line_reaching(v, pos, i);
        if pos < v[i].0 {
            CursorPos { x: 0, y: 0 }
        } else {
            CursorPos { x: (pos - v[i].0) as usize, y: i as usize }
        }
    } else {
        CursorPos { x: 0, y: 0 }
    }
}

/// Maps a buffer position to a screen position.
pub fn buf_to_cursor_pos(buf: &[TChar], width: usize, height: usize, buf_pos: usize) -> (r: CursorPos)
    requires
        width > 0 || scan_fits(buf.deep_view(), width as nat),
    ensures
        r == cursor_of_pos(buf.deep_view(), width as nat, height as nat, buf_pos as int),
{
    let new_line_ranges = calc_line_ranges(buf, width);
    let visible = line_ranges_to_visible_line_ranges(new_line_ranges.as_slice(), height);
    let ghost v = visible_lines(buf.deep_view(), width as nat, height as nat);
    proof {
        lemma_pairs_visible(new_line_ranges@, height as nat);
    }
    let mut i: usize = 0;
    while i < visible.len()
        invariant
            i <= visible@.len(),
            v == pairs(visible@),
            v == visible_lines(buf.deep_view(), width as nat, height as nat),
            forall|j: int| 0 <= j < i ==> v[j].1 < buf_pos,
        decreases visible@.len() - i,
    {
        if visible[i].end >= buf_pos {
            assert(is_first_line_reaching(v, buf_pos as int, i as int));
            assert forall|k: int| is_first_line_reaching(v, buf_pos as int, k) implies k == i by {
                if k < i {
                    assert(v[k].1 < buf_pos);
                } else if k > i {
                    assert(v[i as int].1 < buf_pos);
                }
            }
            if buf_pos < visible[i].start {
                return CursorPos { x: 0, y: 0 };
            }
            return CursorPos { x: buf_pos - visible[i].start, y: i };
        }
        i += 1;
    }
    assert(!exists|k: int| is_first_line_reaching(v, buf_pos as int, k));
    CursorPos { x: 0, y: 0 }
}

/// The position of the first line break at or after `start`, or the end of
/// the buffer when there is none.
pub open spec fn line_end_from(buf: Seq<CharModel>, start: int) -> int
    decreases buf.len() - start,
{
    if start >= buf.len() {
        buf.len() as int
    } else if buf[start] == CharModel::NewLine {
        start
    } else {
        line_end_from(buf, start + 1)
    }
}

/// Where the line that contains `start` ends, wrapping ignored: the first
/// line break at or after it, or the end of the buffer.
pub fn unwrapped_line_end_pos(buf: &[TChar], start_pos: usize) -> (r: usize)
    ensures
        r == line_end_from(buf.deep_view(), start_pos as int),
{
    let ghost b = buf.deep_view();
    let mut i = start_pos;
    while i < buf.len() && !buf[i].is_newline()
        invariant
            b == buf.deep_view(),
            start_pos <= i,
            line_end_from(b, start_pos as int) == line_end_from(b, i as int),
        decreases buf@.len() - i,
    {
        i += 1;
    }
    if i >= buf.len() {
        buf.len()
    } else {
        i
    }
}

/// The buffer position under screen position `c` on the lines `v`, with
/// the line it is on; `None` when the row is past the last line or the
/// column is past the end of the line.
pub open spec fn cursor_buf_pos(v: Seq<(int, int)>, c: CursorPos) -> Option<(int, (int, int))> {
    if c.y < v.len() {
        let r = v[c.y as int];
        let candidate = r.0 + c.x;
        if candidate > r.1 {
            None
        } else {
            Some((candidate, r))
        }
    } else {
        None
    }
}

/// The buffer position under a screen position, among the visible lines.
pub fn cursor_to_buf_pos_from_visible_line_ranges(
    cursor_pos: &CursorPos,
    visible_line_ranges: &[Range<usize>],
) -> (r: Option<(usize, Range<usize>)>)
    ensures
        match r {
            Some((p, range)) => cursor_buf_pos(pairs(visible_line_ranges@), *cursor_pos) == Some(
                (p as int, range_pair(range)),
            ),
            None => cursor_buf_pos(pairs(visible_line_ranges@), *cursor_pos) is None,
        },
{
    if cursor_pos.y < visible_line_ranges.len() {
        let start = visible_line_ranges[cursor_pos.y].start;
        let end = visible_line_ranges[cursor_pos.y].end;
        if start > end || cursor_pos.x > end - start {
            None
        } else {
            Some((start + cursor_pos.x, Range { start, end }))
        }
    } else {
        None
    }
}

/// The buffer position under a screen position.
pub fn cursor_to_buf_pos(buf: &[TChar], cursor_pos: &CursorPos, width: usize, height: usize) -> (r:
    Option<(usize, Range<usize>)>)
    requires
        width > 0,
    ensures
        match r {
            Some((p, range)) => cursor_buf_pos(
                visible_lines(buf.deep_view(), width as nat, height as nat),
                *cursor_pos,
            ) == Some((p as int, range_pair(range))),
            None => cursor_buf_pos(
                visible_lines(buf.deep_view(), width as nat, height as nat),
                *cursor_pos,
            ) is None,
        },
{
    let line_ranges = calc_line_ranges(buf, width);
    let visible = line_ranges_to_visible_line_ranges(line_ranges.as_slice(), height);
    proof {
        lemma_pairs_visible(line_ranges@, height as nat);
    }
    cursor_to_buf_pos_from_visible_line_ranges(cursor_pos, visible)
}

/// `n` copies of the character `c`.
pub open spec fn repeat(c: CharModel, n: nat) -> Seq<CharModel> {
    Seq::new(n, |_i: int| c)
}

/// `s` with the positions `a..b` replaced by `middle`.
pub open spec fn splice(s: Seq<CharModel>, a: int, b: int, middle: Seq<CharModel>) -> Seq<CharModel> {
    s.subrange(0, a) + middle + s.subrange(b, s.len() as int)
}

/// Appends copies of `src[a..b]`.
fn push_copies(dst: &mut Vec<TChar>, src: &[TChar], a: usize, b: usize)
    requires
        a <= b <= src@.len(),
    ensures
        final(dst).deep_view() == old(dst).deep_view() + src.deep_view().subrange(a as int, b as int),
{
    let mut i = a;
    while i < b
        invariant
            a <= i <= b,
            b <= src@.len(),
            dst.deep_view() == old(dst).deep_view() + src.deep_view().subrange(a as int, i as int),
        decreases b - i,
    {
        let ghost before = dst.deep_view();
        dst.push(src[i].duplicate());
        i += 1;
        assert(dst.deep_view() =~= before.push(src.deep_view()[i - 1]));
        assert(src.deep_view().subrange(a as int, i as int) =~= src.deep_view().subrange(
            a as int,
            i - 1,
        ).push(src.deep_view()[i - 1]));
    }
}

/// Appends `n` copies of `c`.
fn push_repeat(dst: &mut Vec<TChar>, n: usize, c: &TChar)
    ensures
        final(dst).deep_view() == old(dst).deep_view() + repeat(c.deep_view(), n as nat),
{
    let mut i: usize = 0;
    while i < n
        invariant
            i <= n,
            dst.deep_view() == old(dst).deep_view() + repeat(c.deep_view(), i as nat),
        decreases n - i,
    {
        let ghost before = dst.deep_view();
        dst.push(c.duplicate());
        i += 1;
        assert(dst.deep_view() =~= before.push(c.deep_view()));
        assert(repeat(c.deep_view(), i as nat) =~= repeat(c.deep_view(), (i - 1) as nat).push(
            c.deep_view(),
        ));
    }
}

/// Replaces the positions `a..b` of `buf` by copies of `middle`.
fn splice_chars(buf: &mut Vec<TChar>, a: usize, b: usize, middle: &[TChar])
    requires
        a <= b <= old(buf)@.len(),
    ensures
        final(buf).deep_view() == splice(old(buf).deep_view(), a as int, b as int, middle.deep_view()),
{
    let mut out: Vec<TChar> = Vec::new();
    push_copies(&mut out, buf.as_slice(), 0, a);
    push_copies(&mut out, middle, 0, middle.len());
    push_copies(&mut out, buf.as_slice(), b, buf.len());
    assert(middle.deep_view().subrange(0, middle@.len() as int) =~= middle.deep_view());
    assert(out.deep_view() =~= splice(buf.deep_view(), a as int, b as int, middle.deep_view()));
    *buf = out;
}

/// What padding a buffer for a write does: the buffer after, where the
/// write goes, and the range of positions that padding added.
pub ghost struct Padding {
    pub buf: Seq<CharModel>,
    pub write_idx: int,
    pub inserted: (int, int),
}

/// Pads `buf` so that `write_len` characters can be written at screen
/// position `c`: line breaks are added until row `c.y` exists, and spaces
/// at the end of its line until the write fits before the line break
/// (a line that wraps at the screen edge is written over instead).
pub open spec fn pad_for_write(buf: Seq<CharModel>, width: nat, height: nat, c: CursorPos, write_len: nat) -> Padding {
    let v = visible_lines(buf, width, height);
    let vpad: int = if c.y + 1 > v.len() {
        c.y + 1 - v.len()
    } else {
        0
    };
    let buf1 = buf + repeat(CharModel::NewLine, vpad as nat);
    let start = if c.y < v.len() {
        v[c.y as int].0
    } else {
        buf.len() + (c.y - v.len())
    };
    let desired_start = start + c.x;
    let desired_end = desired_start + write_len;
    let actual_end = line_end_from(buf1, start);
    let pad_start = if vpad != 0 {
        buf.len() as int
    } else {
        actual_end
    };
    let spaces: int = if desired_end > actual_end {
        desired_end - actual_end
    } else {
        0
    };
    Padding {
        buf: splice(buf1, actual_end, actual_end, repeat(CharModel::Space, spaces as nat)),
        write_idx: desired_start,
        inserted: (pad_start, pad_start + vpad + spaces),
    }
}

/// Whether a write of `n` characters at `c` into a buffer of `len`
/// characters keeps every position it computes within `usize`.
pub open spec fn write_fits(len: int, c: CursorPos, n: int) -> bool {
    len + c.y + c.x + n + 1 <= usize::MAX
}

proof fn lemma_line_end_from_bounds(buf: Seq<CharModel>, start: int)
    requires
        0 <= start <= buf.len(),
    ensures
        start <= line_end_from(buf, start) <= buf.len(),
    decreases buf.len() - start,
{
    if start < buf.len() && buf[start] != CharModel::NewLine {
        lemma_line_end_from_bounds(buf, start + 1);
    }
}

/// What is written reads back: padding makes room for the whole write, and
/// after writing `cs` over the padded buffer, the positions written hold
/// exactly `cs` and nothing else moves.
pub proof fn lemma_written_text_reads_back(
    buf: Seq<CharModel>,
    width: nat,
    height: nat,
    c: CursorPos,
    cs: Seq<CharModel>,
)
    requires
        width > 0,
    ensures
        ({
            let p = pad_for_write(buf, width, height, c, cs.len());
            let nb = splice(p.buf, p.write_idx, p.write_idx + cs.len(), cs);
            &&& 0 <= p.write_idx
            &&& p.write_idx + cs.len() <= p.buf.len()
            &&& nb.len() == p.buf.len()
            &&& nb.subrange(p.write_idx, p.write_idx + cs.len()) == cs
            &&& nb.subrange(0, p.write_idx) == p.buf.subrange(0, p.write_idx)
            &&& nb.subrange(p.write_idx + cs.len(), nb.len() as int) == p.buf.subrange(
                p.write_idx + cs.len(),
                p.buf.len() as int,
            )
        }),
{
    lemma_visible_lines(buf, width, height);
    let v = visible_lines(buf, width, height);
    let vpad: int = if c.y + 1 > v.len() {
        c.y + 1 - v.len()
    } else {
        0
    };
    let buf1 = buf + repeat(CharModel::NewLine, vpad as nat);
    let start = if c.y < v.len() {
        v[c.y as int].0
    } else {
        buf.len() + (c.y - v.len())
    };
    lemma_line_end_from_bounds(buf1, start);
    let p = pad_for_write(buf, width, height, c, cs.len());
    let w = p.write_idx;
    let e = w + cs.len();
    let nb = splice(p.buf, w, e, cs);
    assert(nb.subrange(w, e) =~= cs);
    assert(nb.subrange(0, w) =~= p.buf.subrange(0, w));
    assert(nb.subrange(e, nb.len() as int) =~= p.buf.subrange(e, p.buf.len() as int));
}

/// What [`pad_buffer_for_write`] reports.
pub struct PadBufferForWriteResponse {
    /// Where to write.
    pub write_idx: usize,
    /// The positions that padding added.
    pub inserted_padding: Range<usize>,
}

/// Pads the buffer so that `write_len` characters can be written at the
/// cursor, as [`pad_for_write`] says.
pub fn pad_buffer_for_write(
    buf: &mut Vec<TChar>,
    width: usize,
    height: usize,
    cursor_pos: &CursorPos,
    write_len: usize,
) -> (r: PadBufferForWriteResponse)
    requires
        width > 0 || scan_fits(old(buf).deep_view(), width as nat),
        write_fits(old(buf)@.len() as int, *cursor_pos, write_len as int),
    ensures
        final(buf).deep_view() == pad_for_write(
            old(buf).deep_view(),
            width as nat,
            height as nat,
            *cursor_pos,
            write_len as nat,
        ).buf,
        r.write_idx == pad_for_write(
            old(buf).deep_view(),
            width as nat,
            height as nat,
            *cursor_pos,
            write_len as nat,
        ).write_idx,
        range_pair(r.inserted_padding) == pad_for_write(
            old(buf).deep_view(),
            width as nat,
            height as nat,
            *cursor_pos,
            write_len as nat,
        ).inserted,
        r.write_idx + write_len <= final(buf)@.len(),
        final(buf)@.len() <= old(buf)@.len() + cursor_pos.y + cursor_pos.x + write_len + 1,
{
    let ghost b0 = buf.deep_view();
    let all_lines = calc_line_ranges(buf.as_slice(), width);
    let visible = line_ranges_to_visible_line_ranges(all_lines.as_slice(), height);
    let ghost v = visible_lines(b0, width as nat, height as nat);
    proof {
        lemma_pairs_visible(all_lines@, height as nat);
        lemma_line_ranges_bounds(b0, width as nat);
    }
    let vis_len = visible.len();
    let old_len = buf.len();
    let vpad = if cursor_pos.y + 1 > vis_len {
        cursor_pos.y + 1 - vis_len
    } else {
        0
    };
    let start = if cursor_pos.y < vis_len {
        visible[cursor_pos.y].start
    } else {
        old_len + (cursor_pos.y - vis_len)
    };
    proof {
        if cursor_pos.y < vis_len {
            assert(v[cursor_pos.y as int] == line_ranges(b0, width as nat)[cursor_pos.y
                + (line_ranges(b0, width as nat).len() - v.len())]);
        }
    }
    push_repeat(buf, vpad, &TChar::NewLine);
    let ghost b1 = buf.deep_view();
    assert(start <= b1.len());
    let desired_start = start + cursor_pos.x;
    let desired_end = desired_start + write_len;
    let actual_end = unwrapped_line_end_pos(buf.as_slice(), start);
    proof {
        lemma_line_end_from_bounds(b1, start as int);
    }
    let pad_start = if vpad != 0 {
        old_len
    } else {
        actual_end
    };
    let spaces = if desired_end > actual_end {
        desired_end - actual_end
    } else {
        0
    };
    let mut fill: Vec<TChar> = Vec::new();
    push_repeat(&mut fill, spaces, &TChar::Space);
    splice_chars(buf, actual_end, actual_end, fill.as_slice());
    assert(buf@.len() == buf.deep_view().len());
    assert(b1.len() == old_len + vpad);
    assert(buf.deep_view().len() == b1.len() + spaces);
    PadBufferForWriteResponse {
        write_idx: desired_start,
        inserted_padding: Range { start: pad_start, end: pad_start + vpad + spaces },
    }
}

/// The part of a terminal's content that has scrolled off the screen, and
/// the part that the screen shows.
#[derive(Debug, Clone, PartialEq, Eq)]
pub struct TerminalSections<T> {
    pub scrollback: T,
    pub visible: T,
}

/// What a write reports.
#[derive(Debug)]
pub struct TerminalBufferInsertResponse {
    /// The positions that were written, after padding.
    pub written_range: Range<usize>,
    /// The positions that are new: padding that was not there before. What
    /// followed them has moved.
    pub insertion_range: Range<usize>,
    /// Where the cursor goes after the write.
    pub new_cursor_pos: CursorPos,
    /// Bytes at the end of the input that do not yet form UTF-8 text.
    pub left_over: Vec<u8>,
}

/// What inserting lines reports.
#[derive(Debug)]
pub struct TerminalBufferInsertLineResponse {
    /// The positions deleted, counted before the insertion.
    pub deleted_range: Range<usize>,
    /// The positions inserted.
    pub inserted_range: Range<usize>,
}

/// What resizing reports.
#[derive(Debug)]
pub struct TerminalBufferSetWinSizeResponse {
    /// Whether the size changed.
    pub changed: bool,
    /// The positions that padding added while resizing.
    pub insertion_range: Range<usize>,
    /// Where the cursor is after resizing.
    pub new_cursor_pos: CursorPos,
}

/// The characters of a terminal, scrollback and screen together, and the
/// size of the screen.
#[derive(Debug, PartialEq, Eq)]
pub struct TerminalBufferHolder {
    buf: Vec<TChar>,
    width: usize,
    height: usize,
}

/// The mathematical value of a [`TerminalBufferHolder`].
pub ghost struct BufferModel {
    pub buf: Seq<CharModel>,
    pub width: nat,
    pub height: nat,
}

impl View for TerminalBufferHolder {
    type V = BufferModel;

    closed spec fn view(&self) -> BufferModel {
        BufferModel { buf: self.buf.deep_view(), width: self.width as nat, height: self.height as nat }
    }
}

/// Where the screen starts in the buffer: at the first visible line; at 0
/// for an empty buffer, and at the end when the screen shows no line.
pub open spec fn visible_start(buf: Seq<CharModel>, width: nat, height: nat) -> int {
    let v = visible_lines(buf, width, height);
    if buf.len() == 0 {
        0
    } else if v.len() == 0 {
        buf.len() as int
    } else {
        v[0].0
    }
}

/// The buffer with every character from `from` on that is not a line break
/// turned into a space.
pub open spec fn blank_from(buf: Seq<CharModel>, from: int) -> Seq<CharModel> {
    Seq::new(
        buf.len(),
        |j: int|
            if j >= from && buf[j] != CharModel::NewLine {
                CharModel::Space
            } else {
                buf[j]
            },
    )
}

/// The scrollback and the screen together are the whole buffer: the screen
/// starts within the buffer, and splitting there loses and repeats nothing.
pub proof fn lemma_sections_make_up_buffer(buf: Seq<CharModel>, width: nat, height: nat)
    requires
        width > 0,
    ensures
        0 <= visible_start(buf, width, height) <= buf.len(),
        buf.subrange(0, visible_start(buf, width, height)) + buf.subrange(
            visible_start(buf, width, height),
            buf.len() as int,
        ) == buf,
{
    lemma_visible_lines(buf, width, height);
    let vs = visible_start(buf, width, height);
    assert(buf.subrange(0, vs) + buf.subrange(vs, buf.len() as int) =~= buf);
}

impl TerminalBufferHolder {
    /// An empty buffer for a screen `width` wide and `height` high.
    pub fn new(width: usize, height: usize) -> (r: Self)
        ensures
            r@ == (BufferModel { buf: Seq::empty(), width: width as nat, height: height as nat }),
    {
        let r = TerminalBufferHolder { buf: Vec::new(), width, height };
        assert(r.buf.deep_view() =~= Seq::<CharModel>::empty());
        r
    }

    /// The screen size, as (width, height).
    pub fn get_win_size(&self) -> (r: (usize, usize))
        ensures
            r.0 as nat == self@.width,
            r.1 as nat == self@.height,
    {
        (self.width, self.height)
    }

    /// Empties the buffer.
    pub fn clear_all(&mut self)
        ensures
            final(self)@ == (BufferModel { buf: Seq::empty(), ..old(self)@ }),
    {
        self.buf.clear();
        assert(self.buf.deep_view() =~= Seq::<CharModel>::empty());
    }

    /// The scrollback and the screen, as copies.
    pub fn data(&self) -> (r: TerminalSections<Vec<TChar>>)
        requires
            self@.width > 0 || scan_fits(self@.buf, self@.width),
        ensures
            r.scrollback.deep_view() == self@.buf.subrange(
                0,
                visible_start(self@.buf, self@.width, self@.height),
            ),
            r.visible.deep_view() == self@.buf.subrange(
                visible_start(self@.buf, self@.width, self@.height),
                self@.buf.len() as int,
            ),
    {
        let all_lines = calc_line_ranges(self.buf.as_slice(), self.width);
        let visible = line_ranges_to_visible_line_ranges(all_lines.as_slice(), self.height);
        proof {
            lemma_pairs_visible(all_lines@, self.height as nat);
            lemma_line_ranges_bounds(self.buf.deep_view(), self.width as nat);
        }
        let start = if self.buf.len() == 0 {
            0
        } else if visible.len() == 0 {
            self.buf.len()
        } else {
            visible[0].start
        };
        proof {
            if self.buf.len() > 0 && visible.len() > 0 {
                let v = visible_lines(self.buf.deep_view(), self.width as nat, self.height as nat);
                let all = line_ranges(self.buf.deep_view(), self.width as nat);
                assert(v[0] == all[all.len() - v.len()]);
            }
        }
        let mut scrollback: Vec<TChar> = Vec::new();
        push_copies(&mut scrollback, self.buf.as_slice(), 0, start);
        let mut shown: Vec<TChar> = Vec::new();
        push_copies(&mut shown, self.buf.as_slice(), start, self.buf.len());
        assert(scrollback.deep_view() =~= self.buf.deep_view().subrange(0, start as int));
        assert(shown.deep_view() =~= self.buf.deep_view().subrange(start as int, self.buf@.len() as int));
        TerminalSections { scrollback, visible: shown }
    }

    /// Deletes from the cursor to the end of its line. `None`, and nothing
    /// deleted, when the cursor is on no character of a visible line.
    pub fn clear_line_forwards(&mut self, cursor_pos: &CursorPos) -> (r: Option<Range<usize>>)
        requires
            old(self)@.width > 0,
        ensures
            match cursor_buf_pos(
                visible_lines(old(self)@.buf, old(self)@.width, old(self)@.height),
                *cursor_pos,
            ) {
                None => r is None && final(self)@ == old(self)@,
                Some((p, line)) => r matches Some(d) && range_pair(d) == (p, line.1)
                    && final(self)@ == (BufferModel {
                    buf: splice(old(self)@.buf, p, line.1, Seq::empty()),
                    ..old(self)@
                }),
            },
    {
        match cursor_to_buf_pos(self.buf.as_slice(), cursor_pos, self.width, self.height) {
            None => None,
            Some((buf_pos, line_range)) => {
                proof {
                    lemma_line_ranges_bounds(self.buf.deep_view(), self.width as nat);
                    self.lemma_visible_within();
                }
                let empty: Vec<TChar> = Vec::new();
                splice_chars(&mut self.buf, buf_pos, line_range.end, empty.as_slice());
                proof {
                    assert(empty.deep_view() =~= Seq::<CharModel>::empty());
                }
                Some(Range { start: buf_pos, end: line_range.end })
            },
        }
    }

    /// Deletes the whole line under the cursor.
    pub fn clear_line(&mut self, cursor_pos: &CursorPos) -> (r: Option<Range<usize>>)
        requires
            old(self)@.width > 0,
        ensures
            match cursor_buf_pos(
                visible_lines(old(self)@.buf, old(self)@.width, old(self)@.height),
                *cursor_pos,
            ) {
                None => r is None && final(self)@ == old(self)@,
                Some((p, line)) => r matches Some(d) && range_pair(d) == line && final(self)@ == (
                BufferModel { buf: splice(old(self)@.buf, line.0, line.1, Seq::empty()), ..old(self)@ }),
            },
    {
        match cursor_to_buf_pos(self.buf.as_slice(), cursor_pos, self.width, self.height) {
            None => None,
            Some((_buf_pos, line_range)) => {
                proof {
                    self.lemma_visible_within();
                }
                let empty: Vec<TChar> = Vec::new();
                splice_chars(&mut self.buf, line_range.start, line_range.end, empty.as_slice());
                proof {
                    assert(empty.deep_view() =~= Seq::<CharModel>::empty());
                }
                Some(line_range)
            },
        }
    }

    /// Deletes from the start of the cursor's line up to the cursor.
    pub fn clear_line_backwards(&mut self, cursor_pos: &CursorPos) -> (r: Option<Range<usize>>)
        requires
            old(self)@.width > 0,
        ensures
            match cursor_buf_pos(
                visible_lines(old(self)@.buf, old(self)@.width, old(self)@.height),
                *cursor_pos,
            ) {
                None => r is None && final(self)@ == old(self)@,
                Some((p, line)) => r matches Some(d) && range_pair(d) == (line.0, p) && final(self)@ == (
                BufferModel { buf: splice(old(self)@.buf, line.0, p, Seq::empty()), ..old(self)@ }),
            },
    {
        match cursor_to_buf_pos(self.buf.as_slice(), cursor_pos, self.width, self.height) {
            None => None,
            Some((buf_pos, line_range)) => {
                proof {
                    self.lemma_visible_within();
                }
                let empty: Vec<TChar> = Vec::new();
                splice_chars(&mut self.buf, line_range.start, buf_pos, empty.as_slice());
                proof {
                    assert(empty.deep_view() =~= Seq::<CharModel>::empty());
                }
                Some(Range { start: line_range.start, end: buf_pos })
            },
        }
    }

    /// The visible lines lie within the buffer.
    proof fn lemma_visible_within(&self)
        ensures
            ranges_within(visible_lines(self@.buf, self@.width, self@.height), self@.buf.len() as int),
    {
        lemma_line_ranges_bounds(self@.buf, self@.width);
        let all = line_ranges(self@.buf, self@.width);
        let v = visible_lines(self@.buf, self@.width, self@.height);
        assert forall|k: int| 0 <= k < v.len() implies 0 <= (#[trigger] v[k]).0 <= v[k].1
            <= self@.buf.len() by {
            assert(v[k] == all[k + (all.len() - v.len())]);
        }
    }
}

/// How many bytes at the front of `data` form UTF-8 text: bytes are dropped
/// from the end until what is left is well-formed.
pub open spec fn utf8_prefix_len(data: Seq<u8>) -> nat
    decreases data.len(),
{
    if data.len() == 0 || valid_utf8(data) {
        data.len()
    } else {
        utf8_prefix_len(data.drop_last())
    }
}

/// The character that a grapheme cluster with bytes `g` becomes: a single
/// byte stands for itself, more bytes are a multi-byte character.
pub open spec fn cluster_char(g: Seq<u8>) -> Option<CharModel> {
    if g.len() == 1 {
        Some(char_of_byte(g[0]))
    } else if g.len() > 0 && valid_utf8(g) {
        Some(CharModel::Utf8(g))
    } else {
        None
    }
}

/// The characters that the clusters become, or `None` when one cannot be
/// a character.
pub open spec fn cluster_chars(gs: Seq<Seq<u8>>) -> Option<Seq<CharModel>> {
    if forall|i: int| 0 <= i < gs.len() ==> (#[trigger] cluster_char(gs[i])) is Some {
        Some(Seq::new(gs.len(), |i: int| cluster_char(gs[i]).unwrap()))
    } else {
        None
    }
}

/// How many bytes a well-formed UTF-8 sequence that starts with `lead` has,
/// when it has more than one; 0 for a byte that starts no such sequence
/// (Unicode's table of well-formed UTF-8 byte sequences).
pub open spec fn utf8_sequence_len(lead: u8) -> int {
    if 0xc2 <= lead <= 0xdf {
        2
    } else if 0xe0 <= lead <= 0xef {
        3
    } else if 0xf0 <= lead <= 0xf4 {
        4
    } else {
        0
    }
}

/// Whether `b` may follow `lead` as the second byte of a well-formed UTF-8
/// sequence.
pub open spec fn utf8_second_byte_ok(lead: u8, b: u8) -> bool {
    if lead == 0xe0 {
        0xa0 <= b <= 0xbf
    } else if lead == 0xed {
        0x80 <= b <= 0x9f
    } else if lead == 0xf0 {
        0x90 <= b <= 0xbf
    } else if lead == 0xf4 {
        0x80 <= b <= 0x8f
    } else {
        0x80 <= b <= 0xbf
    }
}

/// Whether `t` begins a well-formed UTF-8 sequence of several bytes but
/// stops before its end: the rest may still come.
pub open spec fn utf8_cut_off(t: Seq<u8>) -> bool {
    &&& 0 < t.len() < utf8_sequence_len(t[0])
    &&& t.len() >= 2 ==> utf8_second_byte_ok(t[0], t[1])
    &&& t.len() >= 3 ==> 0x80 <= t[2] <= 0xbf
}

/// The bytes after the longest UTF-8 front of `data`.
pub open spec fn utf8_tail(data: Seq<u8>) -> Seq<u8> {
    data.subrange(utf8_prefix_len(data) as int, data.len() as int)
}

/// The characters that written bytes become: the grapheme clusters of the
/// longest UTF-8 front of the bytes, when what follows that front is empty
/// or a cut-off sequence; `None` when what follows can never be UTF-8, or a
/// cluster cannot be a character.
pub open spec fn chars_of_data(data: Seq<u8>) -> Option<Seq<CharModel>> {
    if utf8_tail(data).len() > 0 && !utf8_cut_off(utf8_tail(data)) {
        None
    } else {
        cluster_chars(grapheme_clusters(decode_utf8(data.take(utf8_prefix_len(data) as int))))
    }
}

/// Whether `t` begins a well-formed UTF-8 sequence but stops before its end
/// (see [`utf8_cut_off`]).
pub fn is_utf8_cut_off(t: &[u8]) -> (r: bool)
    ensures
        r == utf8_cut_off(t@),
{
    let n = t.len();
    if n == 0 {
        return false;
    }
    let lead = t[0];
    let need: usize = if 0xc2 <= lead && lead <= 0xdf {
        2
    } else if 0xe0 <= lead && lead <= 0xef {
        3
    } else if 0xf0 <= lead && lead <= 0xf4 {
        4
    } else {
        0
    };
    if n >= need {
        return false;
    }
    if n >= 2 {
        let b = t[1];
        let ok = if lead == 0xe0 {
            0xa0 <= b && b <= 0xbf
        } else if lead == 0xed {
            0x80 <= b && b <= 0x9f
        } else if lead == 0xf0 {
            0x90 <= b && b <= 0xbf
        } else if lead == 0xf4 {
            0x80 <= b && b <= 0x8f
        } else {
            0x80 <= b && b <= 0xbf
        };
        if !ok {
            return false;
        }
    }
    if n >= 3 {
        let c = t[2];
        if !(0x80 <= c && c <= 0xbf) {
            return false;
        }
    }
    true
}

proof fn lemma_utf8_prefix_len(data: Seq<u8>)
    ensures
        utf8_prefix_len(data) <= data.len(),
        valid_utf8(data.take(utf8_prefix_len(data) as int)),
    decreases data.len(),
{
    if data.len() == 0 {
        assert(data.take(0) =~= data);
    } else if valid_utf8(data) {
        assert(data.take(data.len() as int) =~= data);
    } else {
        lemma_utf8_prefix_len(data.drop_last());
        assert(data.take(utf8_prefix_len(data) as int) =~= data.drop_last().take(
            utf8_prefix_len(data) as int,
        ));
    }
}

proof fn lemma_flatten_len_ge_count(gs: Seq<Seq<u8>>)
    requires
        forall|i: int| 0 <= i < gs.len() ==> (#[trigger] gs[i]).len() > 0,
    ensures
        gs.len() <= gs.flatten().len(),
    decreases gs.len(),
{
    if gs.len() > 0 {
        let rest = gs.drop_first();
        assert forall|i: int| 0 <= i < rest.len() implies (#[trigger] rest[i]).len() > 0 by {
            assert(rest[i] == gs[i + 1]);
        }
        lemma_flatten_len_ge_count(rest);
        assert(gs[0].len() > 0);
    }
}

impl TerminalBufferHolder {
    /// Writes the characters that grapheme clusters become (see
    /// [`cluster_chars`]) at the cursor, over what is there, padding the
    /// buffer first (see [`pad_for_write`]); `left_over` is handed back.
    /// Fails, and changes nothing, when a cluster cannot be a character.
    pub fn insert_clusters(
        &mut self,
        cursor_pos: &CursorPos,
        clusters: &Vec<Vec<u8>>,
        left_over: Vec<u8>,
    ) -> (r: Result<TerminalBufferInsertResponse, ParserFailures>)
        requires
            old(self)@.width > 0,
            write_fits(old(self)@.buf.len() as int, *cursor_pos, clusters@.len() as int),
        ensures
            match cluster_chars(clusters.deep_view()) {
                None => r is Err && final(self)@ == old(self)@,
                Some(cs) => {
                    let p = pad_for_write(
                        old(self)@.buf,
                        old(self)@.width,
                        old(self)@.height,
                        *cursor_pos,
                        cs.len(),
                    );
                    let nb = splice(p.buf, p.write_idx, p.write_idx + cs.len(), cs);
                    &&& r matches Ok(resp)
                    &&& final(self)@ == (BufferModel { buf: nb, ..old(self)@ })
                    &&& range_pair(resp.written_range) == (p.write_idx, p.write_idx + cs.len())
                    &&& range_pair(resp.insertion_range) == p.inserted
                    &&& resp.new_cursor_pos == cursor_of_pos(
                        nb,
                        old(self)@.width,
                        old(self)@.height,
                        p.write_idx + cs.len(),
                    )
                    &&& resp.left_over@ == left_over@
                },
            },
    {
        let ghost gs = clusters.deep_view();
        let mut converted: Vec<TChar> = Vec::new();
        let mut i: usize = 0;
        while i < clusters.len()
            invariant
                i <= clusters@.len(),
                gs == clusters.deep_view(),
                converted@.len() == i,
                forall|j: int| 0 <= j < i ==> (#[trigger] cluster_char(gs[j])) is Some,
                forall|j: int|
                    0 <= j < i ==> Some((#[trigger] converted@[j]).deep_view()) == cluster_char(gs[j]),
            decreases clusters@.len() - i,
        {
            let g = &clusters[i];
            assert(g@ == gs[i as int]);
            if g.len() == 1 {
                converted.push(TChar::new_from_single_char(g[0]));
            } else {
                let owned = g.clone();
                assert(owned@ =~= g@);
                match TChar::new_from_many_chars(owned) {
                    Ok(c) => {
                        converted.push(c);
                    },
                    Err(e) => {
                        proof {
                            assert(cluster_char(gs[i as int]) is None);
                            assert(cluster_chars(gs) is None);
                        }
                        return Err(e);
                    },
                }
            }
            i += 1;
        }
        let ghost cs = Seq::new(gs.len(), |j: int| cluster_char(gs[j]).unwrap());
        assert(cluster_chars(gs) == Some(cs));
        assert(converted.deep_view() =~= cs);
        let n = converted.len();
        let pad = pad_buffer_for_write(&mut self.buf, self.width, self.height, cursor_pos, n);
        let write_idx = pad.write_idx;
        splice_chars(&mut self.buf, write_idx, write_idx + n, converted.as_slice());
        let new_cursor_pos = buf_to_cursor_pos(self.buf.as_slice(), self.width, self.height, write_idx + n);
        Ok(TerminalBufferInsertResponse {
            written_range: Range { start: write_idx, end: write_idx + n },
            insertion_range: pad.inserted_padding,
            new_cursor_pos,
            left_over,
        })
    }

    /// Writes `data` at the cursor, over what is there (see
    /// [`TerminalBufferHolder::insert_clusters`]): the longest UTF-8 front
    /// of the bytes is cut into grapheme clusters, one character each, and
    /// a cut-off sequence after it is handed back. Fails, and changes
    /// nothing, when the bytes after that front can never be UTF-8 or a
    /// cluster cannot be a character (see [`chars_of_data`]).
    pub fn insert_data(&mut self, cursor_pos: &CursorPos, data: &[u8]) -> (r: Result<
        TerminalBufferInsertResponse,
        ParserFailures,
    >)
        requires
            old(self)@.width > 0,
            write_fits(old(self)@.buf.len() as int, *cursor_pos, data@.len() as int),
        ensures
            match chars_of_data(data@) {
                None => r is Err && final(self)@ == old(self)@,
                Some(cs) => {
                    let p = pad_for_write(
                        old(self)@.buf,
                        old(self)@.width,
                        old(self)@.height,
                        *cursor_pos,
                        cs.len(),
                    );
                    let nb = splice(p.buf, p.write_idx, p.write_idx + cs.len(), cs);
                    &&& r matches Ok(resp)
                    &&& final(self)@ == (BufferModel { buf: nb, ..old(self)@ })
                    &&& range_pair(resp.written_range) == (p.write_idx, p.write_idx + cs.len())
                    &&& range_pair(resp.insertion_range) == p.inserted
                    &&& resp.new_cursor_pos == cursor_of_pos(
                        nb,
                        old(self)@.width,
                        old(self)@.height,
                        p.write_idx + cs.len(),
                    )
                    &&& resp.left_over@ == utf8_tail(data@)
                },
            },
    {
        let mut k = data.len();
        assert(data@.take(k as int) =~= data@);
        while k > 0 && !utf8_is_valid(slice_subrange(data, 0, k))
            invariant
                k <= data@.len(),
                utf8_prefix_len(data@) == utf8_prefix_len(data@.take(k as int)),
            decreases k,
        {
            assert(data@.take(k as int).drop_last() =~= data@.take(k - 1));
            k -= 1;
        }
        proof {
            if k == 0 {
                assert(data@.take(0) =~= Seq::<u8>::empty());
            }
            assert(utf8_prefix_len(data@.take(k as int)) == k);
            assert(k == utf8_prefix_len(data@));
            lemma_utf8_prefix_len(data@);
        }
        let ghost prefix = data@.take(k as int);
        let tail = slice_subrange(data, k, data.len());
        assert(tail@ =~= utf8_tail(data@));
        if tail.len() > 0 && !is_utf8_cut_off(tail) {
            return Err(ParserFailures::InvalidTChar(slice_to_vec(tail)));
        }
        let left_over = slice_to_vec(tail);
        let front = slice_subrange(data, 0, k);
        assert(front@ =~= prefix);
        let text = match string_from_utf8(slice_to_vec(front)) {
            Some(t) => t,
            None => {
                proof {
                    assert(false);
                }
                return Err(ParserFailures::InvalidTChar(left_over));
            },
        };
        let clusters = extended_graphemes(text.as_str());
        proof {
            lemma_flatten_len_ge_count(clusters.deep_view());
            vstd::utf8::decode_utf8_encode_utf8(prefix);
        }
        self.insert_clusters(cursor_pos, &clusters, left_over)
    }
}

/// The buffer with the positions `a..b` turned into spaces.
pub open spec fn fill_spaces(buf: Seq<CharModel>, a: int, b: int) -> Seq<CharModel> {
    Seq::new(buf.len(), |j: int| if a <= j < b { CharModel::Space } else { buf[j] })
}

/// The number of lines of `v` that end after `p`.
pub open spec fn lines_ending_after(v: Seq<(int, int)>, p: int) -> nat
    decreases v.len(),
{
    if v.len() == 0 {
        0
    } else {
        lines_ending_after(v.drop_last(), p) + if v.last().1 > p {
            1nat
        } else {
            0nat
        }
    }
}

/// A screen position, moved to the start of the next row when it is one
/// past the last column (the same place on the screen).
pub open spec fn wrap_cursor(c: CursorPos, width: nat) -> CursorPos {
    if c.x == width {
        CursorPos { x: 0, y: (c.y + 1) as usize }
    } else {
        c
    }
}

/// Deleting up to `n` characters from position `p` of a line that ends at
/// `e`: the buffer after, and where the deletion ended. When the deletion
/// would reach past the line end and no line break follows it, one is put
/// there first, so that the next line does not move up.
pub open spec fn delete_forwards_result(b: Seq<CharModel>, p: int, e: int, n: int) -> (Seq<CharModel>, int) {
    let over = p + n > e;
    let b1 = if over && !(e < b.len() && b[e] == CharModel::NewLine) {
        splice(b, e, e, seq![CharModel::NewLine])
    } else {
        b
    };
    let end = if over {
        e
    } else {
        p + n
    };
    (splice(b1, p, end, Seq::empty()), end)
}

/// Inserting up to `num` spaces (no more than the width) at the cursor:
/// the buffer after, the positions written, and the positions inserted.
pub open spec fn insert_spaces_result(m: BufferModel, c: CursorPos, num: nat) -> (
    Seq<CharModel>,
    (int, int),
    (int, int),
) {
    let w = m.width;
    let n: int = if num < w {
        num as int
    } else {
        w as int
    };
    let b = m.buf;
    match cursor_buf_pos(visible_lines(b, w, m.height), c) {
        Some((p, line)) => {
            let room = w - (line.1 - line.0);
            let ins = if n < room {
                n
            } else {
                room
            };
            let ow = if n - ins < line.1 - p {
                n - ins
            } else {
                line.1 - p
            };
            (
                splice(fill_spaces(b, p, p + ow), p, p, repeat(CharModel::Space, ins as nat)),
                (p, p + ins + ow),
                (p, p + ins),
            )
        },
        None => {
            let pd = pad_for_write(b, w, m.height, c, n as nat);
            (pd.buf, (pd.write_idx, pd.write_idx + n), pd.inserted)
        },
    }
}

/// Why a clear failed.
#[derive(Debug, Clone, Copy, PartialEq, Eq, Structural)]
pub enum BufferError {
    /// Clearing moved the text under the cursor.
    CursorPositionChanged,
}

/// Fills the positions `a..b` with spaces.
fn fill_with_spaces(buf: &mut Vec<TChar>, a: usize, b: usize)
    requires
        a <= b <= old(buf)@.len(),
    ensures
        final(buf).deep_view() == fill_spaces(old(buf).deep_view(), a as int, b as int),
{
    let mut j = a;
    while j < b
        invariant
            a <= j <= b,
            b <= buf@.len(),
            buf@.len() == old(buf)@.len(),
            buf.deep_view() == fill_spaces(old(buf).deep_view(), a as int, j as int),
        decreases b - j,
    {
        let ghost pre = buf@;
        let ghost pre_dv = buf.deep_view();
        buf.set(j, TChar::Space);
        proof {
            lemma_set_deep_view(pre, buf@, j as int, TChar::Space);
        }
        assert(buf.deep_view() == pre_dv.update(j as int, CharModel::Space));
        j += 1;
        assert(buf.deep_view() =~= fill_spaces(old(buf).deep_view(), a as int, j as int));
    }
}

/// The visible lines lie within the buffer, hold at most `width`
/// characters, come in order, and there are at most `height` of them.
pub proof fn lemma_visible_lines(buf: Seq<CharModel>, width: nat, height: nat)
    requires
        width > 0,
    ensures
        ranges_within(visible_lines(buf, width, height), buf.len() as int),
        ranges_ordered(visible_lines(buf, width, height)),
        visible_lines(buf, width, height).len() <= height,
        forall|k: int|
            0 <= k < visible_lines(buf, width, height).len() ==> (#[trigger] visible_lines(
                buf,
                width,
                height,
            )[k]).1 - visible_lines(buf, width, height)[k].0 <= width,
{
    lemma_line_ranges_bounds(buf, width);
    lemma_lines_are_short_and_unbroken(buf, width);
    let all = line_ranges(buf, width);
    let v = visible_lines(buf, width, height);
    let off = all.len() - v.len();
    assert forall|k: int| 0 <= k < v.len() implies v[k] == all[k + off] by {}
    assert forall|k: int| 0 <= k < v.len() implies 0 <= (#[trigger] v[k]).0 <= v[k].1 <= buf.len()
        && v[k].1 - v[k].0 <= width by {
        assert(v[k] == all[k + off]);
    }
    assert forall|j: int, k: int| 0 <= j < k < v.len() implies (#[trigger] v[j]).1 <= (
    #[trigger] v[k]).0 by {
        assert(v[j] == all[j + off]);
        assert(v[k] == all[k + off]);
    }
}

impl TerminalBufferHolder {
    /// Resizes the screen. An unchanged size changes nothing and needs no
    /// condition. When the size changes, the buffer is first padded
    /// so that the cursor has a buffer position, and the cursor is moved to
    /// where that position is on the new screen.
    pub fn set_win_size(&mut self, width: usize, height: usize, cursor_pos: &CursorPos) -> (r:
        TerminalBufferSetWinSizeResponse)
        requires
            old(self)@.width != width || old(self)@.height != height ==> {
                &&& old(self)@.width > 0 || scan_fits(old(self)@.buf, old(self)@.width)
                &&& width > 0 || scan_fits(
                    pad_for_write(old(self)@.buf, old(self)@.width, old(self)@.height, *cursor_pos, 0).buf,
                    width as nat,
                )
                &&& write_fits(old(self)@.buf.len() as int, *cursor_pos, 0)
            },
        ensures
            if old(self)@.width == width && old(self)@.height == height {
                &&& final(self)@ == old(self)@
                &&& !r.changed
                &&& range_pair(r.insertion_range) == (0int, 0int)
                &&& r.new_cursor_pos == *cursor_pos
            } else {
                let p = pad_for_write(old(self)@.buf, old(self)@.width, old(self)@.height, *cursor_pos, 0);
                &&& final(self)@ == (BufferModel { buf: p.buf, width: width as nat, height: height as nat })
                &&& r.changed
                &&& range_pair(r.insertion_range) == p.inserted
                &&& r.new_cursor_pos == cursor_of_pos(p.buf, width as nat, height as nat, p.write_idx)
            },
    {
        let changed = self.width != width || self.height != height;
        if !changed {
            return TerminalBufferSetWinSizeResponse {
                changed: false,
                insertion_range: Range { start: 0, end: 0 },
                new_cursor_pos: *cursor_pos,
            };
        }
        let pad = pad_buffer_for_write(&mut self.buf, self.width, self.height, cursor_pos, 0);
        let new_cursor_pos = buf_to_cursor_pos(self.buf.as_slice(), width, height, pad.write_idx);
        self.width = width;
        self.height = height;
        TerminalBufferSetWinSizeResponse {
            changed,
            insertion_range: pad.inserted_padding,
            new_cursor_pos,
        }
    }

    /// Deletes up to `num_chars` characters from the cursor on, within its
    /// line. When the deletion would reach past a line that wrapped at the
    /// screen edge, a line break is put at its end first, so that the next
    /// line does not move up.
    pub fn delete_forwards(&mut self, cursor_pos: &CursorPos, num_chars: usize) -> (r: Option<Range<usize>>)
        requires
            old(self)@.width > 0,
        ensures
            match cursor_buf_pos(
                visible_lines(old(self)@.buf, old(self)@.width, old(self)@.height),
                *cursor_pos,
            ) {
                None => r is None && final(self)@ == old(self)@,
                Some((p, line)) => {
                    let d = delete_forwards_result(old(self)@.buf, p, line.1, num_chars as int);
                    &&& r matches Some(dr)
                    &&& range_pair(dr) == (p, d.1)
                    &&& final(self)@ == (BufferModel { buf: d.0, ..old(self)@ })
                },
            },
    {
        match cursor_to_buf_pos(self.buf.as_slice(), cursor_pos, self.width, self.height) {
            None => None,
            Some((buf_pos, line_range)) => {
                proof {
                    self.lemma_visible_within();
                }
                let e = line_range.end;
                let over = num_chars > e - buf_pos;
                if over && !(e < self.buf.len() && self.buf[e].is_newline()) {
                    let mut nl: Vec<TChar> = Vec::new();
                    nl.push(TChar::NewLine);
                    assert(nl.deep_view() =~= seq![CharModel::NewLine]);
                    splice_chars(&mut self.buf, e, e, nl.as_slice());
                }
                let end = if over {
                    e
                } else {
                    buf_pos + num_chars
                };
                let empty: Vec<TChar> = Vec::new();
                assert(empty.deep_view() =~= Seq::<CharModel>::empty());
                splice_chars(&mut self.buf, buf_pos, end, empty.as_slice());
                Some(Range { start: buf_pos, end })
            },
        }
    }

    /// Turns every character of the screen that is not a line break into a
    /// space, and reports the range from the start of the screen on.
    pub fn clear_visible(&mut self) -> (r: Range<usize>)
        requires
            old(self)@.width > 0 || scan_fits(old(self)@.buf, old(self)@.width),
            visible_lines(old(self)@.buf, old(self)@.width, old(self)@.height).len() > 0,
        ensures
            ({
                let start = visible_lines(old(self)@.buf, old(self)@.width, old(self)@.height)[0].0;
                &&& final(self)@ == (BufferModel { buf: blank_from(old(self)@.buf, start), ..old(self)@ })
                &&& r.start == start
                &&& r.end == usize::MAX
            }),
    {
        let all_lines = calc_line_ranges(self.buf.as_slice(), self.width);
        let visible = line_ranges_to_visible_line_ranges(all_lines.as_slice(), self.height);
        proof {
            lemma_pairs_visible(all_lines@, self.height as nat);
            self.lemma_visible_within();
        }
        let start = visible[0].start;
        assert(start == visible_lines(self@.buf, self@.width, self@.height)[0].0);
        let ghost b0 = self.buf.deep_view();
        let mut j = start;
        while j < self.buf.len()
            invariant
                start <= j <= self.buf@.len(),
                self.buf@.len() == b0.len(),
                b0 == old(self)@.buf,
                self.width == old(self).width,
                self.height == old(self).height,
                self.buf.deep_view() == Seq::new(
                    b0.len(),
                    |k: int|
                        if start <= k < j && b0[k] != CharModel::NewLine {
                            CharModel::Space
                        } else {
                            b0[k]
                        },
                ),
            decreases self.buf@.len() - j,
        {
            let ghost pre = self.buf@;
            let ghost pre_dv = self.buf.deep_view();
            if !self.buf[j].is_newline() {
                self.buf.set(j, TChar::Space);
                proof {
                    lemma_set_deep_view(pre, self.buf@, j as int, TChar::Space);
                }
                assert(self.buf.deep_view() == pre_dv.update(j as int, CharModel::Space));
            } else {
                assert(pre_dv[j as int] == CharModel::NewLine);
            }
            j += 1;
            assert(self.buf.deep_view() =~= Seq::new(
                b0.len(),
                |k: int|
                    if start <= k < j && b0[k] != CharModel::NewLine {
                        CharModel::Space
                    } else {
                        b0[k]
                    },
            ));
        }
        assert(self.buf.deep_view() =~= blank_from(b0, start as int));
        Range { start, end: usize::MAX }
    }
}

/// The row of a screen position that a buffer position maps to is a
/// visible row (or the top one).
proof fn lemma_cursor_of_pos_row(buf: Seq<CharModel>, width: nat, height: nat, pos: int)
    requires
        width > 0,
    ensures
        cursor_of_pos(buf, width, height, pos).y <= height,
{
    lemma_visible_lines(buf, width, height);
}

fn wrap_pos(pos: CursorPos, width: usize) -> (r: CursorPos)
    requires
        pos.y < usize::MAX,
    ensures
        r == wrap_cursor(pos, width as nat),
{
    if pos.x == width {
        CursorPos { x: 0, y: pos.y + 1 }
    } else {
        pos
    }
}

/// The lines that inserting `num` lines at the cursor row gives: the buffer
/// after, the range deleted (counted before the insertion) and the range
/// inserted. Lines that would be pushed off the bottom of the screen are
/// deleted, and a line break is added when the line above wrapped at the
/// screen edge.
pub open spec fn insert_lines_result(m: BufferModel, c: CursorPos, num: nat) -> (
    Seq<CharModel>,
    (int, int),
    (int, int),
) {
    let v = visible_lines(m.buf, m.width, m.height);
    if c.y >= v.len() {
        (m.buf, (0, 0), (0, 0))
    } else {
        let available = m.height - v.len();
        let n0 = if num < m.height - c.y {
            num as int
        } else {
            m.height - c.y
        };
        let cut = if n0 > available {
            v[v.len() - (n0 - available)].0
        } else {
            m.buf.len() as int
        };
        let b1 = m.buf.take(cut);
        let deleted = if n0 > available {
            (cut, m.buf.len() as int)
        } else {
            (0, 0)
        };
        let ins = v[c.y as int].0;
        let n = if ins > 0 && b1[ins - 1] != CharModel::NewLine {
            n0 + 1
        } else {
            n0
        };
        (splice(b1, ins, ins, repeat(CharModel::NewLine, n as nat)), deleted, (ins, ins + n))
    }
}

/// The ranges that inserting lines reports start no later than they end.
pub proof fn lemma_insert_lines_ranges(m: BufferModel, c: CursorPos, num: nat)
    requires
        m.width > 0,
    ensures
        insert_lines_result(m, c, num).1.0 <= insert_lines_result(m, c, num).1.1,
        insert_lines_result(m, c, num).2.0 <= insert_lines_result(m, c, num).2.1,
{
    lemma_visible_lines(m.buf, m.width, m.height);
}

/// The range that inserting spaces reports as inserted starts no later
/// than it ends.
pub proof fn lemma_insert_spaces_ranges(m: BufferModel, c: CursorPos, num: nat)
    requires
        m.width > 0,
    ensures
        insert_spaces_result(m, c, num).2.0 <= insert_spaces_result(m, c, num).2.1,
{
    lemma_visible_lines(m.buf, m.width, m.height);
}

impl TerminalBufferHolder {
    /// Inserts up to `num_spaces` spaces (no more than the width) at the
    /// cursor, without wrapping: spaces are inserted while the line has
    /// room, and the rest overwrite the line up to its end. A cursor on no
    /// character pads the buffer instead (see [`pad_for_write`]).
    pub fn insert_spaces(&mut self, cursor_pos: &CursorPos, num_spaces: usize) -> (r:
        TerminalBufferInsertResponse)
        requires
            old(self)@.width > 0,
            write_fits(old(self)@.buf.len() as int, *cursor_pos, old(self)@.width as int),
        ensures
            r.new_cursor_pos == *cursor_pos,
            r.left_over@.len() == 0,
            final(self)@ == (BufferModel {
                buf: insert_spaces_result(old(self)@, *cursor_pos, num_spaces as nat).0,
                ..old(self)@
            }),
            range_pair(r.written_range) == insert_spaces_result(
                old(self)@,
                *cursor_pos,
                num_spaces as nat,
            ).1,
            range_pair(r.insertion_range) == insert_spaces_result(
                old(self)@,
                *cursor_pos,
                num_spaces as nat,
            ).2,
    {
        let n = if num_spaces < self.width {
            num_spaces
        } else {
            self.width
        };
        proof {
            lemma_visible_lines(self@.buf, self@.width, self@.height);
        }
        match cursor_to_buf_pos(self.buf.as_slice(), cursor_pos, self.width, self.height) {
            Some((buf_pos, line_range)) => {
                let line_len = line_range.end - line_range.start;
                let room = self.width - line_len;
                let num_inserted = if n < room {
                    n
                } else {
                    room
                };
                let num_overwritten = if n - num_inserted < line_range.end - buf_pos {
                    n - num_inserted
                } else {
                    line_range.end - buf_pos
                };
                fill_with_spaces(&mut self.buf, buf_pos, buf_pos + num_overwritten);
                let mut spaces: Vec<TChar> = Vec::new();
                push_repeat(&mut spaces, num_inserted, &TChar::Space);
                splice_chars(&mut self.buf, buf_pos, buf_pos, spaces.as_slice());
                let used = num_inserted + num_overwritten;
                TerminalBufferInsertResponse {
                    written_range: Range { start: buf_pos, end: buf_pos + used },
                    insertion_range: Range { start: buf_pos, end: buf_pos + num_inserted },
                    new_cursor_pos: *cursor_pos,
                    left_over: Vec::new(),
                }
            },
            None => {
                let pad = pad_buffer_for_write(&mut self.buf, self.width, self.height, cursor_pos, n);
                TerminalBufferInsertResponse {
                    written_range: Range { start: pad.write_idx, end: pad.write_idx + n },
                    insertion_range: pad.inserted_padding,
                    new_cursor_pos: *cursor_pos,
                    left_over: Vec::new(),
                }
            },
        }
    }

    /// Inserts `num_lines` empty lines at the cursor row, as
    /// [`insert_lines_result`] says. The column is not used.
    pub fn insert_lines(&mut self, cursor_pos: &CursorPos, num_lines: usize) -> (r:
        TerminalBufferInsertLineResponse)
        requires
            old(self)@.width > 0,
            old(self)@.buf.len() + old(self)@.height + 1 <= usize::MAX,
        ensures
            final(self)@ == (BufferModel {
                buf: insert_lines_result(old(self)@, *cursor_pos, num_lines as nat).0,
                ..old(self)@
            }),
            range_pair(r.deleted_range) == insert_lines_result(
                old(self)@,
                *cursor_pos,
                num_lines as nat,
            ).1,
            range_pair(r.inserted_range) == insert_lines_result(
                old(self)@,
                *cursor_pos,
                num_lines as nat,
            ).2,
    {
        let all_lines = calc_line_ranges(self.buf.as_slice(), self.width);
        let visible = line_ranges_to_visible_line_ranges(all_lines.as_slice(), self.height);
        proof {
            lemma_pairs_visible(all_lines@, self.height as nat);
            lemma_visible_lines(self@.buf, self@.width, self@.height);
        }
        if cursor_pos.y >= visible.len() {
            assert(self.buf.deep_view().take(self.buf@.len() as int) =~= self.buf.deep_view());
            return TerminalBufferInsertLineResponse {
                deleted_range: Range { start: 0, end: 0 },
                inserted_range: Range { start: 0, end: 0 },
            };
        }
        let insertion_pos = visible[cursor_pos.y].start;
        let available_space = self.height - visible.len();
        let mut n = if num_lines < self.height - cursor_pos.y {
            num_lines
        } else {
            self.height - cursor_pos.y
        };
        let old_len = self.buf.len();
        let ghost b0 = self.buf.deep_view();
        let deleted_range = if n > available_space {
            let removed = n - available_space;
            let removal_start = visible[visible.len() - removed].start;
            self.buf.truncate(removal_start);
            assert(self.buf.deep_view() =~= b0.take(removal_start as int));
            Range { start: removal_start, end: old_len }
        } else {
            assert(self.buf.deep_view() =~= b0.take(old_len as int));
            Range { start: 0, end: 0 }
        };
        if insertion_pos > 0 && !self.buf[insertion_pos - 1].is_newline() {
            n = n + 1;
        }
        let mut lines: Vec<TChar> = Vec::new();
        push_repeat(&mut lines, n, &TChar::NewLine);
        splice_chars(&mut self.buf, insertion_pos, insertion_pos, lines.as_slice());
        TerminalBufferInsertLineResponse {
            deleted_range,
            inserted_range: Range { start: insertion_pos, end: insertion_pos + n },
        }
    }
}

/// What clearing from the cursor to the end of the screen leaves: the
/// buffer cut at the cursor, a line break when the cut fell at the start of
/// a wrapped line or on a line break, and one line break for each visible
/// line that reached past the cursor, so that the screen keeps its lines.
pub open spec fn clear_forwards_buf(b: Seq<CharModel>, v: Seq<(int, int)>, c: CursorPos, p: int) -> Seq<CharModel> {
    let t = b.take(p);
    let extra = (c.x == 0 && p > 0 && t[p - 1] != CharModel::NewLine) || b[p] == CharModel::NewLine;
    let b1 = if extra {
        t.push(CharModel::NewLine)
    } else {
        t
    };
    b1 + repeat(CharModel::NewLine, lines_ending_after(v, p))
}

/// What clearing from the start of the screen to the cursor leaves: the
/// characters from the first visible line up to the cursor turned into
/// spaces.
pub open spec fn clear_backwards_fill(b: Seq<CharModel>, v: Seq<(int, int)>, p: int) -> Seq<CharModel> {
    if v[0].0 < p {
        fill_spaces(b, v[0].0, p)
    } else {
        b
    }
}

/// The same, with a line break added when the cursor was at the start of
/// a wrapped line or on a line break.
pub open spec fn clear_backwards_buf(b: Seq<CharModel>, v: Seq<(int, int)>, c: CursorPos, p: int) -> Seq<CharModel> {
    let b1 = clear_backwards_fill(b, v, p);
    let extra = (c.x == 0 && p > 0 && b1[p - 1] != CharModel::NewLine) || b[p] == CharModel::NewLine;
    if extra {
        b1.push(CharModel::NewLine)
    } else {
        b1
    }
}

impl TerminalBufferHolder {
    /// Clears from the cursor to the end of the screen (see
    /// [`clear_forwards_buf`]), and reports the buffer position cleared
    /// from. `Ok(None)`, and nothing cleared, when the cursor is on no
    /// character; an error when the clear moved the cursor's place.
    pub fn clear_forwards(&mut self, cursor_pos: &CursorPos) -> (r: Result<Option<usize>, BufferError>)
        requires
            old(self)@.width > 0,
            old(self)@.buf.len() + old(self)@.height + 1 <= usize::MAX,
            cursor_buf_pos(visible_lines(old(self)@.buf, old(self)@.width, old(self)@.height), *cursor_pos)
                matches Some((p, _)) ==> p < old(self)@.buf.len(),
        ensures
            ({
                let m = old(self)@;
                let v = visible_lines(m.buf, m.width, m.height);
                match cursor_buf_pos(v, *cursor_pos) {
                    None => r == Ok::<Option<usize>, BufferError>(None) && final(self)@ == m,
                    Some((p, _)) => {
                        let nb = clear_forwards_buf(m.buf, v, *cursor_pos, p);
                        let pos = wrap_cursor(cursor_of_pos(nb, m.width, m.height, p), m.width);
                        &&& final(self)@ == (BufferModel { buf: nb, ..m })
                        &&& pos == *cursor_pos ==> r == Ok::<Option<usize>, BufferError>(Some(p as usize))
                        &&& pos != *cursor_pos ==> r == Err::<Option<usize>, BufferError>(
                            BufferError::CursorPositionChanged,
                        )
                    },
                }
            }),
    {
        let all_lines = calc_line_ranges(self.buf.as_slice(), self.width);
        let visible = line_ranges_to_visible_line_ranges(all_lines.as_slice(), self.height);
        proof {
            lemma_pairs_visible(all_lines@, self.height as nat);
            lemma_visible_lines(self@.buf, self@.width, self@.height);
        }
        let ghost v = visible_lines(self@.buf, self@.width, self@.height);
        let ghost b0 = self@.buf;
        let buf_pos = match cursor_to_buf_pos_from_visible_line_ranges(cursor_pos, visible) {
            None => {
                return Ok(None);
            },
            Some((p, _)) => p,
        };
        let previous_was_newline = self.buf[buf_pos].is_newline();
        self.buf.truncate(buf_pos);
        assert(self.buf.deep_view() =~= b0.take(buf_pos as int));
        if (cursor_pos.x == 0 && buf_pos > 0 && !self.buf[buf_pos - 1].is_newline())
            || previous_was_newline {
            let ghost pre = self.buf.deep_view();
            self.buf.push(TChar::NewLine);
            assert(self.buf.deep_view() =~= pre.push(CharModel::NewLine));
        }
        let ghost b1 = self.buf.deep_view();
        let mut k: usize = 0;
        while k < visible.len()
            invariant
                k <= visible@.len(),
                v == pairs(visible@),
                v.len() <= old(self)@.height,
                self.buf.deep_view() == b1 + repeat(CharModel::NewLine, lines_ending_after(v.take(k as int), buf_pos as int)),
                self.buf@.len() <= b0.len() + 1 + k,
                self.width == old(self).width,
                self.height == old(self).height,
                b0.len() + old(self)@.height + 1 <= usize::MAX,
            decreases visible@.len() - k,
        {
            let ghost pre = self.buf.deep_view();
            assert(v.take(k + 1).drop_last() =~= v.take(k as int));
            if visible[k].end > buf_pos {
                self.buf.push(TChar::NewLine);
                assert(self.buf.deep_view() =~= pre.push(CharModel::NewLine));
            }
            k += 1;
            assert(self.buf.deep_view() =~= b1 + repeat(CharModel::NewLine, lines_ending_after(v.take(k as int), buf_pos as int)));
        }
        assert(v.take(v.len() as int) =~= v);
        proof {
            lemma_cursor_of_pos_row(self@.buf, self@.width, self@.height, buf_pos as int);
        }
        let pos = wrap_pos(buf_to_cursor_pos(self.buf.as_slice(), self.width, self.height, buf_pos), self.width);
        if pos != *cursor_pos {
            return Err(BufferError::CursorPositionChanged);
        }
        Ok(Some(buf_pos))
    }

    /// Clears from the start of the screen to the cursor (see
    /// [`clear_backwards_buf`]), and reports the range from the start of the
    /// cursor's line to the cursor. `Ok(None)`, and nothing cleared, when
    /// the cursor is on no character; an error when the clear moved the
    /// cursor's place.
    pub fn clear_backwards(&mut self, cursor_pos: &CursorPos) -> (r: Result<Option<Range<usize>>, BufferError>)
        requires
            old(self)@.width > 0,
            old(self)@.buf.len() + old(self)@.height + 1 <= usize::MAX,
            cursor_buf_pos(visible_lines(old(self)@.buf, old(self)@.width, old(self)@.height), *cursor_pos)
                matches Some((p, _)) ==> p < old(self)@.buf.len(),
        ensures
            ({
                let m = old(self)@;
                let v = visible_lines(m.buf, m.width, m.height);
                match cursor_buf_pos(v, *cursor_pos) {
                    None => r matches Ok(None) && final(self)@ == m,
                    Some((p, line)) => {
                        let nb = clear_backwards_buf(m.buf, v, *cursor_pos, p);
                        let pos = wrap_cursor(
                            cursor_of_pos(clear_backwards_fill(m.buf, v, p), m.width, m.height, p),
                            m.width,
                        );
                        &&& final(self)@ == (BufferModel { buf: nb, ..m })
                        &&& pos == *cursor_pos ==> (r matches Ok(Some(d)) && range_pair(d) == (line.0, p))
                        &&& pos != *cursor_pos ==> r matches Err(BufferError::CursorPositionChanged)
                    },
                }
            }),
    {
        let all_lines = calc_line_ranges(self.buf.as_slice(), self.width);
        let visible = line_ranges_to_visible_line_ranges(all_lines.as_slice(), self.height);
        proof {
            lemma_pairs_visible(all_lines@, self.height as nat);
            lemma_visible_lines(self@.buf, self@.width, self@.height);
        }
        let ghost v = visible_lines(self@.buf, self@.width, self@.height);
        let ghost b0 = self@.buf;
        let (buf_pos, line_start) = match cursor_to_buf_pos_from_visible_line_ranges(cursor_pos, visible) {
            None => {
                return Ok(None);
            },
            Some((p, line)) => (p, line.start),
        };
        let previous_was_newline = self.buf[buf_pos].is_newline();
        let first_start = visible[0].start;
        if first_start < buf_pos {
            fill_with_spaces(&mut self.buf, first_start, buf_pos);
        }
        proof {
            lemma_cursor_of_pos_row(self@.buf, self@.width, self@.height, buf_pos as int);
        }
        let pos = wrap_pos(buf_to_cursor_pos(self.buf.as_slice(), self.width, self.height, buf_pos), self.width);
        if (cursor_pos.x == 0 && buf_pos > 0 && !self.buf[buf_pos - 1].is_newline())
            || previous_was_newline {
            let ghost pre = self.buf.deep_view();
            self.buf.push(TChar::NewLine);
            assert(self.buf.deep_view() =~= pre.push(CharModel::NewLine));
        }
        if pos != *cursor_pos {
            return Err(BufferError::CursorPositionChanged);
        }
        Ok(Some(Range { start: line_start, end: buf_pos }))
    }
}

impl TerminalBufferHolder {
    /// How many characters the buffer holds.
    pub fn len(&self) -> (r: usize)
        ensures
            r == self@.buf.len(),
    {
        self.buf.len()
    }

    /// The buffer position under a screen position, if the screen shows a
    /// character (or a line end) there.
    pub fn buf_pos_of(&self, cursor_pos: &CursorPos) -> (r: Option<usize>)
        requires
            self@.width > 0,
        ensures
            match cursor_buf_pos(visible_lines(self@.buf, self@.width, self@.height), *cursor_pos) {
                Some((p, _)) => r == Some(p as usize),
                None => r is None,
            },
    {
        match cursor_to_buf_pos(self.buf.as_slice(), cursor_pos, self.width, self.height) {
            Some((p, _)) => Some(p),
            None => None,
        }
    }

    /// Whether the screen shows at least one line.
    pub fn has_visible_lines(&self) -> (r: bool)
        requires
            self@.width > 0,
        ensures
            r == (visible_lines(self@.buf, self@.width, self@.height).len() > 0),
    {
        let all_lines = calc_line_ranges(self.buf.as_slice(), self.width);
        let visible = line_ranges_to_visible_line_ranges(all_lines.as_slice(), self.height);
        proof {
            lemma_pairs_visible(all_lines@, self.height as nat);
        }
        visible.len() > 0
    }
}

} // verus!
