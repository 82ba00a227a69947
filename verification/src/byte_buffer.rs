use std::ops::Range;
use vstd::prelude::*;
use vstd::string::StrSliceExecFns;
use vstd::utf8::{decode_utf8, valid_utf8};

use crate::buffer::pairs;
use crate::utf8::string_from_utf8;

verus! {

/// Whether the bytes `start..i` of `b` make a full line: they are UTF-8 and
/// hold at least `width` characters.
pub open spec fn full_line(b: Seq<u8>, start: int, i: int, width: nat) -> bool {
    &&& valid_utf8(b.subrange(start, i))
    &&& decode_utf8(b.subrange(start, i)).len() >= width
}

/// Scanning raw bytes for lines: the lines closed so far and where the
/// current line starts. A line break closes the line (and is in no line);
/// a byte that comes when the line already spans `width` bytes starts a
/// new line when the bytes so far are UTF-8 text of at least `width`
/// characters.
pub open spec fn byte_line_scan(b: Seq<u8>, width: nat) -> (Seq<(int, int)>, int)
    decreases b.len(),
{
    if b.len() == 0 {
        (Seq::empty(), 0)
    } else {
        let prev = byte_line_scan(b.drop_last(), width);
        let i = b.len() - 1;
        let start = prev.1;
        if b[i] == 10 {
            (prev.0.push((start, i)), i + 1)
        } else if i - start >= width && full_line(b, start, i, width) {
            (prev.0.push((start, i)), i)
        } else {
            prev
        }
    }
}

/// The lines of a byte buffer: those the scan closed, and the rest of the
/// buffer when it is not empty.
pub open spec fn byte_line_ranges(b: Seq<u8>, width: nat) -> Seq<(int, int)> {
    let s = byte_line_scan(b, width);
    if b.len() > s.1 {
        s.0.push((s.1, b.len() as int))
    } else {
        s.0
    }
}

proof fn lemma_byte_line_scan_start(b: Seq<u8>, width: nat)
    ensures
        0 <= byte_line_scan(b, width).1 <= b.len(),
    decreases b.len(),
{
    if b.len() > 0 {
        lemma_byte_line_scan_start(b.drop_last(), width);
    }
}

/// Copies the bytes `a..e` of `buf`.
fn copy_bytes(buf: &[u8], a: usize, e: usize) -> (r: Vec<u8>)
    requires
        a <= e <= buf@.len(),
    ensures
        r@ == buf@.subrange(a as int, e as int),
{
    let mut r: Vec<u8> = Vec::new();
    let mut k = a;
    while k < e
        invariant
            a <= k <= e,
            e <= buf@.len(),
            r@ == buf@.subrange(a as int, k as int),
        decreases e - k,
    {
        r.push(buf[k]);
        k += 1;
        assert(r@ =~= buf@.subrange(a as int, k as int));
    }
    r
}

/// Whether the bytes `a..e` of `buf` are UTF-8 text of at least `width`
/// characters.
fn is_full_line(buf: &[u8], a: usize, e: usize, width: usize) -> (r: bool)
    requires
        a <= e <= buf@.len(),
    ensures
        r == full_line(buf@, a as int, e as int, width as nat),
{
    match string_from_utf8(copy_bytes(buf, a, e)) {
        Some(text) => text.as_str().unicode_len() >= width,
        None => false,
    }
}

/// The start and end of each line of a raw UTF-8 byte buffer for a screen
/// `width` characters wide (see [`byte_line_ranges`]). Ranges do not
/// include line breaks.
pub fn calc_line_ranges(buf: &[u8], width: usize) -> (ret: Vec<Range<usize>>)
    ensures
        pairs(ret@) == byte_line_ranges(buf@, width as nat),
{
    let ghost b = buf@;
    let mut ret: Vec<Range<usize>> = Vec::new();
    let mut current_start: usize = 0;
    let mut i: usize = 0;
    proof {
        assert(b.take(0) =~= Seq::<u8>::empty());
        assert(pairs(ret@) =~= Seq::<(int, int)>::empty());
    }
    while i < buf.len()
        invariant
            i <= b.len(),
            b == buf@,
            pairs(ret@) == byte_line_scan(b.take(i as int), width as nat).0,
            current_start as int == byte_line_scan(b.take(i as int), width as nat).1,
        decreases b.len() - i,
    {
        let ghost t = b.take(i + 1);
        assert(t.drop_last() =~= b.take(i as int));
        proof {
            lemma_byte_line_scan_start(b.take(i as int), width as nat);
        }
        assert(t[i as int] == buf[i as int]);
        let ghost before = ret@;
        if buf[i] == 10 {
            ret.push(Range { start: current_start, end: i });
            assert(pairs(ret@) =~= pairs(before).push((current_start as int, i as int)));
            current_start = i + 1;
        } else if i - current_start >= width {
            assert(t.subrange(current_start as int, i as int) =~= b.subrange(
                current_start as int,
                i as int,
            ));
            if is_full_line(buf, current_start, i, width) {
                ret.push(Range { start: current_start, end: i });
                assert(pairs(ret@) =~= pairs(before).push((current_start as int, i as int)));
                current_start = i;
            }
        }
        i += 1;
    }
    assert(b.take(b.len() as int) =~= b);
    proof {
        lemma_byte_line_scan_start(b, width as nat);
    }
    if buf.len() > current_start {
        let ghost before = ret@;
        ret.push(Range { start: current_start, end: buf.len() });
        assert(pairs(ret@) =~= pairs(before).push((current_start as int, b.len() as int)));
    }
    ret
}

} // verus!
