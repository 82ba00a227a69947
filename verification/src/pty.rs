use vstd::prelude::*;

use crate::text::{append_decimal, decimal_text};

verus! {

/// The size of the terminal as the child process sees it.
#[derive(Debug, Clone, PartialEq, Eq, Structural)]
pub struct TerminalSize {
    pub rows: usize,
    pub cols: usize,
    pub pixel_width: usize,
    pub pixel_height: usize,
}

impl Default for TerminalSize {
    /// Twenty-four rows of eighty columns, with no size in pixels.
    fn default() -> (r: Self)
        ensures
            r.rows == 24,
            r.cols == 80,
            r.pixel_width == 0,
            r.pixel_height == 0,
    {
        TerminalSize { rows: 24, cols: 80, pixel_width: 0, pixel_height: 0 }
    }
}

/// What the writer side of the terminal's process is asked to do: send
/// bytes, or tell the process about a new size.
#[derive(Debug)]
pub enum TerminalWriteCommand {
    Write(Vec<u8>),
    Resize(TerminalSize),
}

/// How bytes read from the terminal are kept in a recording: each byte in
/// decimal, followed by a comma.
pub open spec fn recording_text(data: Seq<u8>) -> Seq<char>
    decreases data.len(),
{
    if data.len() == 0 {
        Seq::empty()
    } else {
        recording_text(data.drop_last()) + decimal_text(data.last() as nat) + ","@
    }
}

/// The text that records bytes read from the terminal (see
/// [`recording_text`]).
pub fn recording_entry(data: &[u8]) -> (r: String)
    ensures
        r@ == recording_text(data@),
{
    let mut r = String::new();
    let mut i: usize = 0;
    proof {
        assert(data@.take(0) =~= Seq::<u8>::empty());
    }
    while i < data.len()
        invariant
            i <= data@.len(),
            r@ == recording_text(data@.take(i as int)),
        decreases data@.len() - i,
    {
        append_decimal(&mut r, data[i] as u64);
        r.append(",");
        proof {
            assert(data@.take(i + 1).drop_last() =~= data@.take(i as int));
        }
        i += 1;
    }
    proof {
        assert(data@.take(data@.len() as int) =~= data@);
    }
    r
}

} // verus!
