use vstd::prelude::*;

use crate::error::ParserFailures;

verus! {

/// Where a control sequence parser stands.
#[derive(Clone, Copy, Debug, PartialEq, Eq, Structural)]
pub enum AnsiCsiParserState {
    /// Reading parameter bytes.
    Params,
    /// Reading intermediate bytes.
    Intermediates,
    /// The sequence ended with the given final byte.
    Finished(u8),
    /// The sequence is malformed; its final byte has not come yet.
    Invalid,
    /// The malformed sequence has ended.
    InvalidFinished,
}

/// A parser of one control sequence (`ESC [` ... final byte), fed a byte at
/// a time.
#[derive(Debug, Clone, PartialEq, Eq)]
pub struct AnsiCsiParser {
    pub state: AnsiCsiParserState,
    pub params: Vec<u8>,
    pub intermediates: Vec<u8>,
}

/// The mathematical value of an [`AnsiCsiParser`].
pub ghost struct CsiModel {
    pub state: AnsiCsiParserState,
    pub params: Seq<u8>,
    pub intermediates: Seq<u8>,
}

impl View for AnsiCsiParser {
    type V = CsiModel;

    open spec fn view(&self) -> CsiModel {
        CsiModel { state: self.state, params: self.params@, intermediates: self.intermediates@ }
    }
}

/// A parameter byte: `0`..`?` (0x30..=0x3f).
pub open spec fn is_param_byte(b: u8) -> bool {
    0x30 <= b <= 0x3f
}

/// An intermediate byte: space..`/` (0x20..=0x2f).
pub open spec fn is_intermediate_byte(b: u8) -> bool {
    0x20 <= b <= 0x2f
}

/// A final byte: `@`..`~` (0x40..=0x7e).
pub open spec fn is_final_byte(b: u8) -> bool {
    0x40 <= b <= 0x7e
}

/// Whether a parser in state `s` has seen the end of its sequence.
pub open spec fn csi_is_done(s: AnsiCsiParserState) -> bool {
    s is Finished || s is InvalidFinished
}

/// The parser after one more byte `b`, for a parser that is not done.
pub open spec fn csi_step(m: CsiModel, b: u8) -> CsiModel {
    match m.state {
        AnsiCsiParserState::Params => if is_param_byte(b) {
            CsiModel { params: m.params.push(b), ..m }
        } else if is_intermediate_byte(b) {
            CsiModel {
                state: AnsiCsiParserState::Intermediates,
                intermediates: m.intermediates.push(b),
                ..m
            }
        } else if is_final_byte(b) {
            CsiModel { state: AnsiCsiParserState::Finished(b), ..m }
        } else {
            CsiModel { state: AnsiCsiParserState::Invalid, ..m }
        },
        AnsiCsiParserState::Intermediates => if is_param_byte(b) {
            CsiModel { state: AnsiCsiParserState::Invalid, ..m }
        } else if is_intermediate_byte(b) {
            CsiModel { intermediates: m.intermediates.push(b), ..m }
        } else if is_final_byte(b) {
            CsiModel { state: AnsiCsiParserState::Finished(b), ..m }
        } else {
            CsiModel { state: AnsiCsiParserState::Invalid, ..m }
        },
        AnsiCsiParserState::Invalid => if is_final_byte(b) {
            CsiModel { state: AnsiCsiParserState::InvalidFinished, ..m }
        } else {
            m
        },
        _ => m,
    }
}

/// The parser after a run of bytes, each fed in turn.
pub open spec fn csi_run(m: CsiModel, bytes: Seq<u8>) -> CsiModel
    decreases bytes.len(),
{
    if bytes.len() == 0 {
        m
    } else {
        csi_step(csi_run(m, bytes.drop_last()), bytes.last())
    }
}

/// A parser that has read nothing.
pub open spec fn csi_initial() -> CsiModel {
    CsiModel {
        state: AnsiCsiParserState::Params,
        params: Seq::empty(),
        intermediates: Seq::empty(),
    }
}

fn is_csi_param(b: u8) -> (r: bool)
    ensures
        r == is_param_byte(b),
{
    0x30 <= b && b <= 0x3f
}

fn is_csi_intermediate(b: u8) -> (r: bool)
    ensures
        r == is_intermediate_byte(b),
{
    0x20 <= b && b <= 0x2f
}

fn is_csi_terminator(b: u8) -> (r: bool)
    ensures
        r == is_final_byte(b),
{
    0x40 <= b && b <= 0x7e
}

impl AnsiCsiParser {
    /// A parser that has read nothing.
    pub fn new() -> (r: Self)
        ensures
            r@ == csi_initial(),
    {
        AnsiCsiParser {
            state: AnsiCsiParserState::Params,
            params: Vec::new(),
            intermediates: Vec::new(),
        }
    }

    /// Feeds one byte. A parser that has seen the end of its sequence takes
    /// no more bytes and reports so.
    pub fn push(&mut self, b: u8) -> (r: Result<(), ParserFailures>)
        ensures
            csi_is_done(old(self)@.state) ==> r == Err::<(), ParserFailures>(
                ParserFailures::ParsedPushedToOnceFinished,
            ) && final(self)@ == old(self)@,
            !csi_is_done(old(self)@.state) ==> r is Ok && final(self)@ == csi_step(old(self)@, b),
    {
        match self.state {
            AnsiCsiParserState::Params => {
                if is_csi_param(b) {
                    self.params.push(b);
                } else if is_csi_intermediate(b) {
                    self.intermediates.push(b);
                    self.state = AnsiCsiParserState::Intermediates;
                } else if is_csi_terminator(b) {
                    self.state = AnsiCsiParserState::Finished(b);
                } else {
                    self.state = AnsiCsiParserState::Invalid;
                }
            },
            AnsiCsiParserState::Intermediates => {
                if is_csi_param(b) {
                    self.state = AnsiCsiParserState::Invalid;
                } else if is_csi_intermediate(b) {
                    self.intermediates.push(b);
                } else if is_csi_terminator(b) {
                    self.state = AnsiCsiParserState::Finished(b);
                } else {
                    self.state = AnsiCsiParserState::Invalid;
                }
            },
            AnsiCsiParserState::Invalid => {
                if is_csi_terminator(b) {
                    self.state = AnsiCsiParserState::InvalidFinished;
                }
            },
            AnsiCsiParserState::Finished(_) | AnsiCsiParserState::InvalidFinished => {
                return Err(ParserFailures::ParsedPushedToOnceFinished);
            },
        }
        Ok(())
    }
}

/// Every byte that a parser keeps as a parameter is a parameter byte, and
/// every byte it keeps as an intermediate is an intermediate byte.
pub open spec fn csi_wf(m: CsiModel) -> bool {
    &&& forall|i: int| 0 <= i < m.params.len() ==> is_param_byte(#[trigger] m.params[i])
    &&& forall|i: int|
        0 <= i < m.intermediates.len() ==> is_intermediate_byte(#[trigger] m.intermediates[i])
}

/// Whatever bytes a fresh parser is fed, it keeps parameter bytes as
/// parameters and intermediate bytes as intermediates.
pub proof fn lemma_csi_run_wf(bytes: Seq<u8>)
    ensures
        csi_wf(csi_run(csi_initial(), bytes)),
    decreases bytes.len(),
{
    if bytes.len() > 0 {
        lemma_csi_run_wf(bytes.drop_last());
    }
}

/// Once a parser has seen the end of its sequence, further bytes leave it as
/// it is.
pub proof fn lemma_csi_done_is_stable(m: CsiModel, bytes: Seq<u8>)
    requires
        csi_is_done(m.state),
    ensures
        csi_run(m, bytes) == m,
    decreases bytes.len(),
{
    if bytes.len() > 0 {
        lemma_csi_done_is_stable(m, bytes.drop_last());
    }
}

} // verus!
