use vstd::prelude::*;
use vstd::slice::slice_to_vec;
use vstd::utf8::{decode_utf8, valid_utf8};

use crate::utf8::string_from_utf8;

verus! {

/// A terminal mode that `CSI ... h` sets and `CSI ... l` resets.
#[derive(Debug, Clone, PartialEq, Eq)]
pub enum Mode {
    /// Cursor keys mode (DECCKM).
    Decckm,
    /// Autowrap mode (DECAWM).
    Decawm,
    /// Bracketed paste mode.
    BracketedPaste,
    /// A mode that is not supported, with the parameters that named it.
    Unknown(Vec<u8>),
}

/// The mathematical value of a [`Mode`].
pub ghost enum ModeModel {
    Decckm,
    Decawm,
    BracketedPaste,
    Unknown(Seq<u8>),
}

impl DeepView for Mode {
    type V = ModeModel;

    open spec fn deep_view(&self) -> ModeModel {
        match self {
            Mode::Decckm => ModeModel::Decckm,
            Mode::Decawm => ModeModel::Decawm,
            Mode::BracketedPaste => ModeModel::BracketedPaste,
            Mode::Unknown(v) => ModeModel::Unknown(v@),
        }
    }
}

/// Cursor Key Mode (DECCKM)
#[derive(Clone, Copy, Debug, PartialEq, Eq, Structural)]
pub enum Decckm {
    Ansi,
    Application,
}

impl Default for Decckm {
    fn default() -> (r: Self)
        ensures
            r == Decckm::Ansi,
    {
        Decckm::Ansi
    }
}

/// Autowrap Mode (DECAWM)
#[derive(Clone, Copy, Debug, PartialEq, Eq, Structural)]
pub enum Decawm {
    NoAutoWrap,
    AutoWrap,
}

impl Default for Decawm {
    fn default() -> (r: Self)
        ensures
            r == Decawm::NoAutoWrap,
    {
        Decawm::NoAutoWrap
    }
}

/// Bracketed paste mode.
#[derive(Clone, Copy, Debug, PartialEq, Eq, Structural)]
pub enum BracketedPaste {
    Disabled,
    Enabled,
}

impl Default for BracketedPaste {
    fn default() -> (r: Self)
        ensures
            r == BracketedPaste::Disabled,
    {
        BracketedPaste::Disabled
    }
}

/// The cursor key and autowrap modes of a terminal.
#[derive(Clone, Copy, Debug, PartialEq, Eq, Structural)]
pub struct Modes {
    pub cursor_key_mode: Decckm,
    pub autowrap_mode: Decawm,
}

/// The modes that the playback engine tracks.
#[derive(Clone, Copy, Debug, PartialEq, Eq, Structural)]
pub struct TerminalModes {
    pub cursor_key: Decckm,
    pub bracketed_paste: BracketedPaste,
}

/// The mode that the parameters of a set or reset mode sequence name:
/// `?1` is DECCKM, `?7` is DECAWM, `?2004` is bracketed paste.
pub open spec fn mode_of_params(params: Seq<u8>) -> ModeModel {
    if params == seq![63u8, 49u8] {
        ModeModel::Decckm
    } else if params == seq![63u8, 55u8] {
        ModeModel::Decawm
    } else if params == seq![63u8, 50u8, 48u8, 48u8, 52u8] {
        ModeModel::BracketedPaste
    } else {
        ModeModel::Unknown(params)
    }
}

/// Reads the mode that the parameters of a set or reset mode sequence name.
pub fn mode_from_params(params: &[u8]) -> (r: Mode)
    ensures
        r.deep_view() == mode_of_params(params@),
{
    if params.len() == 2 && params[0] == 63u8 && params[1] == 49u8 {
        assert(params@ =~= seq![63u8, 49u8]);
        Mode::Decckm
    } else if params.len() == 2 && params[0] == 63u8 && params[1] == 55u8 {
        assert(params@ =~= seq![63u8, 55u8]);
        Mode::Decawm
    } else if params.len() == 5 && params[0] == 63u8 && params[1] == 50u8 && params[2] == 48u8
        && params[3] == 48u8 && params[4] == 52u8 {
        assert(params@ =~= seq![63u8, 50u8, 48u8, 48u8, 52u8]);
        Mode::BracketedPaste
    } else {
        proof {
            if params@ == seq![63u8, 49u8] {
                assert(params@[0] == 63u8 && params@[1] == 49u8);
            }
            if params@ == seq![63u8, 55u8] {
                assert(params@[0] == 63u8 && params@[1] == 55u8);
            }
            if params@ == seq![63u8, 50u8, 48u8, 48u8, 52u8] {
                assert(params@[0] == 63u8 && params@[1] == 50u8 && params@[2] == 48u8
                    && params@[3] == 48u8 && params@[4] == 52u8);
            }
        }
        Mode::Unknown(slice_to_vec(params))
    }
}

/// A mode as `{:?}` writes it; an unsupported mode shows its parameters as
/// text.
pub open spec fn mode_text(m: ModeModel) -> Seq<char> {
    match m {
        ModeModel::Decckm => "Decckm"@,
        ModeModel::Decawm => "Decawm"@,
        ModeModel::BracketedPaste => "BracketedPaste"@,
        ModeModel::Unknown(p) => "Unknown("@ + decode_utf8(p) + ")"@,
    }
}

/// Whether a mode can be written as text: the parameters of an unsupported
/// mode must be UTF-8.
pub open spec fn mode_printable(m: ModeModel) -> bool {
    m matches ModeModel::Unknown(p) ==> valid_utf8(p)
}

impl Mode {
    /// The mode as `{:?}` writes it (see [`mode_text`]).
    pub fn to_debug_string(&self) -> (s: String)
        requires
            mode_printable(self.deep_view()),
        ensures
            s@ == mode_text(self.deep_view()),
    {
        match self {
            Mode::Decckm => String::from_str("Decckm"),
            Mode::Decawm => String::from_str("Decawm"),
            Mode::BracketedPaste => String::from_str("BracketedPaste"),
            Mode::Unknown(params) => {
                let mut s = String::from_str("Unknown(");
                match string_from_utf8(params.clone()) {
                    Some(text) => s.append(text.as_str()),
                    None => {},
                }
                s.append(")");
                s
            },
        }
    }
}

/// The parameter text of a DEC private mode: `?` and the mode's number in
/// decimal.
pub open spec fn dec_private_mode_text(digits: Seq<char>) -> Seq<u8> {
    seq!['?' as u8] + digits.map_values(|c: char| c as u8)
}

/// The three DEC private modes that the terminal knows, each named by its
/// number: cursor keys (1), autowrap (7) and bracketed paste (2004). Each is
/// named by that text alone; any other parameter text is an unknown mode
/// that keeps the text.
pub proof fn lemma_dec_private_mode_numbers(params: Seq<u8>)
    ensures
        mode_of_params(dec_private_mode_text(seq!['1'])) == ModeModel::Decckm,
        mode_of_params(dec_private_mode_text(seq!['7'])) == ModeModel::Decawm,
        mode_of_params(dec_private_mode_text(seq!['2', '0', '0', '4'])) == ModeModel::BracketedPaste,
        mode_of_params(params) == ModeModel::Decckm <==> params == dec_private_mode_text(seq!['1']),
        mode_of_params(params) == ModeModel::Decawm <==> params == dec_private_mode_text(seq!['7']),
        mode_of_params(params) == ModeModel::BracketedPaste <==> params == dec_private_mode_text(
            seq!['2', '0', '0', '4'],
        ),
        mode_of_params(params) is Unknown ==> mode_of_params(params) == ModeModel::Unknown(params),
{
    assert(dec_private_mode_text(seq!['1']) =~= seq![63u8, 49u8]);
    assert(dec_private_mode_text(seq!['7']) =~= seq![63u8, 55u8]);
    assert(dec_private_mode_text(seq!['2', '0', '0', '4']) =~= seq![63u8, 50u8, 48u8, 48u8, 52u8]);
}

} // verus!
