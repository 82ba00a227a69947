use vstd::prelude::*;

use crate::error::ParserFailures;
use vstd::utf8::valid_utf8;

use crate::utf8::utf8_is_valid;

verus! {

/// One cell of terminal text: a single byte, a multi-byte grapheme, a space or
/// a line break.
#[derive(Debug, Clone, PartialEq, Eq)]
pub enum TChar {
    Ascii(u8),
    Utf8(Vec<u8>),
    Space,
    NewLine,
}

/// The mathematical value of a [`TChar`].
pub ghost enum CharModel {
    Ascii(u8),
    Utf8(Seq<u8>),
    Space,
    NewLine,
}

impl DeepView for TChar {
    type V = CharModel;

    open spec fn deep_view(&self) -> CharModel {
        match self {
            TChar::Ascii(c) => CharModel::Ascii(*c),
            TChar::Utf8(v) => CharModel::Utf8(v@),
            TChar::Space => CharModel::Space,
            TChar::NewLine => CharModel::NewLine,
        }
    }
}

/// The character that a single byte stands for: a space, a line break, or
/// the byte itself.
pub open spec fn char_of_byte(c: u8) -> CharModel {
    if c == 32 {
        CharModel::Space
    } else if c == 10 {
        CharModel::NewLine
    } else {
        CharModel::Ascii(c)
    }
}

impl TChar {
    /// Builds the character that a single byte stands for.
    pub fn new_from_single_char(c: u8) -> (r: Self)
        ensures
            r.deep_view() == char_of_byte(c),
    {
        match c {
            32 => Self::Space,
            10 => Self::NewLine,
            _ => Self::Ascii(c),
        }
    }

    /// Builds a multi-byte character. Fails when the bytes are empty or are
    /// not valid UTF-8.
    pub fn new_from_many_chars(v: Vec<u8>) -> (r: Result<Self, ParserFailures>)
        ensures
            (v@.len() > 0 && valid_utf8(v@)) ==> r == Ok::<TChar, ParserFailures>(TChar::Utf8(v)),
            !(v@.len() > 0 && valid_utf8(v@)) ==> r == Err::<TChar, ParserFailures>(ParserFailures::InvalidTChar(v)),
    {
        if v.len() > 0 && utf8_is_valid(v.as_slice()) {
            return Ok(Self::Utf8(v));
        }
        Err(ParserFailures::InvalidTChar(v))
    }

    /// The byte of an ASCII character, and 0 for every other character.
    pub fn to_u8(&self) -> (r: u8)
        ensures
            r == (match self {
                TChar::Ascii(c) => *c,
                _ => 0u8,
            }),
    {
        match self {
            Self::Ascii(c) => *c,
            _ => 0,
        }
    }

    /// Whether this character is a line break.
    pub fn is_newline(&self) -> (r: bool)
        ensures
            r == (self.deep_view() == CharModel::NewLine),
    {
        match self {
            Self::NewLine => true,
            _ => false,
        }
    }

    /// A copy of this character.
    pub fn duplicate(&self) -> (r: Self)
        ensures
            r.deep_view() == self.deep_view(),
    {
        match self {
            Self::Ascii(c) => Self::Ascii(*c),
            Self::Utf8(v) => {
                let w = v.clone();
                assert(w@ =~= v@);
                Self::Utf8(w)
            },
            Self::Space => Self::Space,
            Self::NewLine => Self::NewLine,
        }
    }
}

impl From<u8> for TChar {
    fn from(c: u8) -> (r: Self) {
        Self::new_from_single_char(c)
    }
}

impl vstd::std_specs::convert::FromSpecImpl<u8> for TChar {
    open spec fn obeys_from_spec() -> bool {
        true
    }

    open spec fn from_spec(c: u8) -> TChar {
        if c == 32 {
            TChar::Space
        } else if c == 10 {
            TChar::NewLine
        } else {
            TChar::Ascii(c)
        }
    }
}

impl From<Vec<u8>> for TChar {
    /// Builds a multi-byte character; bytes that do not form one give the
    /// ASCII character 0.
    fn from(v: Vec<u8>) -> (r: Self) {
        match Self::new_from_many_chars(v) {
            Ok(c) => c,
            Err(_) => Self::Ascii(0),
        }
    }
}

/// The character that `From<Vec<u8>>` builds from the bytes `v`.
pub open spec fn char_from_bytes(v: Vec<u8>) -> TChar {
    if v@.len() > 0 && valid_utf8(v@) {
        TChar::Utf8(v)
    } else {
        TChar::Ascii(0)
    }
}

impl vstd::std_specs::convert::FromSpecImpl<Vec<u8>> for TChar {
    open spec fn obeys_from_spec() -> bool {
        true
    }

    open spec fn from_spec(v: Vec<u8>) -> TChar {
        char_from_bytes(v)
    }
}

impl PartialEq<u8> for TChar {
    fn eq(&self, other: &u8) -> (r: bool) {
        match self {
            Self::Ascii(c) => *c == *other,
            Self::Space => *other == 32,
            Self::NewLine => *other == 10,
            Self::Utf8(_) => false,
        }
    }
}

impl vstd::std_specs::cmp::PartialEqSpecImpl<u8> for TChar {
    open spec fn obeys_eq_spec() -> bool {
        true
    }

    open spec fn eq_spec(&self, other: &u8) -> bool {
        match self {
            TChar::Ascii(c) => *c == *other,
            TChar::Space => *other == 32,
            TChar::NewLine => *other == 10,
            TChar::Utf8(_) => false,
        }
    }
}

impl PartialEq<Vec<u8>> for TChar {
    fn eq(&self, other: &Vec<u8>) -> (r: bool) {
        match self {
            Self::Utf8(v) => bytes_equal(v, other),
            _ => false,
        }
    }
}

impl vstd::std_specs::cmp::PartialEqSpecImpl<Vec<u8>> for TChar {
    open spec fn obeys_eq_spec() -> bool {
        true
    }

    open spec fn eq_spec(&self, other: &Vec<u8>) -> bool {
        match self {
            TChar::Utf8(v) => v@ == other@,
            _ => false,
        }
    }
}

/// Whether two byte vectors hold the same bytes.
pub fn bytes_equal(a: &Vec<u8>, b: &Vec<u8>) -> (r: bool)
    ensures
        r == (a@ == b@),
{
    if a.len() != b.len() {
        return false;
    }
    let mut i: usize = 0;
    while i < a.len()
        invariant
            i <= a.len(),
            a.len() == b.len(),
            forall|j: int| 0 <= j < i ==> a@[j] == b@[j],
        decreases a.len() - i,
    {
        if a[i] != b[i] {
            return false;
        }
        i += 1;
    }
    assert(a@ =~= b@);
    true
}

} // verus!
