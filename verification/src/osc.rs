use vstd::prelude::*;
use vstd::slice::slice_to_vec;
use vstd::utf8::{decode_utf8, encode_utf8, valid_utf8};

use crate::ansi::{Feed, ParserInner};
use crate::error::ParserFailures;
use crate::osc_types::{AnsiOscInternalType, AnsiOscToken, AnsiOscType, InternalModel, OscModel, TokenModel};
use crate::output::{emit, OutputModel, TerminalOutput};
use crate::params::{lemma_split_fields_nonempty, split_fields, split_fields_exec, FromParam};
use crate::text::{append_decimal, debug_str, debug_str_text, decimal_text};
use crate::utf8::string_from_utf8;

verus! {

/// Where an operating system command parser stands.
#[derive(Clone, Copy, Debug, PartialEq, Eq, Structural)]
pub enum AnsiOscParserState {
    /// Reading parameter bytes.
    Params,
    /// The command ended with a string terminator or a bell.
    Finished,
    /// The command holds a byte that no command may hold.
    Invalid,
    /// The malformed command has ended.
    InvalidFinished,
}

/// A parser of one operating system command (`ESC ]` ... `ESC \` or BEL),
/// fed a byte at a time.
#[derive(Debug, Clone, PartialEq, Eq)]
pub struct AnsiOscParser {
    pub state: AnsiOscParserState,
    pub params: Vec<u8>,
    pub intermediates: Vec<u8>,
}

/// The mathematical value of an [`AnsiOscParser`].
pub ghost struct OscParserModel {
    pub state: AnsiOscParserState,
    pub params: Seq<u8>,
}

impl View for AnsiOscParser {
    type V = OscParserModel;

    open spec fn view(&self) -> OscParserModel {
        OscParserModel { state: self.state, params: self.params@ }
    }
}

/// A byte that a command may hold: a printable byte, a byte of 0x80 or more,
/// an escape or a bell.
pub open spec fn is_osc_param_byte(b: u8) -> bool {
    (0x20 <= b <= 0x7e) || 0x80 <= b || b == 0x1b || b == 0x07
}

/// Whether the bytes end with a string terminator (`ESC \`) or, holding at
/// least two bytes, with a bell.
pub open spec fn ends_with_terminator(p: Seq<u8>) -> bool {
    p.len() >= 2 && ((p[p.len() - 2] == 0x1b && p[p.len() - 1] == 0x5c) || p[p.len() - 1] == 0x07)
}

/// A byte that belongs to a terminator: `\`, bell or escape.
pub open spec fn is_terminator_byte(b: u8) -> bool {
    b == 0x5c || b == 0x07 || b == 0x1b
}

/// The bytes without the terminator bytes at their end.
pub open spec fn trim_terminators(p: Seq<u8>) -> Seq<u8>
    decreases p.len(),
{
    if p.len() > 0 && is_terminator_byte(p.last()) {
        trim_terminators(p.drop_last())
    } else {
        p
    }
}

/// Whether a parser in state `s` has seen the end of its command.
pub open spec fn osc_is_done(s: AnsiOscParserState) -> bool {
    s is Finished || s is InvalidFinished
}

/// The parser after one more byte `b`, for a parser that is not done.
pub open spec fn osc_step(m: OscParserModel, b: u8) -> OscParserModel {
    match m.state {
        AnsiOscParserState::Params => {
            let n = if is_osc_param_byte(b) {
                OscParserModel { params: m.params.push(b), ..m }
            } else {
                OscParserModel { state: AnsiOscParserState::Invalid, ..m }
            };
            if ends_with_terminator(n.params) {
                OscParserModel {
                    state: AnsiOscParserState::Finished,
                    params: trim_terminators(n.params),
                }
            } else {
                n
            }
        },
        AnsiOscParserState::Invalid => if ends_with_terminator(m.params) {
            OscParserModel { state: AnsiOscParserState::InvalidFinished, ..m }
        } else {
            m
        },
        _ => m,
    }
}

/// A parser that has read nothing.
pub open spec fn osc_initial() -> OscParserModel {
    OscParserModel { state: AnsiOscParserState::Params, params: Seq::empty() }
}

fn is_valid_osc_param(b: u8) -> (r: bool)
    ensures
        r == is_osc_param_byte(b),
{
    (0x20 <= b && b <= 0x7e) || 0x80 <= b || b == 0x1b || b == 0x07
}

fn is_osc_terminator(p: &Vec<u8>) -> (r: bool)
    ensures
        r == ends_with_terminator(p@),
{
    let n = p.len();
    n >= 2 && ((p[n - 2] == 0x1b && p[n - 1] == 0x5c) || p[n - 1] == 0x07)
}

fn is_final_character_osc_terminator(b: u8) -> (r: bool)
    ensures
        r == is_terminator_byte(b),
{
    b == 0x5c || b == 0x07 || b == 0x1b
}

impl AnsiOscParser {
    /// A parser that has read nothing.
    pub fn new() -> (r: Self)
        ensures
            r@ == osc_initial(),
            r.intermediates@.len() == 0,
    {
        AnsiOscParser {
            state: AnsiOscParserState::Params,
            params: Vec::new(),
            intermediates: Vec::new(),
        }
    }

    /// Feeds one byte. When the bytes end with a terminator the command is
    /// finished and the terminator bytes are dropped. A parser that has seen
    /// the end of its command takes no more bytes and reports so.
    pub fn push(&mut self, b: u8) -> (r: Result<(), ParserFailures>)
        ensures
            osc_is_done(old(self)@.state) ==> r == Err::<(), ParserFailures>(
                ParserFailures::ParsedPushedToOnceFinished,
            ) && final(self)@ == old(self)@,
            !osc_is_done(old(self)@.state) ==> r is Ok && final(self)@ == osc_step(old(self)@, b),
            final(self).intermediates@ == old(self).intermediates@,
    {
        match self.state {
            AnsiOscParserState::Params => {
                if is_valid_osc_param(b) {
                    self.params.push(b);
                } else {
                    self.state = AnsiOscParserState::Invalid;
                }
                if is_osc_terminator(&self.params) {
                    self.state = AnsiOscParserState::Finished;
                    let ghost full = self.params@;
                    while self.params.len() > 0 && is_final_character_osc_terminator(
                        self.params[self.params.len() - 1],
                    )
                        invariant
                            trim_terminators(self.params@) == trim_terminators(full),
                            self.state == AnsiOscParserState::Finished,
                            self.intermediates@ == old(self).intermediates@,
                        decreases self.params@.len(),
                    {
                        let ghost before = self.params@;
                        self.params.pop();
                        assert(self.params@ =~= before.drop_last());
                    }
                    assert(trim_terminators(self.params@) == self.params@);
                }
            },
            AnsiOscParserState::Invalid => {
                if is_osc_terminator(&self.params) {
                    self.state = AnsiOscParserState::InvalidFinished;
                }
            },
            AnsiOscParserState::Finished | AnsiOscParserState::InvalidFinished => {
                return Err(ParserFailures::ParsedPushedToOnceFinished);
            },
        }
        Ok(())
    }
}

/// What a non-empty field of a command reads as: a byte-sized number, or
/// else its text.
pub open spec fn osc_token(f: Seq<u8>) -> Option<TokenModel> {
    if f.len() == 0 {
        None
    } else {
        match <u8 as FromParam>::param_value(f) {
            Some(v) => Some(TokenModel::U8(v)),
            None => Some(TokenModel::Text(decode_utf8(f))),
        }
    }
}

/// The semicolon-separated fields of a command, each read as a token, or
/// `None` when some field is not well-formed UTF-8.
pub open spec fn osc_tokens(p: Seq<u8>) -> Option<Seq<Option<TokenModel>>> {
    let f = split_fields(p);
    if forall|i: int| 0 <= i < f.len() ==> valid_utf8(#[trigger] f[i]) {
        Some(Seq::new(f.len(), |i: int| osc_token(f[i])))
    } else {
        None
    }
}

/// Reads one field of a command: empty is no token, a byte-sized number is
/// a number, anything else is text. A field that is not UTF-8 is an error.
pub fn parse_param_as(param_bytes: &[u8]) -> (r: Result<Option<AnsiOscToken>, ParserFailures>)
    ensures
        valid_utf8(param_bytes@) ==> (r matches Ok(t) && t.deep_view() == osc_token(param_bytes@)),
        !valid_utf8(param_bytes@) ==> (r matches Err(ParserFailures::InvalidParameter(v)) && v@
            == param_bytes@),
{
    match string_from_utf8(slice_to_vec(param_bytes)) {
        None => Err(ParserFailures::InvalidParameter(slice_to_vec(param_bytes))),
        Some(s) => {
            if param_bytes.len() == 0 {
                Ok(None)
            } else {
                match <u8 as FromParam>::from_param(param_bytes) {
                    Some(v) => Ok(Some(AnsiOscToken::U8(v))),
                    None => Ok(Some(AnsiOscToken::String(s))),
                }
            }
        },
    }
}

/// Splits the bytes of a command at semicolons and reads each field as a
/// token. Fails when a field is not UTF-8.
pub fn split_params_into_semicolon_delimited_usize(params: &[u8]) -> (r: Result<
    Vec<Option<AnsiOscToken>>,
    ParserFailures,
>)
    ensures
        match osc_tokens(params@) {
            Some(toks) => r matches Ok(v) && v.deep_view() == toks,
            None => r is Err,
        },
{
    let fields = split_fields_exec(params);
    let ghost f = split_fields(params@);
    let mut out: Vec<Option<AnsiOscToken>> = Vec::new();
    let mut i: usize = 0;
    while i < fields.len()
        invariant
            i <= fields@.len(),
            f == split_fields(params@),
            fields@.len() == f.len(),
            forall|j: int| 0 <= j < fields@.len() ==> (#[trigger] fields@[j])@ == f[j],
            out@.len() == i,
            forall|j: int| 0 <= j < i ==> valid_utf8(#[trigger] f[j]),
            forall|j: int| 0 <= j < i ==> (#[trigger] out@[j]).deep_view() == osc_token(f[j]),
        decreases fields@.len() - i,
    {
        match parse_param_as(fields[i].as_slice()) {
            Ok(t) => {
                out.push(t);
            },
            Err(e) => {
                assert(!valid_utf8(f[i as int]));
                assert(!(forall|j: int| 0 <= j < f.len() ==> valid_utf8(#[trigger] f[j])));
                assert(osc_tokens(params@) is None);
                return Err(e);
            },
        }
        i += 1;
    }
    assert(out.deep_view() =~= Seq::new(f.len(), |j: int| osc_token(f[j])));
    Ok(out)
}

fn copy_token(t: &AnsiOscToken) -> (r: AnsiOscToken)
    ensures
        r.deep_view() == t.deep_view(),
{
    match t {
        AnsiOscToken::U8(v) => AnsiOscToken::U8(*v),
        AnsiOscToken::String(s) => AnsiOscToken::String(s.clone()),
    }
}

/// The token at position `idx`, if there is one.
pub fn extract_param(idx: usize, params: &[Option<AnsiOscToken>]) -> (r: Option<AnsiOscToken>)
    ensures
        r.deep_view() == (if idx < params@.len() {
            params@[idx as int].deep_view()
        } else {
            None
        }),
{
    if idx < params.len() {
        match &params[idx] {
            Some(t) => Some(copy_token(t)),
            None => None,
        }
    } else {
        None
    }
}

/// What the first field of a command names.
#[derive(Clone, Copy, Debug, PartialEq, Eq, Structural)]
pub enum OscTarget {
    TitleBar,
    IconName,
    Background,
    Foreground,
    Ftcs,
    Unknown,
}

/// The target that a first field names: 0 and 2 the title bar, 1 the icon
/// name, 10 and 11 the foreground and background colors, 133 a shell
/// integration mark.
pub open spec fn osc_target(t: TokenModel) -> OscTarget {
    match t {
        TokenModel::U8(v) => if v == 0 || v == 2 {
            OscTarget::TitleBar
        } else if v == 1 {
            OscTarget::IconName
        } else if v == 11 {
            OscTarget::Background
        } else if v == 10 {
            OscTarget::Foreground
        } else if v == 133 {
            OscTarget::Ftcs
        } else {
            OscTarget::Unknown
        },
        TokenModel::Text(_) => OscTarget::Unknown,
    }
}

impl OscTarget {
    /// The target that a first field names.
    pub fn from_token(t: &AnsiOscToken) -> (r: Self)
        ensures
            r == osc_target(t.deep_view()),
    {
        match t {
            AnsiOscToken::U8(v) => {
                if *v == 0 || *v == 2 {
                    OscTarget::TitleBar
                } else if *v == 1 {
                    OscTarget::IconName
                } else if *v == 11 {
                    OscTarget::Background
                } else if *v == 10 {
                    OscTarget::Foreground
                } else if *v == 133 {
                    OscTarget::Ftcs
                } else {
                    OscTarget::Unknown
                }
            },
            AnsiOscToken::String(_) => OscTarget::Unknown,
        }
    }
}

/// What the second field of a command asks for: `?` is a query, other text
/// is that text, anything else is unknown.
pub open spec fn internal_of(toks: Seq<Option<TokenModel>>) -> InternalModel {
    if toks.len() < 2 {
        InternalModel::Unknown(None)
    } else {
        match toks[1] {
            Some(TokenModel::Text(s)) => if s == seq!['?'] {
                InternalModel::Query
            } else {
                InternalModel::Text(s)
            },
            Some(t) => InternalModel::Unknown(Some(t)),
            None => InternalModel::Unknown(None),
        }
    }
}

/// The same as [`internal_of`], over the tokens themselves.
pub open spec fn internal_of_tokens(v: Seq<Option<AnsiOscToken>>) -> AnsiOscInternalType {
    if v.len() < 2 {
        AnsiOscInternalType::Unknown(None)
    } else {
        match v[1] {
            Some(AnsiOscToken::String(s)) => if s@ == seq!['?'] {
                AnsiOscInternalType::Query
            } else {
                AnsiOscInternalType::String(s)
            },
            Some(t) => AnsiOscInternalType::Unknown(Some(t)),
            None => AnsiOscInternalType::Unknown(None),
        }
    }
}

fn is_question_mark(s: &String) -> (r: bool)
    ensures
        r == (s@ == seq!['?']),
{
    let t = s.as_str();
    if t.unicode_len() == 1 {
        let c = t.get_char(0);
        assert(c == '?' ==> t@ =~= seq!['?']);
        c == '?'
    } else {
        false
    }
}

impl From<Vec<Option<AnsiOscToken>>> for AnsiOscInternalType {
    fn from(value: Vec<Option<AnsiOscToken>>) -> (r: Self) {
        let mut value = value;
        if value.len() < 2 {
            return AnsiOscInternalType::Unknown(None);
        }
        match value.remove(1) {
            Some(AnsiOscToken::String(s)) => {
                if is_question_mark(&s) {
                    AnsiOscInternalType::Query
                } else {
                    AnsiOscInternalType::String(s)
                }
            },
            Some(t) => AnsiOscInternalType::Unknown(Some(t)),
            None => AnsiOscInternalType::Unknown(None),
        }
    }
}

impl vstd::std_specs::convert::FromSpecImpl<Vec<Option<AnsiOscToken>>> for AnsiOscInternalType {
    open spec fn obeys_from_spec() -> bool {
        true
    }

    open spec fn from_spec(v: Vec<Option<AnsiOscToken>>) -> AnsiOscInternalType {
        internal_of_tokens(v@)
    }
}

/// The text that an [`AnsiOscInternalType`] displays as: `Query`, the text
/// itself, or `Unknown(..)` with the token as `{:?}` writes it.
pub open spec fn internal_text(i: InternalModel) -> Seq<char> {
    match i {
        InternalModel::Query => "Query"@,
        InternalModel::Text(s) => s,
        InternalModel::Unknown(None) => "Unknown(None)"@,
        InternalModel::Unknown(Some(TokenModel::U8(v))) => "Unknown(Some(U8("@ + decimal_text(
            v as nat,
        ) + ")))"@,
        InternalModel::Unknown(Some(TokenModel::Text(s))) => "Unknown(Some(String("@
            + debug_str_text(s) + ")))"@,
    }
}

impl AnsiOscInternalType {
    /// The text that this value displays as.
    pub fn to_display_string(&self) -> (s: String)
        ensures
            s@ == internal_text(self.deep_view()),
    {
        match self {
            AnsiOscInternalType::Query => String::from_str("Query"),
            AnsiOscInternalType::String(v) => v.clone(),
            AnsiOscInternalType::Unknown(None) => String::from_str("Unknown(None)"),
            AnsiOscInternalType::Unknown(Some(AnsiOscToken::U8(v))) => {
                let mut s = String::from_str("Unknown(Some(U8(");
                append_decimal(&mut s, *v as u64);
                s.append(")))");
                s
            },
            AnsiOscInternalType::Unknown(Some(AnsiOscToken::String(v))) => {
                let mut s = String::from_str("Unknown(Some(String(");
                let d = debug_str(v.as_str());
                s.append(d.as_str());
                s.append(")))");
                s
            },
        }
    }
}

/// The item that a finished command with (trimmed) bytes `p` gives. A
/// command whose fields are not UTF-8, or whose first field is empty, is
/// `Invalid`.
pub open spec fn osc_item(p: Seq<u8>) -> OutputModel {
    match osc_tokens(p) {
        None => OutputModel::Invalid,
        Some(toks) => match toks[0] {
            None => OutputModel::Invalid,
            Some(t) => match osc_target(t) {
                OscTarget::Background => OutputModel::OscResponse(
                    OscModel::RequestColorQueryBackground(internal_of(toks)),
                ),
                OscTarget::Foreground => OutputModel::OscResponse(
                    OscModel::RequestColorQueryForeground(internal_of(toks)),
                ),
                OscTarget::Unknown => OutputModel::Invalid,
                OscTarget::TitleBar => OutputModel::OscResponse(
                    OscModel::SetTitleBar(internal_text(internal_of(toks))),
                ),
                OscTarget::Ftcs => OutputModel::OscResponse(
                    OscModel::Ftcs(internal_text(internal_of(toks))),
                ),
                OscTarget::IconName => OutputModel::Skipped,
            },
        },
    }
}

proof fn lemma_internal_of_tokens(v: Seq<Option<AnsiOscToken>>, toks: Seq<Option<TokenModel>>)
    requires
        v.len() == toks.len(),
        forall|j: int| 0 <= j < v.len() ==> (#[trigger] v[j]).deep_view() == toks[j],
    ensures
        internal_of_tokens(v).deep_view() == internal_of(toks),
{
    if v.len() >= 2 {
        assert(v[1].deep_view() == toks[1]);
    }
}

/// The item that a finished command with bytes `params` gives.
fn osc_response(params: &[u8]) -> (r: TerminalOutput)
    ensures
        r.deep_view() == osc_item(params@),
{
    match split_params_into_semicolon_delimited_usize(params) {
        Err(_) => TerminalOutput::Invalid,
        Ok(tokens) => {
            proof {
                lemma_split_fields_nonempty(params@);
                lemma_internal_of_tokens(tokens@, tokens.deep_view());
            }
            match extract_param(0, tokens.as_slice()) {
                None => TerminalOutput::Invalid,
                Some(first) => {
                    let target = OscTarget::from_token(&first);
                    let internal = AnsiOscInternalType::from(tokens);
                    match target {
                        OscTarget::Background => TerminalOutput::OscResponse(
                            AnsiOscType::RequestColorQueryBackground(internal),
                        ),
                        OscTarget::Foreground => TerminalOutput::OscResponse(
                            AnsiOscType::RequestColorQueryForeground(internal),
                        ),
                        OscTarget::Unknown => TerminalOutput::Invalid,
                        OscTarget::TitleBar => TerminalOutput::OscResponse(
                            AnsiOscType::SetTitleBar(internal.to_display_string()),
                        ),
                        OscTarget::Ftcs => TerminalOutput::OscResponse(
                            AnsiOscType::Ftcs(internal.to_display_string()),
                        ),
                        OscTarget::IconName => TerminalOutput::Skipped,
                    }
                },
            }
        },
    }
}

/// What feeding the byte `b` to a command parser in state `m` does: the
/// parser after, the items emitted, and how it ends.
pub open spec fn osc_feed(m: OscParserModel, b: u8) -> (OscParserModel, Seq<OutputModel>, Feed) {
    if osc_is_done(m.state) {
        (m, Seq::empty(), Feed::Failed)
    } else {
        let n = osc_step(m, b);
        match n.state {
            AnsiOscParserState::Finished => (n, seq![osc_item(n.params)], Feed::Done),
            AnsiOscParserState::Invalid => (n, seq![OutputModel::Invalid], Feed::Done),
            _ => (n, Seq::empty(), Feed::Pending),
        }
    }
}

impl AnsiOscParser {
    /// Feeds one byte of an operating system command and, when the command
    /// ends, emits what it asks for.
    pub fn ansiparser_inner_osc(&mut self, b: u8, output: &mut Vec<TerminalOutput>) -> (r: Result<
        Option<ParserInner>,
        ParserFailures,
    >)
        ensures
            final(self)@ == osc_feed(old(self)@, b).0,
            final(output).deep_view() == old(output).deep_view() + osc_feed(old(self)@, b).1,
            osc_feed(old(self)@, b).2 is Pending ==> r == Ok::<Option<ParserInner>, ParserFailures>(
                None,
            ),
            osc_feed(old(self)@, b).2 is Done ==> r == Ok::<Option<ParserInner>, ParserFailures>(
                Some(ParserInner::Empty),
            ),
            osc_feed(old(self)@, b).2 is Failed ==> r == Err::<Option<ParserInner>, ParserFailures>(
                ParserFailures::ParsedPushedToOnceFinished,
            ),
    {
        let ghost before = output.deep_view();
        match self.push(b) {
            Ok(()) => {},
            Err(e) => {
                assert(output.deep_view() =~= before + Seq::<OutputModel>::empty());
                return Err(e);
            },
        }
        match self.state {
            AnsiOscParserState::Finished => {
                let item = osc_response(self.params.as_slice());
                emit(output, item);
                assert(output.deep_view() =~= before + seq![osc_item(self.params@)]);
                Ok(Some(ParserInner::Empty))
            },
            AnsiOscParserState::Invalid => {
                emit(output, TerminalOutput::Invalid);
                assert(output.deep_view() =~= before + seq![OutputModel::Invalid]);
                Ok(Some(ParserInner::Empty))
            },
            _ => {
                assert(output.deep_view() =~= before + Seq::<OutputModel>::empty());
                Ok(None)
            },
        }
    }
}

/// A color request (command 10 for the foreground, 11 for the background)
/// carries what its second field asks for: `?` is a query, other text is a
/// color to set, given as that text; a number, or no second field, is
/// unknown.
pub proof fn lemma_color_request_carries_second_field(p: Seq<u8>)
    requires
        osc_tokens(p) is Some,
        osc_tokens(p)->0.len() >= 1,
        osc_tokens(p)->0[0] == Some(TokenModel::U8(10)) || osc_tokens(p)->0[0] == Some(TokenModel::U8(11)),
    ensures
        ({
            let toks = osc_tokens(p)->0;
            let asked = if toks.len() < 2 {
                InternalModel::Unknown(None)
            } else {
                match toks[1] {
                    Some(TokenModel::Text(s)) => if s == seq!['?'] {
                        InternalModel::Query
                    } else {
                        InternalModel::Text(s)
                    },
                    Some(TokenModel::U8(v)) => InternalModel::Unknown(Some(TokenModel::U8(v))),
                    None => InternalModel::Unknown(None),
                }
            };
            &&& toks[0] == Some(TokenModel::U8(11)) ==> osc_item(p) == OutputModel::OscResponse(
                OscModel::RequestColorQueryBackground(asked),
            )
            &&& toks[0] == Some(TokenModel::U8(10)) ==> osc_item(p) == OutputModel::OscResponse(
                OscModel::RequestColorQueryForeground(asked),
            )
        }),
{
}

proof fn lemma_split_fields_append_field(a: Seq<u8>, t: Seq<u8>)
    requires
        forall|i: int| 0 <= i < t.len() ==> t[i] != 59u8,
    ensures
        split_fields(a + t) == split_fields(a).update(
            split_fields(a).len() - 1,
            split_fields(a).last() + t,
        ),
        split_fields(a + t).len() == split_fields(a).len(),
    decreases t.len(),
{
    lemma_split_fields_nonempty(a);
    if t.len() == 0 {
        assert(a + t =~= a);
        assert(split_fields(a).last() + t =~= split_fields(a).last());
        assert(split_fields(a).update(split_fields(a).len() - 1, split_fields(a).last())
            =~= split_fields(a));
    } else {
        let init = t.drop_last();
        lemma_split_fields_append_field(a, init);
        assert((a + t).drop_last() =~= a + init);
        assert((a + t).last() == t.last());
        let f = split_fields(a);
        let g = split_fields(a + init);
        assert(g.last() == f.last() + init);
        assert(g.last().push(t.last()) =~= f.last() + t);
        assert(g.update(g.len() - 1, g.last().push(t.last())) =~= f.update(f.len() - 1, f.last() + t));
    }
}

/// The color requests `OSC 10 ; text` (foreground, `d` = `0`) and
/// `OSC 11 ; text` (background, `d` = `1`) for text that is one field (no
/// semicolon) and not a number: `?` asks for the color, any other text is
/// the color to set, carried as that text.
pub proof fn lemma_color_request_of_text(d: u8, t: Seq<u8>)
    requires
        d == 0x30u8 || d == 0x31u8,
        t.len() > 0,
        valid_utf8(t),
        forall|i: int| 0 <= i < t.len() ==> t[i] != 59u8,
        <u8 as FromParam>::param_value(t) is None,
    ensures
        ({
            let asked = if t == seq![0x3fu8] {
                InternalModel::Query
            } else {
                InternalModel::Text(decode_utf8(t))
            };
            osc_item(seq![0x31u8, d, 0x3bu8] + t) == if d == 0x31u8 {
                OutputModel::OscResponse(OscModel::RequestColorQueryBackground(asked))
            } else {
                OutputModel::OscResponse(OscModel::RequestColorQueryForeground(asked))
            }
        }),
{
    let h = seq![0x31u8, d, 0x3bu8];
    let one = seq![0x31u8, d];
    assert(split_fields(h) == seq![one, Seq::<u8>::empty()]) by {
        assert(h.drop_last() =~= one);
        assert(one.drop_last() =~= seq![0x31u8]);
        assert(seq![0x31u8].drop_last() =~= Seq::<u8>::empty());
        assert(split_fields(Seq::<u8>::empty()) == seq![Seq::<u8>::empty()]);
        assert(Seq::<u8>::empty().push(0x31u8) =~= seq![0x31u8]);
        assert(seq![0x31u8].last() == 0x31u8);
        assert(split_fields(seq![0x31u8]) =~= seq![seq![0x31u8]]);
        assert(one.last() == d);
        assert(seq![0x31u8].push(d) =~= one);
        assert(split_fields(one) =~= seq![one]);
        assert(split_fields(h) =~= seq![one, Seq::<u8>::empty()]);
    }
    lemma_split_fields_append_field(h, t);
    let f = split_fields(h + t);
    assert(f =~= seq![one, t]);
    let n: u8 = if d == 0x31u8 {
        11
    } else {
        10
    };
    assert(valid_utf8(one)) by {
        let cs = seq!['1', if d == 0x31u8 {
            '1'
        } else {
            '0'
        }];
        vstd::utf8::is_ascii_chars_encode_utf8(cs);
        vstd::utf8::encode_utf8_valid_utf8(cs);
        assert(encode_utf8(cs) =~= one);
    }
    assert(<u8 as FromParam>::param_value(one) == Some(n)) by {
        assert(one.drop_last() =~= seq![0x31u8]);
        assert(seq![0x31u8].drop_last() =~= Seq::<u8>::empty());
        assert(crate::params::digits_value(Seq::<u8>::empty()) == 0);
        assert(seq![0x31u8].last() == 0x31u8);
        assert(one.last() == d);
        assert(crate::params::digits_value(seq![0x31u8]) == 1);
        assert(crate::params::digits_value(one) == n);
        assert(crate::params::all_digits(one));
    }
    assert(osc_tokens(h + t) == Some(seq![Some(TokenModel::U8(n)), Some(TokenModel::Text(decode_utf8(t)))])) by {
        assert(f[0] == one && f[1] == t);
        assert(Seq::new(f.len(), |i: int| osc_token(f[i])) =~= seq![
            Some(TokenModel::U8(n)),
            Some(TokenModel::Text(decode_utf8(t))),
        ]);
    }
    assert(encode_utf8(seq!['?']) == seq![0x3fu8]) by {
        vstd::utf8::is_ascii_chars_encode_utf8(seq!['?']);
        assert(encode_utf8(seq!['?']) =~= seq![0x3fu8]);
    }
    assert(decode_utf8(seq![0x3fu8]) == seq!['?']) by {
        vstd::utf8::encode_utf8_decode_utf8(seq!['?']);
    }
    if decode_utf8(t) == seq!['?'] {
        vstd::utf8::decode_utf8_encode_utf8(t);
    }
}

} // verus!
