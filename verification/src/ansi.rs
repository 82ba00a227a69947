use vstd::prelude::*;

use crate::csi::{csi_initial, AnsiCsiParser, CsiModel};
use crate::csi_commands::csi_feed;
use crate::error::ParserFailures;
use crate::osc::{osc_feed, osc_initial, AnsiOscParser, OscParserModel};
use crate::output::{emit, OutputModel, TerminalOutput};

verus! {

/// How feeding a byte to the parser of one sequence ends.
pub ghost enum Feed {
    /// The sequence goes on.
    Pending,
    /// The sequence ended and the parser returns to plain text.
    Done,
    /// The sub-parser reported an error; the parser returns to plain text
    /// all the same.
    Failed,
}

/// What the top-level parser is in the middle of.
#[derive(Debug, Clone, PartialEq, Eq)]
pub enum ParserInner {
    /// Plain text.
    Empty,
    /// An escape byte, not yet followed by anything.
    Escape,
    /// A control sequence.
    Csi(AnsiCsiParser),
    /// An operating system command.
    Osc(AnsiOscParser),
}

/// The mathematical value of a [`ParserInner`].
pub ghost enum InnerModel {
    Empty,
    Escape,
    Csi(CsiModel),
    Osc(OscParserModel),
}

impl View for ParserInner {
    type V = InnerModel;

    open spec fn view(&self) -> InnerModel {
        match self {
            ParserInner::Empty => InnerModel::Empty,
            ParserInner::Escape => InnerModel::Escape,
            ParserInner::Csi(p) => InnerModel::Csi(p@),
            ParserInner::Osc(p) => InnerModel::Osc(p@),
        }
    }
}

/// Where the top-level parser stands within one call of `push`: what it is
/// in the middle of, the text it has not emitted yet, and what it has
/// emitted.
pub ghost struct ParseState {
    pub inner: InnerModel,
    pub pending: Seq<u8>,
    pub out: Seq<OutputModel>,
}

/// Emits the pending text, if there is any, as one `Data` item.
pub open spec fn flush(s: ParseState) -> ParseState {
    if s.pending.len() > 0 {
        ParseState { pending: Seq::empty(), out: s.out.push(OutputModel::Data(s.pending)), ..s }
    } else {
        s
    }
}

/// A byte that plain text treats as a control function: escape, carriage
/// return, line feed, backspace, bell.
pub open spec fn is_control_byte(b: u8) -> bool {
    b == 0x1b || b == 0x0d || b == 0x0a || b == 0x08 || b == 0x07
}

/// The item that a control byte of plain text other than escape stands for.
pub open spec fn control_item(b: u8) -> OutputModel {
    if b == 0x0d {
        OutputModel::CarriageReturn
    } else if b == 0x0a {
        OutputModel::Newline
    } else if b == 0x08 {
        OutputModel::Backspace
    } else {
        OutputModel::Bell
    }
}

/// What the byte after an escape does: `[` starts a control sequence, `]`
/// an operating system command, `=` and `>` select the keypad mode; any
/// other byte is dropped.
pub open spec fn escape_step(s: ParseState, b: u8) -> ParseState {
    let f = flush(s);
    if b == 0x5b {
        ParseState { inner: InnerModel::Csi(csi_initial()), ..f }
    } else if b == 0x5d {
        ParseState { inner: InnerModel::Osc(osc_initial()), ..f }
    } else if b == 0x3d {
        ParseState {
            inner: InnerModel::Empty,
            out: f.out.push(OutputModel::ApplicationKeypadMode),
            ..f
        }
    } else if b == 0x3e {
        ParseState { inner: InnerModel::Empty, out: f.out.push(OutputModel::NormalKeypadMode), ..f }
    } else {
        ParseState { inner: InnerModel::Empty, ..f }
    }
}

/// What one byte does to the top-level parser. A control sequence or an
/// operating system command that ends, well or with an error, leaves the
/// parser in plain text.
pub open spec fn parser_step(s: ParseState, b: u8) -> ParseState {
    match s.inner {
        InnerModel::Empty => if b == 0x1b {
            ParseState { inner: InnerModel::Escape, ..s }
        } else if is_control_byte(b) {
            let f = flush(s);
            ParseState { out: f.out.push(control_item(b)), ..f }
        } else {
            ParseState { pending: s.pending.push(b), ..s }
        },
        InnerModel::Escape => escape_step(s, b),
        InnerModel::Csi(m) => {
            let f = csi_feed(m, b);
            ParseState {
                inner: if f.2 is Pending {
                    InnerModel::Csi(f.0)
                } else {
                    InnerModel::Empty
                },
                out: s.out + f.1,
                ..s
            }
        },
        InnerModel::Osc(m) => {
            let f = osc_feed(m, b);
            ParseState {
                inner: if f.2 is Pending {
                    InnerModel::Osc(f.0)
                } else {
                    InnerModel::Empty
                },
                out: s.out + f.1,
                ..s
            }
        },
    }
}

/// The parser after a run of bytes, each fed in turn.
pub open spec fn parse_run(s: ParseState, bytes: Seq<u8>) -> ParseState
    decreases bytes.len(),
{
    if bytes.len() == 0 {
        s
    } else {
        parser_step(parse_run(s, bytes.drop_last()), bytes.last())
    }
}

/// A state with nothing pending and nothing emitted.
pub open spec fn fresh(inner: InnerModel) -> ParseState {
    ParseState { inner, pending: Seq::empty(), out: Seq::empty() }
}

/// What one call of `push` with `bytes` does, from `inner`: where the parser
/// ends, and the items it returns (the text still pending at the end comes
/// last, as one `Data` item).
pub open spec fn parse_bytes(inner: InnerModel, bytes: Seq<u8>) -> (InnerModel, Seq<OutputModel>) {
    let s = flush(parse_run(fresh(inner), bytes));
    (s.inner, s.out)
}

proof fn lemma_run_inner_only(s: ParseState, t: ParseState, bytes: Seq<u8>)
    requires
        s.inner == t.inner,
    ensures
        parse_run(s, bytes).inner == parse_run(t, bytes).inner,
    decreases bytes.len(),
{
    if bytes.len() > 0 {
        lemma_run_inner_only(s, t, bytes.drop_last());
    }
}

proof fn lemma_run_concat(s: ParseState, a: Seq<u8>, b: Seq<u8>)
    ensures
        parse_run(s, a + b) == parse_run(parse_run(s, a), b),
    decreases b.len(),
{
    if b.len() == 0 {
        assert(a + b =~= a);
    } else {
        lemma_run_concat(s, a, b.drop_last());
        assert((a + b).drop_last() =~= a + b.drop_last());
        assert((a + b).last() == b.last());
    }
}

/// Where the parser ends does not depend on how its input was cut into
/// calls of `push`: feeding `a` and then `b` leaves it where feeding
/// `a + b` at once does.
pub proof fn lemma_parser_state_ignores_chunking(inner: InnerModel, a: Seq<u8>, b: Seq<u8>)
    ensures
        parse_bytes(inner, a + b).0 == parse_bytes(parse_bytes(inner, a).0, b).0,
{
    let s = fresh(inner);
    lemma_run_concat(s, a, b);
    let mid = parse_run(s, a);
    lemma_run_inner_only(mid, fresh(mid.inner), b);
}

/// The text of an item, for a `Data` item; empty otherwise.
pub open spec fn data_of(o: OutputModel) -> Seq<u8> {
    match o {
        OutputModel::Data(d) => d,
        _ => Seq::empty(),
    }
}

/// Appends an item to a run of items; text that follows text joins it.
pub open spec fn add_item(j: Seq<OutputModel>, item: OutputModel) -> Seq<OutputModel> {
    if j.len() > 0 && item is Data && j.last() is Data {
        j.drop_last().push(OutputModel::Data(data_of(j.last()) + data_of(item)))
    } else {
        j.push(item)
    }
}

/// Appends items in turn (see [`add_item`]).
pub open spec fn add_items(j: Seq<OutputModel>, items: Seq<OutputModel>) -> Seq<OutputModel>
    decreases items.len(),
{
    if items.len() == 0 {
        j
    } else {
        add_item(add_items(j, items.drop_last()), items.last())
    }
}

/// A run of items with neighbouring runs of text joined into one.
pub open spec fn join_text(items: Seq<OutputModel>) -> Seq<OutputModel> {
    add_items(Seq::empty(), items)
}

proof fn lemma_add_data_twice(j: Seq<OutputModel>, e: Seq<u8>, d: Seq<u8>)
    ensures
        add_item(add_item(j, OutputModel::Data(e)), OutputModel::Data(d)) == add_item(
            j,
            OutputModel::Data(e + d),
        ),
{
    if j.len() > 0 && j.last() is Data {
        let r = data_of(j.last());
        assert(r + e + d =~= r + (e + d));
        assert(add_item(j, OutputModel::Data(e)).drop_last() =~= j.drop_last());
    } else {
        assert(j.push(OutputModel::Data(e)).drop_last() =~= j);
    }
}

proof fn lemma_add_items_concat(z: Seq<OutputModel>, x: Seq<OutputModel>, y: Seq<OutputModel>)
    ensures
        add_items(z, x + y) == add_items(add_items(z, x), y),
    decreases y.len(),
{
    if y.len() == 0 {
        assert(x + y =~= x);
    } else {
        lemma_add_items_concat(z, x, y.drop_last());
        assert((x + y).drop_last() =~= x + y.drop_last());
        assert((x + y).last() == y.last());
    }
}

proof fn lemma_add_items_push(z: Seq<OutputModel>, w: Seq<OutputModel>, item: OutputModel)
    ensures
        add_items(z, w.push(item)) == add_item(add_items(z, w), item),
{
    assert(w.push(item).drop_last() =~= w);
}

proof fn lemma_add_items_add_item(z: Seq<OutputModel>, w: Seq<OutputModel>, item: OutputModel)
    ensures
        add_items(z, add_item(w, item)) == add_item(add_items(z, w), item),
{
    if w.len() > 0 && item is Data && w.last() is Data {
        let w0 = w.drop_last();
        let e = data_of(w.last());
        let d = data_of(item);
        assert(w =~= w0.push(OutputModel::Data(e)));
        lemma_add_items_push(z, w0, OutputModel::Data(e + d));
        lemma_add_items_push(z, w0, OutputModel::Data(e));
        lemma_add_data_twice(add_items(z, w0), e, d);
    } else {
        lemma_add_items_push(z, w, item);
    }
}

proof fn lemma_add_items_joined(z: Seq<OutputModel>, y: Seq<OutputModel>)
    ensures
        add_items(z, join_text(y)) == add_items(z, y),
    decreases y.len(),
{
    if y.len() > 0 {
        lemma_add_items_joined(z, y.drop_last());
        lemma_add_items_add_item(z, join_text(y.drop_last()), y.last());
    }
}

/// Joining text inside either part of a concatenation changes nothing once
/// the whole is joined.
proof fn lemma_join_parts(x: Seq<OutputModel>, y: Seq<OutputModel>)
    ensures
        join_text(x + y) == join_text(x + join_text(y)),
        join_text(x + y) == join_text(join_text(x) + y),
{
    let e = Seq::<OutputModel>::empty();
    lemma_add_items_concat(e, x, y);
    lemma_add_items_concat(e, x, join_text(y));
    lemma_add_items_joined(join_text(x), y);
    lemma_add_items_concat(e, join_text(x), y);
    lemma_add_items_joined(e, x);
}

/// What the parser has emitted, with its pending text as the last item.
pub open spec fn stream(s: ParseState) -> Seq<OutputModel> {
    flush(s).out
}

/// A parser state that `push` can reach: inside a control sequence or an
/// operating system command, no text is pending.
pub open spec fn state_wf(s: ParseState) -> bool {
    (s.inner is Csi || s.inner is Osc) ==> s.pending.len() == 0
}

/// What one byte adds to the stream of items, from a given parser state:
/// its text, its control function, or what the sequence it ends reports.
pub open spec fn step_items(inner: InnerModel, b: u8) -> Seq<OutputModel> {
    match inner {
        InnerModel::Empty => if b == 0x1b {
            Seq::empty()
        } else if is_control_byte(b) {
            seq![control_item(b)]
        } else {
            seq![OutputModel::Data(seq![b])]
        },
        InnerModel::Escape => if b == 0x3d {
            seq![OutputModel::ApplicationKeypadMode]
        } else if b == 0x3e {
            seq![OutputModel::NormalKeypadMode]
        } else {
            Seq::empty()
        },
        InnerModel::Csi(m) => csi_feed(m, b).1,
        InnerModel::Osc(m) => osc_feed(m, b).1,
    }
}

/// What a run of bytes adds to the stream, from a given parser state.
pub open spec fn run_items(inner: InnerModel, bytes: Seq<u8>) -> Seq<OutputModel>
    decreases bytes.len(),
{
    if bytes.len() == 0 {
        Seq::empty()
    } else {
        run_items(inner, bytes.drop_last()) + step_items(
            parse_run(fresh(inner), bytes.drop_last()).inner,
            bytes.last(),
        )
    }
}

proof fn lemma_join_push(x: Seq<OutputModel>, item: OutputModel)
    ensures
        join_text(x.push(item)) == add_item(join_text(x), item),
{
    lemma_add_items_push(Seq::empty(), x, item);
}

proof fn lemma_step_stream(s: ParseState, b: u8)
    requires
        state_wf(s),
    ensures
        state_wf(parser_step(s, b)),
        join_text(stream(parser_step(s, b))) == join_text(stream(s) + step_items(s.inner, b)),
{
    let n = parser_step(s, b);
    match s.inner {
        InnerModel::Empty => {
            if b == 0x1b {
                assert(stream(s) + step_items(s.inner, b) =~= stream(s));
            } else if is_control_byte(b) {
                assert(stream(n) =~= stream(s) + step_items(s.inner, b));
            } else {
                let p = s.pending;
                let d = seq![b];
                assert(stream(s) + step_items(s.inner, b) =~= stream(s).push(OutputModel::Data(d)));
                lemma_join_push(stream(s), OutputModel::Data(d));
                if p.len() > 0 {
                    assert(p.push(b) =~= p + d);
                    assert(stream(s) =~= s.out.push(OutputModel::Data(p)));
                    lemma_join_push(s.out, OutputModel::Data(p));
                    lemma_join_push(s.out, OutputModel::Data(p + d));
                    lemma_add_data_twice(join_text(s.out), p, d);
                } else {
                    assert(p.push(b) =~= d);
                }
            }
        },
        InnerModel::Escape => {
            assert(stream(n) =~= stream(s) + step_items(s.inner, b));
        },
        InnerModel::Csi(m) => {
            assert(stream(n) =~= stream(s) + step_items(s.inner, b));
        },
        InnerModel::Osc(m) => {
            assert(stream(n) =~= stream(s) + step_items(s.inner, b));
        },
    }
}

proof fn lemma_run_stream(s: ParseState, bytes: Seq<u8>)
    requires
        state_wf(s),
    ensures
        state_wf(parse_run(s, bytes)),
        join_text(stream(parse_run(s, bytes))) == join_text(stream(s) + run_items(s.inner, bytes)),
    decreases bytes.len(),
{
    if bytes.len() == 0 {
        assert(stream(s) + run_items(s.inner, bytes) =~= stream(s));
    } else {
        let pre = bytes.drop_last();
        let b = bytes.last();
        lemma_run_stream(s, pre);
        let mid = parse_run(s, pre);
        lemma_run_inner_only(s, fresh(s.inner), pre);
        lemma_step_stream(mid, b);
        let d = step_items(mid.inner, b);
        lemma_join_parts(stream(mid), d);
        lemma_join_parts(stream(s) + run_items(s.inner, pre), d);
        assert(stream(s) + run_items(s.inner, pre) + d =~= stream(s) + run_items(s.inner, bytes));
    }
}

/// Cutting the input of the parser into calls of `push` changes nothing but
/// how text is split: the items that feeding `a` and then `b` returns, with
/// neighbouring text joined, are those that feeding `a + b` at once returns.
pub proof fn lemma_parser_items_ignore_chunking(inner: InnerModel, a: Seq<u8>, b: Seq<u8>)
    ensures
        join_text(parse_bytes(inner, a + b).1) == join_text(
            parse_bytes(inner, a).1 + parse_bytes(parse_bytes(inner, a).0, b).1,
        ),
{
    let s = fresh(inner);
    lemma_run_concat(s, a, b);
    lemma_run_stream(s, a);
    let mid = parse_run(s, a);
    lemma_run_stream(mid, b);
    let t = fresh(mid.inner);
    lemma_run_stream(t, b);
    assert(stream(t) =~= Seq::<OutputModel>::empty());
    assert(stream(t) + run_items(t.inner, b) =~= run_items(t.inner, b));
    lemma_join_parts(stream(mid), stream(parse_run(t, b)));
    lemma_join_parts(stream(mid), run_items(mid.inner, b));
    let e = Seq::<OutputModel>::empty();
    assert(e + run_items(t.inner, b) =~= run_items(t.inner, b));
}

/// The top-level parser of terminal output: plain text and the escape
/// sequences within it.
pub struct FreminalAnsiParser {
    pub inner: ParserInner,
}

fn push_data_if_non_empty(data: &mut Vec<u8>, output: &mut Vec<TerminalOutput>)
    ensures
        final(data)@ == flush(
            ParseState { inner: InnerModel::Empty, pending: old(data)@, out: old(output).deep_view() },
        ).pending,
        final(output).deep_view() == flush(
            ParseState { inner: InnerModel::Empty, pending: old(data)@, out: old(output).deep_view() },
        ).out,
{
    if data.len() > 0 {
        let mut taken: Vec<u8> = Vec::new();
        std::mem::swap(&mut taken, data);
        emit(output, TerminalOutput::Data(taken));
    }
}

impl Default for FreminalAnsiParser {
    fn default() -> (r: Self)
        ensures
            r.inner@ == InnerModel::Empty,
    {
        Self::new()
    }
}

impl FreminalAnsiParser {
    /// A parser at the start of plain text.
    pub fn new() -> (r: Self)
        ensures
            r.inner@ == InnerModel::Empty,
    {
        FreminalAnsiParser { inner: ParserInner::Empty }
    }

    /// Handles a byte of plain text if it is a control byte, and reports
    /// whether it was one.
    fn ansi_parser_inner_empty(
        &mut self,
        b: u8,
        data_output: &mut Vec<u8>,
        output: &mut Vec<TerminalOutput>,
    ) -> (handled: bool)
        requires
            old(self).inner@ == InnerModel::Empty,
        ensures
            handled == is_control_byte(b),
            handled ==> {
                let s = parser_step(
                    ParseState {
                        inner: old(self).inner@,
                        pending: old(data_output)@,
                        out: old(output).deep_view(),
                    },
                    b,
                );
                &&& final(self).inner@ == s.inner
                &&& final(data_output)@ == s.pending
                &&& final(output).deep_view() == s.out
            },
            !handled ==> final(self).inner@ == old(self).inner@ && final(data_output)@ == old(
                data_output,
            )@ && final(output).deep_view() == old(output).deep_view(),
    {
        if b == 0x1b {
            self.inner = ParserInner::Escape;
            return true;
        }
        let item = if b == 0x0d {
            TerminalOutput::CarriageReturn
        } else if b == 0x0a {
            TerminalOutput::Newline
        } else if b == 0x08 {
            TerminalOutput::Backspace
        } else if b == 0x07 {
            TerminalOutput::Bell
        } else {
            return false;
        };
        push_data_if_non_empty(data_output, output);
        emit(output, item);
        true
    }

    /// Handles the byte after an escape.
    fn ansiparser_inner_escape(
        &mut self,
        b: u8,
        data_output: &mut Vec<u8>,
        output: &mut Vec<TerminalOutput>,
    ) -> (r: Result<(), ParserFailures>)
        requires
            old(self).inner@ == InnerModel::Escape,
        ensures
            ({
                let s = escape_step(
                    ParseState {
                        inner: old(self).inner@,
                        pending: old(data_output)@,
                        out: old(output).deep_view(),
                    },
                    b,
                );
                &&& final(self).inner@ == s.inner
                &&& final(data_output)@ == s.pending
                &&& final(output).deep_view() == s.out
            }),
            r is Err <==> !(b == 0x5b || b == 0x5d || b == 0x3d || b == 0x3e),
            r is Err ==> r == Err::<(), ParserFailures>(ParserFailures::UnhandledInnerEscape(b)),
    {
        push_data_if_non_empty(data_output, output);
        if b == 0x5b {
            self.inner = ParserInner::Csi(AnsiCsiParser::new());
        } else if b == 0x5d {
            self.inner = ParserInner::Osc(AnsiOscParser::new());
        } else if b == 0x3d {
            self.inner = ParserInner::Empty;
            emit(output, TerminalOutput::ApplicationKeypadMode);
        } else if b == 0x3e {
            self.inner = ParserInner::Empty;
            emit(output, TerminalOutput::NormalKeypadMode);
        } else {
            self.inner = ParserInner::Empty;
            return Err(ParserFailures::UnhandledInnerEscape(b));
        }
        Ok(())
    }

    /// Parses a run of terminal output. Text between control functions comes
    /// out as `Data` items; a sequence that is not complete at the end of
    /// `incoming` is kept and goes on with the next call.
    pub fn push(&mut self, incoming: &[u8]) -> (r: Vec<TerminalOutput>)
        ensures
            final(self).inner@ == parse_bytes(old(self).inner@, incoming@).0,
            r.deep_view() == parse_bytes(old(self).inner@, incoming@).1,
    {
        let mut output: Vec<TerminalOutput> = Vec::new();
        let mut data_output: Vec<u8> = Vec::new();
        let ghost start = fresh(self.inner@);
        proof {
            assert(incoming@.take(0) =~= Seq::<u8>::empty());
            assert(output.deep_view() =~= Seq::<OutputModel>::empty());
        }
        let mut i: usize = 0;
        while i < incoming.len()
            invariant
                i <= incoming@.len(),
                start == fresh(old(self).inner@),
                self.inner@ == parse_run(start, incoming@.take(i as int)).inner,
                data_output@ == parse_run(start, incoming@.take(i as int)).pending,
                output.deep_view() == parse_run(start, incoming@.take(i as int)).out,
            decreases incoming@.len() - i,
        {
            let b = incoming[i];
            proof {
                assert(incoming@.take(i + 1).drop_last() =~= incoming@.take(i as int));
            }
            let is_empty = match &self.inner {
                ParserInner::Empty => true,
                _ => false,
            };
            let is_escape = match &self.inner {
                ParserInner::Escape => true,
                _ => false,
            };
            if is_empty {
                if !self.ansi_parser_inner_empty(b, &mut data_output, &mut output) {
                    data_output.push(b);
                }
            } else if is_escape {
                let _ = self.ansiparser_inner_escape(b, &mut data_output, &mut output);
            } else {
                let next: Option<ParserInner> = match &mut self.inner {
                    ParserInner::Csi(parser) => {
                        match parser.ansiparser_inner_csi(b, &mut output) {
                            Ok(Some(v)) => Some(v),
                            Ok(None) => None,
                            Err(_) => Some(ParserInner::Empty),
                        }
                    },
                    ParserInner::Osc(parser) => {
                        match parser.ansiparser_inner_osc(b, &mut output) {
                            Ok(Some(v)) => Some(v),
                            Ok(None) => None,
                            Err(_) => Some(ParserInner::Empty),
                        }
                    },
                    _ => None,
                };
                match next {
                    Some(v) => {
                        self.inner = v;
                    },
                    None => {},
                }
            }
            i += 1;
        }
        proof {
            assert(incoming@.take(incoming@.len() as int) =~= incoming@);
        }
        push_data_if_non_empty(&mut data_output, &mut output);
        output
    }
}

} // verus!
