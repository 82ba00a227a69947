use vstd::prelude::*;

use crate::mode::{mode_printable, mode_text, Mode, ModeModel};
use crate::osc_types::{osc_type_text, AnsiOscType, OscModel};
use crate::sgr::{append_sgr, sgr_text, SelectGraphicRendition};
use crate::text::{append_decimal, append_option, decimal_text, option_text};
use crate::utf8::{lossy_text, utf8_lossy};

verus! {

/// One item that the parser makes of terminal output: a run of text, or a
/// control function with its arguments.
#[derive(Debug, Clone, PartialEq, Eq)]
#[allow(inconsistent_fields)]
pub enum TerminalOutput {
    SetCursorPos { x: Option<usize>, y: Option<usize> },
    SetCursorPosRel { x: Option<i32>, y: Option<i32> },
    ClearDisplayfromCursortoEndofDisplay,
    ClearDiplayfromStartofDisplaytoCursor,
    ClearScrollbackandDisplay,
    ClearDisplay,
    CarriageReturn,
    ClearLineForwards,
    ClearLineBackwards,
    ClearLine,
    Newline,
    Backspace,
    Bell,
    ApplicationKeypadMode,
    NormalKeypadMode,
    InsertLines(usize),
    Delete(usize),
    Sgr(SelectGraphicRendition),
    Data(Vec<u8>),
    SetMode(Mode),
    ResetMode(Mode),
    InsertSpaces(usize),
    OscResponse(AnsiOscType),
    CursorReport,
    Invalid,
    Skipped,
}

/// The mathematical value of a [`TerminalOutput`].
#[allow(inconsistent_fields)]
pub ghost enum OutputModel {
    SetCursorPos { x: Option<usize>, y: Option<usize> },
    SetCursorPosRel { x: Option<i32>, y: Option<i32> },
    ClearDisplayfromCursortoEndofDisplay,
    ClearDiplayfromStartofDisplaytoCursor,
    ClearScrollbackandDisplay,
    ClearDisplay,
    CarriageReturn,
    ClearLineForwards,
    ClearLineBackwards,
    ClearLine,
    Newline,
    Backspace,
    Bell,
    ApplicationKeypadMode,
    NormalKeypadMode,
    InsertLines(usize),
    Delete(usize),
    Sgr(SelectGraphicRendition),
    Data(Seq<u8>),
    SetMode(ModeModel),
    ResetMode(ModeModel),
    InsertSpaces(usize),
    OscResponse(OscModel),
    CursorReport,
    Invalid,
    Skipped,
}

impl DeepView for TerminalOutput {
    type V = OutputModel;

    open spec fn deep_view(&self) -> OutputModel {
        match self {
            TerminalOutput::SetCursorPos { x, y } => OutputModel::SetCursorPos { x: *x, y: *y },
            TerminalOutput::SetCursorPosRel { x, y } => OutputModel::SetCursorPosRel { x: *x, y: *y },
            TerminalOutput::ClearDisplayfromCursortoEndofDisplay => OutputModel::ClearDisplayfromCursortoEndofDisplay,
            TerminalOutput::ClearDiplayfromStartofDisplaytoCursor => OutputModel::ClearDiplayfromStartofDisplaytoCursor,
            TerminalOutput::ClearScrollbackandDisplay => OutputModel::ClearScrollbackandDisplay,
            TerminalOutput::ClearDisplay => OutputModel::ClearDisplay,
            TerminalOutput::CarriageReturn => OutputModel::CarriageReturn,
            TerminalOutput::ClearLineForwards => OutputModel::ClearLineForwards,
            TerminalOutput::ClearLineBackwards => OutputModel::ClearLineBackwards,
            TerminalOutput::ClearLine => OutputModel::ClearLine,
            TerminalOutput::Newline => OutputModel::Newline,
            TerminalOutput::Backspace => OutputModel::Backspace,
            TerminalOutput::Bell => OutputModel::Bell,
            TerminalOutput::ApplicationKeypadMode => OutputModel::ApplicationKeypadMode,
            TerminalOutput::NormalKeypadMode => OutputModel::NormalKeypadMode,
            TerminalOutput::InsertLines(n) => OutputModel::InsertLines(*n),
            TerminalOutput::Delete(n) => OutputModel::Delete(*n),
            TerminalOutput::Sgr(s) => OutputModel::Sgr(*s),
            TerminalOutput::Data(d) => OutputModel::Data(d@),
            TerminalOutput::SetMode(m) => OutputModel::SetMode(m.deep_view()),
            TerminalOutput::ResetMode(m) => OutputModel::ResetMode(m.deep_view()),
            TerminalOutput::InsertSpaces(n) => OutputModel::InsertSpaces(*n),
            TerminalOutput::OscResponse(o) => OutputModel::OscResponse(o.deep_view()),
            TerminalOutput::CursorReport => OutputModel::CursorReport,
            TerminalOutput::Invalid => OutputModel::Invalid,
            TerminalOutput::Skipped => OutputModel::Skipped,
        }
    }
}

/// Appends `item` to `output`.
pub fn emit(output: &mut Vec<TerminalOutput>, item: TerminalOutput)
    ensures
        final(output).deep_view() == old(output).deep_view().push(item.deep_view()),
{
    output.push(item);
    assert(final(output).deep_view() =~= old(output).deep_view().push(item.deep_view()));
}

/// An optional count as `{:?}` writes it.
pub open spec fn count_option(o: Option<usize>) -> Option<int> {
    match o {
        Some(v) => Some(v as int),
        None => None,
    }
}

/// An optional offset as `{:?}` writes it.
pub open spec fn offset_option(o: Option<i32>) -> Option<int> {
    match o {
        Some(v) => Some(v as int),
        None => None,
    }
}

/// The text that an item displays as.
pub open spec fn output_text(o: OutputModel) -> Seq<char> {
    match o {
        OutputModel::SetCursorPos { x, y } => "SetCursorPos: x: "@ + option_text(count_option(x))
            + ", y: "@ + option_text(count_option(y)),
        OutputModel::SetCursorPosRel { x, y } => "SetCursorPosRel: x: "@ + option_text(
            offset_option(x),
        ) + ", y: "@ + option_text(offset_option(y)),
        OutputModel::ClearDisplayfromCursortoEndofDisplay => "ClearForwards"@,
        OutputModel::ClearScrollbackandDisplay => "ClearAll"@,
        OutputModel::ClearDiplayfromStartofDisplaytoCursor => "ClearBackwards"@,
        OutputModel::ClearDisplay => "ClearDisplay"@,
        OutputModel::CarriageReturn => "CarriageReturn"@,
        OutputModel::ClearLineForwards => "ClearLineForwards"@,
        OutputModel::ClearLineBackwards => "ClearLineBackwards"@,
        OutputModel::ClearLine => "ClearLine"@,
        OutputModel::Newline => "Newline"@,
        OutputModel::Backspace => "Backspace"@,
        OutputModel::Bell => "Bell"@,
        OutputModel::Invalid => "Invalid"@,
        OutputModel::CursorReport => "CursorReport"@,
        OutputModel::Skipped => "Skipped"@,
        OutputModel::ApplicationKeypadMode => "ApplicationKeypadMode"@,
        OutputModel::NormalKeypadMode => "NormalKeypadMode"@,
        OutputModel::InsertLines(n) => "InsertLines("@ + decimal_text(n as nat) + ")"@,
        OutputModel::Delete(n) => "Delete("@ + decimal_text(n as nat) + ")"@,
        OutputModel::InsertSpaces(n) => "InsertSpaces("@ + decimal_text(n as nat) + ")"@,
        OutputModel::Sgr(g) => "Sgr("@ + sgr_text(g) + ")"@,
        OutputModel::Data(d) => "Data("@ + lossy_text(d) + ")"@,
        OutputModel::SetMode(m) => "SetMode("@ + mode_text(m) + ")"@,
        OutputModel::ResetMode(m) => "ResetMode("@ + mode_text(m) + ")"@,
        OutputModel::OscResponse(r) => "OscResponse("@ + osc_type_text(r) + ")"@,
    }
}

/// Whether an item can be written as text: a mode that it sets or resets
/// must be printable (see [`mode_printable`]).
pub open spec fn output_printable(o: OutputModel) -> bool {
    match o {
        OutputModel::SetMode(m) => mode_printable(m),
        OutputModel::ResetMode(m) => mode_printable(m),
        _ => true,
    }
}

fn append_count(s: &mut String, o: Option<usize>)
    ensures
        final(s)@ == old(s)@ + option_text(count_option(o)),
{
    match o {
        Some(v) => {
            s.append("Some(");
            append_decimal(s, v as u64);
            s.append(")");
            assert(final(s)@ =~= old(s)@ + option_text(count_option(o)));
        },
        None => s.append("None"),
    }
}

fn append_offset(s: &mut String, o: Option<i32>)
    ensures
        final(s)@ == old(s)@ + option_text(offset_option(o)),
{
    match o {
        Some(v) => append_option(s, Some(v as i64)),
        None => append_option(s, None),
    }
}

impl TerminalOutput {
    /// The text that this item displays as (see [`output_text`]).
    pub fn to_display_string(&self) -> (s: String)
        requires
            output_printable(self.deep_view()),
        ensures
            s@ == output_text(self.deep_view()),
    {
        let mut s = String::new();
        match self {
            TerminalOutput::SetCursorPos { x, y } => {
                s.append("SetCursorPos: x: ");
                append_count(&mut s, *x);
                s.append(", y: ");
                append_count(&mut s, *y);
            },
            TerminalOutput::SetCursorPosRel { x, y } => {
                s.append("SetCursorPosRel: x: ");
                append_offset(&mut s, *x);
                s.append(", y: ");
                append_offset(&mut s, *y);
            },
            TerminalOutput::ClearDisplayfromCursortoEndofDisplay => s.append("ClearForwards"),
            TerminalOutput::ClearScrollbackandDisplay => s.append("ClearAll"),
            TerminalOutput::ClearDiplayfromStartofDisplaytoCursor => s.append("ClearBackwards"),
            TerminalOutput::ClearDisplay => s.append("ClearDisplay"),
            TerminalOutput::CarriageReturn => s.append("CarriageReturn"),
            TerminalOutput::ClearLineForwards => s.append("ClearLineForwards"),
            TerminalOutput::ClearLineBackwards => s.append("ClearLineBackwards"),
            TerminalOutput::ClearLine => s.append("ClearLine"),
            TerminalOutput::Newline => s.append("Newline"),
            TerminalOutput::Backspace => s.append("Backspace"),
            TerminalOutput::Bell => s.append("Bell"),
            TerminalOutput::Invalid => s.append("Invalid"),
            TerminalOutput::CursorReport => s.append("CursorReport"),
            TerminalOutput::Skipped => s.append("Skipped"),
            TerminalOutput::ApplicationKeypadMode => s.append("ApplicationKeypadMode"),
            TerminalOutput::NormalKeypadMode => s.append("NormalKeypadMode"),
            TerminalOutput::InsertLines(n) => {
                s.append("InsertLines(");
                append_decimal(&mut s, *n as u64);
                s.append(")");
            },
            TerminalOutput::Delete(n) => {
                s.append("Delete(");
                append_decimal(&mut s, *n as u64);
                s.append(")");
            },
            TerminalOutput::InsertSpaces(n) => {
                s.append("InsertSpaces(");
                append_decimal(&mut s, *n as u64);
                s.append(")");
            },
            TerminalOutput::Sgr(g) => {
                s.append("Sgr(");
                append_sgr(&mut s, *g);
                s.append(")");
            },
            TerminalOutput::Data(d) => {
                s.append("Data(");
                let text = utf8_lossy(d.as_slice());
                s.append(text.as_str());
                s.append(")");
            },
            TerminalOutput::SetMode(m) => {
                s.append("SetMode(");
                let text = m.to_debug_string();
                s.append(text.as_str());
                s.append(")");
            },
            TerminalOutput::ResetMode(m) => {
                s.append("ResetMode(");
                let text = m.to_debug_string();
                s.append(text.as_str());
                s.append(")");
            },
            TerminalOutput::OscResponse(r) => {
                s.append("OscResponse(");
                let text = r.to_display_string();
                s.append(text.as_str());
                s.append(")");
            },
        }
        assert(s@ =~= output_text(self.deep_view()));
        s
    }
}

} // verus!
