use vstd::prelude::*;
use vstd::slice::slice_to_vec;

use crate::ansi::{Feed, ParserInner};
use crate::csi::{csi_is_done, csi_step, AnsiCsiParser, AnsiCsiParserState, CsiModel};
use crate::mode::{mode_from_params, mode_of_params, ModeModel};
use crate::colors::{lookup_256_color_by_index, palette_256, TerminalColor};
use crate::error::ParserFailures;
use crate::output::{emit, OutputModel, TerminalOutput};
use crate::sgr::{sgr_of_code, sgr_of_color, SelectGraphicRendition};
use crate::params::{
    extract_param, param_field, parse_param_as, split_params_into_semicolon_delimited_usize,
    usize_fields,
};

verus! {

/// The value held by `o`, or `d` when it holds none.
pub open spec fn or_default<T>(o: Option<T>, d: T) -> T {
    match o {
        Some(v) => v,
        None => d,
    }
}

/// The negation of `v`, where `i32::MIN` stays as it is (two's complement
/// wrapping).
pub open spec fn neg_i32(v: i32) -> i32 {
    if v == i32::MIN {
        v
    } else {
        (-v) as i32
    }
}

fn negate(v: i32) -> (r: i32)
    ensures
        r == neg_i32(v),
{
    if v == i32::MIN {
        v
    } else {
        -v
    }
}

/// The entry at position `i` of `ps`, or `None` past its end.
pub open spec fn entry(ps: Seq<Option<usize>>, i: int) -> Option<usize> {
    if 0 <= i < ps.len() {
        ps[i]
    } else {
        None
    }
}

/// How a command that emits one item ends: with that item and a return to
/// plain text, or, when its parameters cannot be read (`item` is `None`),
/// with `Invalid` and an error.
pub open spec fn command_done(
    item: Option<OutputModel>,
    before: Seq<OutputModel>,
    after: Seq<OutputModel>,
    r: Result<Option<ParserInner>, ParserFailures>,
) -> bool {
    match item {
        Some(i) => after == before.push(i) && r == Ok::<Option<ParserInner>, ParserFailures>(
            Some(ParserInner::Empty),
        ),
        None => after == before.push(OutputModel::Invalid) && r is Err,
    }
}

/// Whether `e` is the error that the command with final byte `t` reports
/// for the parameters `p`.
pub open spec fn command_error(t: u8, e: ParserFailures, p: Seq<u8>) -> bool {
    match e {
        ParserFailures::UnhandledCUUCommand(v) => t == 0x41 && v@ == p,
        ParserFailures::UnhandledCUDCommand(v) => t == 0x42 && v@ == p,
        ParserFailures::UnhandledCUFCommand(v) => t == 0x43 && v@ == p,
        ParserFailures::UnhandledCUBCommand(v) => t == 0x44 && v@ == p,
        ParserFailures::UnhandledCHACommand(v) => t == 0x47 && v@ == p,
        ParserFailures::UnhandledCUPCommand(v) => t == 0x48 && v@ == p,
        ParserFailures::UnhandledEDCommand(v) => t == 0x4a && v@ == p,
        ParserFailures::UnhandledELCommand(v) => t == 0x4b && v@ == p,
        ParserFailures::UnhandledILCommand(v) => t == 0x4c && v@ == p,
        ParserFailures::UnhandledDCHCommand(v) => t == 0x50 && v@ == p,
        ParserFailures::UnhandledSGRCommand(v) => t == 0x6d && v@ == p,
        ParserFailures::UnhandledICHCommand(v) => t == 0x40 && v@ == p,
        _ => false,
    }
}

/// CUU: move the cursor up by the parameter (default 1).
pub open spec fn cuu_item(p: Seq<u8>) -> Option<OutputModel> {
    match param_field::<i32>(p) {
        Some(o) => Some(
            OutputModel::SetCursorPosRel { x: None, y: Some(neg_i32(or_default(o, 1i32))) },
        ),
        None => None,
    }
}

/// CUD: move the cursor down by the parameter (default 1).
pub open spec fn cud_item(p: Seq<u8>) -> Option<OutputModel> {
    match param_field::<i32>(p) {
        Some(o) => Some(OutputModel::SetCursorPosRel { x: None, y: Some(or_default(o, 1i32)) }),
        None => None,
    }
}

/// CUF: move the cursor right by the parameter (default 1).
pub open spec fn cuf_item(p: Seq<u8>) -> Option<OutputModel> {
    match param_field::<i32>(p) {
        Some(o) => Some(OutputModel::SetCursorPosRel { x: Some(or_default(o, 1i32)), y: None }),
        None => None,
    }
}

/// CUB: move the cursor left by the parameter (default 1).
pub open spec fn cub_item(p: Seq<u8>) -> Option<OutputModel> {
    match param_field::<i32>(p) {
        Some(o) => Some(
            OutputModel::SetCursorPosRel { x: Some(neg_i32(or_default(o, 1i32))), y: None },
        ),
        None => None,
    }
}

/// CHA: move the cursor to the column of the parameter (default 1).
pub open spec fn cha_item(p: Seq<u8>) -> Option<OutputModel> {
    match param_field::<usize>(p) {
        Some(o) => Some(OutputModel::SetCursorPos { x: Some(or_default(o, 1usize)), y: None }),
        None => None,
    }
}

/// CUP: move the cursor to the row of the first parameter and the column of
/// the second (each default 1).
pub open spec fn cup_item(p: Seq<u8>) -> Option<OutputModel> {
    match usize_fields(p) {
        Some(ps) => Some(
            OutputModel::SetCursorPos {
                x: Some(or_default(entry(ps, 1), 1usize)),
                y: Some(or_default(entry(ps, 0), 1usize)),
            },
        ),
        None => None,
    }
}

/// ED: erase in display; 0 (default) to the end, 1 to the start, 2 all of
/// it, 3 with the scrollback. Other values are `Invalid`.
pub open spec fn ed_item(p: Seq<u8>) -> Option<OutputModel> {
    match param_field::<usize>(p) {
        Some(o) => Some(
            match or_default(o, 0usize) {
                0 => OutputModel::ClearDisplayfromCursortoEndofDisplay,
                1 => OutputModel::ClearDiplayfromStartofDisplaytoCursor,
                2 => OutputModel::ClearDisplay,
                3 => OutputModel::ClearScrollbackandDisplay,
                _ => OutputModel::Invalid,
            },
        ),
        None => None,
    }
}

/// EL: erase in line; 0 (default) to the end, 1 to the start, 2 all of it.
/// Other values are `Invalid`.
pub open spec fn el_item(p: Seq<u8>) -> Option<OutputModel> {
    match param_field::<usize>(p) {
        Some(o) => Some(
            match or_default(o, 0usize) {
                0 => OutputModel::ClearLineForwards,
                1 => OutputModel::ClearLineBackwards,
                2 => OutputModel::ClearLine,
                _ => OutputModel::Invalid,
            },
        ),
        None => None,
    }
}

/// IL: insert as many lines as the parameter says (default 1).
pub open spec fn il_item(p: Seq<u8>) -> Option<OutputModel> {
    match param_field::<usize>(p) {
        Some(o) => Some(OutputModel::InsertLines(or_default(o, 1usize))),
        None => None,
    }
}

/// DCH: delete as many characters as the parameter says (default 1).
pub open spec fn dch_item(p: Seq<u8>) -> Option<OutputModel> {
    match param_field::<usize>(p) {
        Some(o) => Some(OutputModel::Delete(or_default(o, 1usize))),
        None => None,
    }
}

/// ICH: insert as many spaces as the parameter says (default 1).
pub open spec fn ich_item(p: Seq<u8>) -> Option<OutputModel> {
    match param_field::<usize>(p) {
        Some(o) => Some(OutputModel::InsertSpaces(or_default(o, 1usize))),
        None => None,
    }
}

/// Cursor Up (`ESC [ Pn A`).
pub fn ansi_parser_inner_csi_finished_move_up(params: &[u8], output: &mut Vec<TerminalOutput>) -> (r:
    Result<Option<ParserInner>, ParserFailures>)
    ensures
        command_done(cuu_item(params@), old(output).deep_view(), final(output).deep_view(), r),
        r matches Err(e) ==> command_error(0x41, e, params@),
{
    match parse_param_as::<i32>(params) {
        Ok(param) => {
            let v = match param {
                Some(v) => v,
                None => 1,
            };
            emit(output, TerminalOutput::SetCursorPosRel { x: None, y: Some(negate(v)) });
            Ok(Some(ParserInner::Empty))
        },
        Err(_) => {
            emit(output, TerminalOutput::Invalid);
            Err(ParserFailures::UnhandledCUUCommand(slice_to_vec(params)))
        },
    }
}

/// Cursor Down (`ESC [ Pn B`).
pub fn ansi_parser_inner_csi_finished_move_down(params: &[u8], output: &mut Vec<TerminalOutput>) -> (r:
    Result<Option<ParserInner>, ParserFailures>)
    ensures
        command_done(cud_item(params@), old(output).deep_view(), final(output).deep_view(), r),
        r matches Err(e) ==> command_error(0x42, e, params@),
{
    match parse_param_as::<i32>(params) {
        Ok(param) => {
            let v = match param {
                Some(v) => v,
                None => 1,
            };
            emit(output, TerminalOutput::SetCursorPosRel { x: None, y: Some(v) });
            Ok(Some(ParserInner::Empty))
        },
        Err(_) => {
            emit(output, TerminalOutput::Invalid);
            Err(ParserFailures::UnhandledCUDCommand(slice_to_vec(params)))
        },
    }
}

/// Cursor Forward (`ESC [ Pn C`).
pub fn ansi_parser_inner_csi_finished_move_right(params: &[u8], output: &mut Vec<TerminalOutput>) -> (r:
    Result<Option<ParserInner>, ParserFailures>)
    ensures
        command_done(cuf_item(params@), old(output).deep_view(), final(output).deep_view(), r),
        r matches Err(e) ==> command_error(0x43, e, params@),
{
    match parse_param_as::<i32>(params) {
        Ok(param) => {
            let v = match param {
                Some(v) => v,
                None => 1,
            };
            emit(output, TerminalOutput::SetCursorPosRel { x: Some(v), y: None });
            Ok(Some(ParserInner::Empty))
        },
        Err(_) => {
            emit(output, TerminalOutput::Invalid);
            Err(ParserFailures::UnhandledCUFCommand(slice_to_vec(params)))
        },
    }
}

/// Cursor Backward (`ESC [ Pn D`).
pub fn ansi_parser_inner_csi_finished_move_left(params: &[u8], output: &mut Vec<TerminalOutput>) -> (r:
    Result<Option<ParserInner>, ParserFailures>)
    ensures
        command_done(cub_item(params@), old(output).deep_view(), final(output).deep_view(), r),
        r matches Err(e) ==> command_error(0x44, e, params@),
{
    match parse_param_as::<i32>(params) {
        Ok(param) => {
            let v = match param {
                Some(v) => v,
                None => 1,
            };
            emit(output, TerminalOutput::SetCursorPosRel { x: Some(negate(v)), y: None });
            Ok(Some(ParserInner::Empty))
        },
        Err(_) => {
            emit(output, TerminalOutput::Invalid);
            Err(ParserFailures::UnhandledCUBCommand(slice_to_vec(params)))
        },
    }
}

/// Cursor Horizontal Absolute (`ESC [ Pn G`).
pub fn ansi_parser_inner_csi_finished_set_position_g(params: &[u8], output: &mut Vec<TerminalOutput>) -> (r:
    Result<Option<ParserInner>, ParserFailures>)
    ensures
        command_done(cha_item(params@), old(output).deep_view(), final(output).deep_view(), r),
        r matches Err(e) ==> command_error(0x47, e, params@),
{
    match parse_param_as::<usize>(params) {
        Ok(param) => {
            let v = match param {
                Some(v) => v,
                None => 1,
            };
            emit(output, TerminalOutput::SetCursorPos { x: Some(v), y: None });
            Ok(Some(ParserInner::Empty))
        },
        Err(_) => {
            emit(output, TerminalOutput::Invalid);
            Err(ParserFailures::UnhandledCHACommand(slice_to_vec(params)))
        },
    }
}

/// Cursor Position (`ESC [ Pn ; Pn H`).
pub fn ansi_parser_inner_csi_finished_set_position_h(params: &[u8], output: &mut Vec<TerminalOutput>) -> (r:
    Result<Option<ParserInner>, ParserFailures>)
    ensures
        command_done(cup_item(params@), old(output).deep_view(), final(output).deep_view(), r),
        r matches Err(e) ==> command_error(0x48, e, params@),
{
    match split_params_into_semicolon_delimited_usize(params) {
        Ok(ps) => {
            let x = match extract_param(1, &ps) {
                Some(v) => v,
                None => 1,
            };
            let y = match extract_param(0, &ps) {
                Some(v) => v,
                None => 1,
            };
            emit(output, TerminalOutput::SetCursorPos { x: Some(x), y: Some(y) });
            Ok(Some(ParserInner::Empty))
        },
        Err(_) => {
            emit(output, TerminalOutput::Invalid);
            Err(ParserFailures::UnhandledCUPCommand(slice_to_vec(params)))
        },
    }
}

/// Erase in Display (`ESC [ Pn J`).
pub fn ansi_parser_inner_csi_finished_set_position_j(params: &[u8], output: &mut Vec<TerminalOutput>) -> (r:
    Result<Option<ParserInner>, ParserFailures>)
    ensures
        command_done(ed_item(params@), old(output).deep_view(), final(output).deep_view(), r),
        r matches Err(e) ==> command_error(0x4a, e, params@),
{
    match parse_param_as::<usize>(params) {
        Ok(param) => {
            let v = match param {
                Some(v) => v,
                None => 0,
            };
            let item = match v {
                0 => TerminalOutput::ClearDisplayfromCursortoEndofDisplay,
                1 => TerminalOutput::ClearDiplayfromStartofDisplaytoCursor,
                2 => TerminalOutput::ClearDisplay,
                3 => TerminalOutput::ClearScrollbackandDisplay,
                _ => TerminalOutput::Invalid,
            };
            emit(output, item);
            Ok(Some(ParserInner::Empty))
        },
        Err(_) => {
            emit(output, TerminalOutput::Invalid);
            Err(ParserFailures::UnhandledEDCommand(slice_to_vec(params)))
        },
    }
}

/// Erase in Line (`ESC [ Pn K`).
pub fn ansi_parser_inner_csi_finished_set_position_k(params: &[u8], output: &mut Vec<TerminalOutput>) -> (r:
    Result<Option<ParserInner>, ParserFailures>)
    ensures
        command_done(el_item(params@), old(output).deep_view(), final(output).deep_view(), r),
        r matches Err(e) ==> command_error(0x4b, e, params@),
{
    match parse_param_as::<usize>(params) {
        Ok(param) => {
            let v = match param {
                Some(v) => v,
                None => 0,
            };
            let item = match v {
                0 => TerminalOutput::ClearLineForwards,
                1 => TerminalOutput::ClearLineBackwards,
                2 => TerminalOutput::ClearLine,
                _ => TerminalOutput::Invalid,
            };
            emit(output, item);
            Ok(Some(ParserInner::Empty))
        },
        Err(_) => {
            emit(output, TerminalOutput::Invalid);
            Err(ParserFailures::UnhandledELCommand(slice_to_vec(params)))
        },
    }
}

/// Insert Line (`ESC [ Pn L`).
pub fn ansi_parser_inner_csi_finished_set_position_l(params: &[u8], output: &mut Vec<TerminalOutput>) -> (r:
    Result<Option<ParserInner>, ParserFailures>)
    ensures
        command_done(il_item(params@), old(output).deep_view(), final(output).deep_view(), r),
        r matches Err(e) ==> command_error(0x4c, e, params@),
{
    match parse_param_as::<usize>(params) {
        Ok(param) => {
            let v = match param {
                Some(v) => v,
                None => 1,
            };
            emit(output, TerminalOutput::InsertLines(v));
            Ok(Some(ParserInner::Empty))
        },
        Err(_) => {
            emit(output, TerminalOutput::Invalid);
            Err(ParserFailures::UnhandledILCommand(slice_to_vec(params)))
        },
    }
}

/// Delete Character (`ESC [ Pn P`).
pub fn ansi_parser_inner_csi_finished_set_position_p(params: &[u8], output: &mut Vec<TerminalOutput>) -> (r:
    Result<Option<ParserInner>, ParserFailures>)
    ensures
        command_done(dch_item(params@), old(output).deep_view(), final(output).deep_view(), r),
        r matches Err(e) ==> command_error(0x50, e, params@),
{
    match parse_param_as::<usize>(params) {
        Ok(param) => {
            let v = match param {
                Some(v) => v,
                None => 1,
            };
            emit(output, TerminalOutput::Delete(v));
            Ok(Some(ParserInner::Empty))
        },
        Err(_) => {
            emit(output, TerminalOutput::Invalid);
            Err(ParserFailures::UnhandledDCHCommand(slice_to_vec(params)))
        },
    }
}

/// Insert Character (`ESC [ Pn @`).
pub fn ansi_parser_inner_csi_finished_ich(params: &[u8], output: &mut Vec<TerminalOutput>) -> (r:
    Result<Option<ParserInner>, ParserFailures>)
    ensures
        command_done(ich_item(params@), old(output).deep_view(), final(output).deep_view(), r),
        r matches Err(e) ==> command_error(0x40, e, params@),
{
    match parse_param_as::<usize>(params) {
        Ok(param) => {
            let v = match param {
                Some(v) => v,
                None => 1,
            };
            emit(output, TerminalOutput::InsertSpaces(v));
            Ok(Some(ParserInner::Empty))
        },
        Err(_) => {
            emit(output, TerminalOutput::Invalid);
            Err(ParserFailures::UnhandledICHCommand(slice_to_vec(params)))
        },
    }
}

/// Whether an SGR code takes a color argument: 38 (foreground), 48
/// (background) or 58 (underline).
pub open spec fn is_color_code(p: usize) -> bool {
    p == 38 || p == 48 || p == 58
}

/// The attribute that a color code without a color argument selects: the
/// default color of what it colors.
pub open spec fn color_reset(code: usize) -> SelectGraphicRendition {
    if code == 38 {
        SelectGraphicRendition::Foreground(TerminalColor::Default)
    } else if code == 48 {
        SelectGraphicRendition::Background(TerminalColor::DefaultBackground)
    } else {
        SelectGraphicRendition::UnderlineColor(TerminalColor::DefaultUnderlineColor)
    }
}

/// `ps` without its first `n` entries; empty when it has no more than `n`.
pub open spec fn drop_n<T>(ps: Seq<T>, n: int) -> Seq<T> {
    if n >= ps.len() {
        Seq::empty()
    } else {
        ps.subrange(n, ps.len() as int)
    }
}

/// Whether position `i` of `ps` holds a number.
pub open spec fn present(ps: Seq<Option<usize>>, i: int) -> bool {
    0 <= i < ps.len() && ps[i] is Some
}

/// The item that an RGB color argument gives: the color, or `Invalid` when a
/// component does not fit in a byte.
pub open spec fn rgb_item(code: usize, r: usize, g: usize, b: usize) -> OutputModel {
    if r <= 255 && g <= 255 && b <= 255 {
        OutputModel::Sgr(sgr_of_color(code, r as u8, g as u8, b as u8))
    } else {
        OutputModel::Invalid
    }
}

/// The item that a 256-color palette argument gives.
pub open spec fn palette_item(code: usize, index: usize) -> OutputModel {
    let c = palette_256(index as int);
    OutputModel::Sgr(sgr_of_color(code, c.0 as u8, c.1 as u8, c.2 as u8))
}

/// The items that a list of SGR parameters selects, read from the front. An
/// absent parameter ends the list. A color code reads its arguments: none
/// (the default color), `2;r;g;b`, or `5;n` as the last parameters; any
/// other form gives `Invalid` and skips what it has read.
pub open spec fn sgr_items(ps: Seq<Option<usize>>) -> Seq<OutputModel>
    decreases ps.len(),
{
    if ps.len() == 0 || ps[0] is None {
        Seq::empty()
    } else {
        let p = ps[0].unwrap();
        if !is_color_code(p) {
            seq![OutputModel::Sgr(sgr_of_code(p))] + sgr_items(drop_n(ps, 1))
        } else if !present(ps, 1) {
            seq![OutputModel::Sgr(color_reset(p))] + sgr_items(drop_n(ps, 2))
        } else if ps[1].unwrap() == 2 {
            if !present(ps, 2) {
                seq![OutputModel::Invalid] + sgr_items(drop_n(ps, 3))
            } else if !present(ps, 3) {
                seq![OutputModel::Invalid] + sgr_items(drop_n(ps, 4))
            } else if !present(ps, 4) {
                seq![OutputModel::Invalid] + sgr_items(drop_n(ps, 5))
            } else {
                seq![rgb_item(p, ps[2].unwrap(), ps[3].unwrap(), ps[4].unwrap())] + sgr_items(
                    drop_n(ps, 5),
                )
            }
        } else if ps[1].unwrap() == 5 {
            if !present(ps, 2) {
                seq![OutputModel::Invalid] + sgr_items(drop_n(ps, 3))
            } else if ps.len() > 3 {
                seq![OutputModel::Invalid] + sgr_items(drop_n(ps, 4))
            } else {
                seq![palette_item(p, ps[2].unwrap())] + sgr_items(drop_n(ps, 3))
            }
        } else {
            seq![OutputModel::Invalid] + sgr_items(drop_n(ps, 2))
        }
    }
}

/// SGR parameters as the command reads them: no parameter, or a single
/// empty one, means `0` (reset).
pub open spec fn sgr_params(ps: Seq<Option<usize>>) -> Seq<Option<usize>> {
    if ps.len() == 0 || (ps.len() == 1 && ps[0] is None) {
        seq![Some(0usize)]
    } else {
        ps
    }
}

/// The items of an SGR command with parameter bytes `p`, or `None` when
/// some parameter is not a number.
pub open spec fn sgr_outcome(p: Seq<u8>) -> Option<Seq<OutputModel>> {
    match usize_fields(p) {
        Some(ps) => Some(sgr_items(sgr_params(ps))),
        None => None,
    }
}

proof fn lemma_drop_n_twice<T>(ps: Seq<T>, i: int, k: int)
    requires
        0 <= i,
        0 <= k,
    ensures
        drop_n(drop_n(ps, i), k) == drop_n(ps, i + k),
{
    assert(drop_n(drop_n(ps, i), k) =~= drop_n(ps, i + k));
}

/// The entry `k` places after position `i`, or `None` past the end.
fn entry_after(ps: &Vec<Option<usize>>, i: usize, k: usize) -> (r: Option<usize>)
    requires
        i <= ps@.len(),
    ensures
        r == entry(ps@, i + k),
{
    if k < ps.len() - i {
        ps[i + k]
    } else {
        None
    }
}

/// The index `k` places after `i`, but no further than `len`.
fn advance(i: usize, k: usize, len: usize) -> (r: usize)
    requires
        i <= len,
    ensures
        r == if i + k < len {
            (i + k) as usize
        } else {
            len
        },
{
    if k < len - i {
        i + k
    } else {
        len
    }
}

fn color_reset_exec(code: usize) -> (r: SelectGraphicRendition)
    ensures
        r == color_reset(code),
{
    if code == 38 {
        SelectGraphicRendition::Foreground(TerminalColor::Default)
    } else if code == 48 {
        SelectGraphicRendition::Background(TerminalColor::DefaultBackground)
    } else {
        SelectGraphicRendition::UnderlineColor(TerminalColor::DefaultUnderlineColor)
    }
}

/// Select Graphic Rendition (`ESC [ Pn ; ... m`): emits the attributes that
/// the parameters select, as [`sgr_items`] reads them.
#[verifier::rlimit(40)]
pub fn ansi_parser_inner_csi_finished_sgr(params: &[u8], output: &mut Vec<TerminalOutput>) -> (r:
    Result<Option<ParserInner>, ParserFailures>)
    ensures
        match sgr_outcome(params@) {
            Some(items) => final(output).deep_view() == old(output).deep_view() + items && r
                == Ok::<Option<ParserInner>, ParserFailures>(Some(ParserInner::Empty)),
            None => final(output).deep_view() == old(output).deep_view().push(OutputModel::Invalid)
                && (r matches Err(e) && command_error(0x6d, e, params@)),
        },
{
    let mut ps = match split_params_into_semicolon_delimited_usize(params) {
        Ok(v) => v,
        Err(_) => {
            emit(output, TerminalOutput::Invalid);
            return Err(ParserFailures::UnhandledSGRCommand(slice_to_vec(params)));
        },
    };
    if ps.len() == 0 {
        ps.push(Some(0));
    }
    if ps.len() == 1 && ps[0].is_none() {
        ps.set(0, Some(0));
    }
    let ghost all = ps@;
    proof {
        assert(all =~= sgr_params(usize_fields(params@).unwrap()));
        assert(drop_n(all, 0) =~= all);
    }
    let ghost before = output.deep_view();
    let len = ps.len();
    let mut i: usize = 0;
    while i < len
        invariant
            ps@ == all,
            len == all.len(),
            i <= len,
            before + sgr_items(all) == output.deep_view() + sgr_items(drop_n(all, i as int)),
        decreases len - i,
    {
        let ghost rest = drop_n(all, i as int);
        let ghost cur = output.deep_view();
        proof {
            assert(rest.len() == len - i);
            assert forall|k: int| 0 <= k < rest.len() implies rest[k] == all[i + k] by {}
            assert forall|k: int| 0 <= k implies entry(rest, k) == entry(all, i + k) by {}
        }
        match entry_after(&ps, i, 0) {
            None => {
                proof {
                    assert(sgr_items(rest) =~= Seq::<OutputModel>::empty());
                    assert(drop_n(all, len as int) =~= Seq::<Option<usize>>::empty());
                    assert(output.deep_view() + Seq::<OutputModel>::empty() =~= output.deep_view());
                }
                i = len;
            },
            Some(p) => {
                let mut step: usize = 1;
                if !(p == 38 || p == 48 || p == 58) {
                    emit(output, TerminalOutput::Sgr(SelectGraphicRendition::from_usize(p)));
                    step = 1;
                } else {
                    match entry_after(&ps, i, 1) {
                        None => {
                            emit(output, TerminalOutput::Sgr(color_reset_exec(p)));
                            step = 2;
                        },
                        Some(mode) => {
                            if mode == 2 {
                                let red = entry_after(&ps, i, 2);
                                let green = entry_after(&ps, i, 3);
                                let blue = entry_after(&ps, i, 4);
                                match (red, green, blue) {
                                    (Some(rv), Some(gv), Some(bv)) => {
                                        if rv <= 255 && gv <= 255 && bv <= 255 {
                                            emit(
                                                output,
                                                TerminalOutput::Sgr(
                                                    SelectGraphicRendition::from_usize_color(
                                                        p,
                                                        rv,
                                                        gv,
                                                        bv,
                                                    ),
                                                ),
                                            );
                                        } else {
                                            emit(output, TerminalOutput::Invalid);
                                        }
                                        step = 5;
                                    },
                                    _ => {
                                        emit(output, TerminalOutput::Invalid);
                                        step = if red.is_none() {
                                            3
                                        } else if green.is_none() {
                                            4
                                        } else {
                                            5
                                        };
                                    },
                                }
                            } else if mode == 5 {
                                match entry_after(&ps, i, 2) {
                                    None => {
                                        emit(output, TerminalOutput::Invalid);
                                        step = 3;
                                    },
                                    Some(index) => {
                                        if 3 < len - i {
                                            emit(output, TerminalOutput::Invalid);
                                            step = 4;
                                        } else {
                                            let (rv, gv, bv) = lookup_256_color_by_index(index);
                                            emit(
                                                output,
                                                TerminalOutput::Sgr(
                                                    SelectGraphicRendition::from_usize_color(
                                                        p,
                                                        rv,
                                                        gv,
                                                        bv,
                                                    ),
                                                ),
                                            );
                                            step = 3;
                                        }
                                    },
                                }
                            } else {
                                emit(output, TerminalOutput::Invalid);
                                step = 2;
                            }
                        },
                    }
                }
                proof {
                    lemma_drop_n_twice(all, i as int, step as int);
                    assert(sgr_items(rest) == seq![output.deep_view().last()] + sgr_items(
                        drop_n(rest, step as int),
                    ));
                    assert(output.deep_view() == cur.push(output.deep_view().last()));
                    assert(cur + sgr_items(rest) =~= output.deep_view() + sgr_items(
                        drop_n(rest, step as int),
                    ));
                }
                let ghost prev = i;
                i = advance(i, step, len);
                proof {
                    assert(drop_n(all, i as int) =~= drop_n(all, prev + step));
                }
            },
        }
    }
    proof {
        assert(drop_n(all, len as int) =~= Seq::<Option<usize>>::empty());
        assert(output.deep_view() + Seq::<OutputModel>::empty() =~= output.deep_view());
    }
    Ok(Some(ParserInner::Empty))
}

/// Whether the final byte `t` names a command that emits a single item:
/// A, B, C, D (relative moves), G, H (absolute moves), J, K (erase), L, P,
/// @ (insert and delete).
pub open spec fn is_single_item_command(t: u8) -> bool {
    t == 0x41 || t == 0x42 || t == 0x43 || t == 0x44 || t == 0x47 || t == 0x48 || t == 0x4a
        || t == 0x4b || t == 0x4c || t == 0x50 || t == 0x40
}

/// The item of a single-item command, or `None` when its parameters cannot
/// be read.
pub open spec fn csi_single_item(t: u8, p: Seq<u8>) -> Option<OutputModel> {
    if t == 0x41 {
        cuu_item(p)
    } else if t == 0x42 {
        cud_item(p)
    } else if t == 0x43 {
        cuf_item(p)
    } else if t == 0x44 {
        cub_item(p)
    } else if t == 0x47 {
        cha_item(p)
    } else if t == 0x48 {
        cup_item(p)
    } else if t == 0x4a {
        ed_item(p)
    } else if t == 0x4b {
        el_item(p)
    } else if t == 0x4c {
        il_item(p)
    } else if t == 0x50 {
        dch_item(p)
    } else {
        ich_item(p)
    }
}

/// The items that a control sequence with final byte `t` and parameter bytes
/// `p` emits. `h` and `l` set and reset a mode, `n` asks for a cursor
/// report, `m` selects graphic rendition; unknown final bytes are `Invalid`.
pub open spec fn csi_command_items(t: u8, p: Seq<u8>) -> Seq<OutputModel> {
    if is_single_item_command(t) {
        match csi_single_item(t, p) {
            Some(i) => seq![i],
            None => seq![OutputModel::Invalid],
        }
    } else if t == 0x6d {
        match sgr_outcome(p) {
            Some(items) => items,
            None => seq![OutputModel::Invalid],
        }
    } else if t == 0x68 {
        seq![OutputModel::SetMode(mode_of_params(p))]
    } else if t == 0x6c {
        seq![OutputModel::ResetMode(mode_of_params(p))]
    } else if t == 0x6e {
        seq![OutputModel::CursorReport]
    } else {
        seq![OutputModel::Invalid]
    }
}

/// Whether the control sequence with final byte `t` and parameter bytes `p`
/// fails: its parameters cannot be read.
pub open spec fn csi_command_fails(t: u8, p: Seq<u8>) -> bool {
    (is_single_item_command(t) && csi_single_item(t, p) is None) || (t == 0x6d && sgr_outcome(
        p,
    ) is None)
}

/// What feeding the byte `b` to a control sequence parser in state `m` does:
/// the parser after, the items emitted, and how it ends.
pub open spec fn csi_feed(m: CsiModel, b: u8) -> (CsiModel, Seq<OutputModel>, Feed) {
    if csi_is_done(m.state) {
        (m, Seq::empty(), Feed::Failed)
    } else {
        let n = csi_step(m, b);
        match n.state {
            AnsiCsiParserState::Finished(t) => (
                n,
                csi_command_items(t, n.params),
                if csi_command_fails(t, n.params) {
                    Feed::Failed
                } else {
                    Feed::Done
                },
            ),
            AnsiCsiParserState::Invalid => (n, seq![OutputModel::Invalid], Feed::Done),
            _ => (n, Seq::empty(), Feed::Pending),
        }
    }
}

impl AnsiCsiParser {
    /// Feeds one byte of a control sequence and, when the sequence ends,
    /// emits what it stands for.
    #[verifier::rlimit(40)]
    pub fn ansiparser_inner_csi(&mut self, b: u8, output: &mut Vec<TerminalOutput>) -> (r: Result<
        Option<ParserInner>,
        ParserFailures,
    >)
        ensures
            final(self)@ == csi_feed(old(self)@, b).0,
            final(output).deep_view() == old(output).deep_view() + csi_feed(old(self)@, b).1,
            csi_feed(old(self)@, b).2 is Pending ==> r == Ok::<Option<ParserInner>, ParserFailures>(
                None,
            ),
            csi_feed(old(self)@, b).2 is Done ==> r == Ok::<Option<ParserInner>, ParserFailures>(
                Some(ParserInner::Empty),
            ),
            csi_feed(old(self)@, b).2 is Failed ==> r is Err,
            r matches Err(e) ==> if csi_is_done(old(self)@.state) {
                e == ParserFailures::ParsedPushedToOnceFinished
            } else {
                final(self)@.state matches AnsiCsiParserState::Finished(t) && command_error(
                    t,
                    e,
                    final(self)@.params,
                )
            },
    {
        let ghost before = output.deep_view();
        match self.push(b) {
            Ok(()) => {},
            Err(e) => {
                assert(output.deep_view() =~= before + Seq::<OutputModel>::empty());
                return Err(e);
            },
        }
        match self.state {
            AnsiCsiParserState::Finished(t) => {
                let params = self.params.as_slice();
                let r = if t == 0x41 {
                    ansi_parser_inner_csi_finished_move_up(params, output)
                } else if t == 0x42 {
                    ansi_parser_inner_csi_finished_move_down(params, output)
                } else if t == 0x43 {
                    ansi_parser_inner_csi_finished_move_right(params, output)
                } else if t == 0x44 {
                    ansi_parser_inner_csi_finished_move_left(params, output)
                } else if t == 0x48 {
                    ansi_parser_inner_csi_finished_set_position_h(params, output)
                } else if t == 0x47 {
                    ansi_parser_inner_csi_finished_set_position_g(params, output)
                } else if t == 0x4a {
                    ansi_parser_inner_csi_finished_set_position_j(params, output)
                } else if t == 0x4b {
                    ansi_parser_inner_csi_finished_set_position_k(params, output)
                } else if t == 0x4c {
                    ansi_parser_inner_csi_finished_set_position_l(params, output)
                } else if t == 0x50 {
                    ansi_parser_inner_csi_finished_set_position_p(params, output)
                } else if t == 0x40 {
                    ansi_parser_inner_csi_finished_ich(params, output)
                } else if t == 0x6d {
                    ansi_parser_inner_csi_finished_sgr(params, output)
                } else if t == 0x68 {
                    emit(output, TerminalOutput::SetMode(mode_from_params(params)));
                    Ok(Some(ParserInner::Empty))
                } else if t == 0x6c {
                    emit(output, TerminalOutput::ResetMode(mode_from_params(params)));
                    Ok(Some(ParserInner::Empty))
                } else if t == 0x6e {
                    emit(output, TerminalOutput::CursorReport);
                    Ok(Some(ParserInner::Empty))
                } else {
                    emit(output, TerminalOutput::Invalid);
                    Ok(Some(ParserInner::Empty))
                };
                assert(output.deep_view() =~= before + csi_command_items(t, self.params@));
                r
            },
            AnsiCsiParserState::Invalid => {
                emit(output, TerminalOutput::Invalid);
                assert(output.deep_view() =~= before + seq![OutputModel::Invalid]);
                Ok(Some(ParserInner::Empty))
            },
            _ => {
                assert(output.deep_view() =~= before + Seq::<OutputModel>::empty());
                Ok(None)
            },
        }
    }
}

/// `CSI ... h` sets and `CSI ... l` resets the mode that its parameters
/// name, and nothing else: `CSI ? 7 h` turns autowrap on, `CSI ? 7 l` off,
/// `CSI ? 1 h` and `l` do so for application cursor keys.
pub proof fn lemma_set_and_reset_mode_commands(p: Seq<u8>)
    ensures
        csi_command_items('h' as u8, p) == seq![OutputModel::SetMode(mode_of_params(p))],
        csi_command_items('l' as u8, p) == seq![OutputModel::ResetMode(mode_of_params(p))],
        !csi_command_fails('h' as u8, p) && !csi_command_fails('l' as u8, p),
        csi_command_items('h' as u8, seq!['?' as u8, '7' as u8]) == seq![OutputModel::SetMode(ModeModel::Decawm)],
        csi_command_items('l' as u8, seq!['?' as u8, '7' as u8]) == seq![OutputModel::ResetMode(ModeModel::Decawm)],
        csi_command_items('h' as u8, seq!['?' as u8, '1' as u8]) == seq![OutputModel::SetMode(ModeModel::Decckm)],
        csi_command_items('l' as u8, seq!['?' as u8, '1' as u8]) == seq![OutputModel::ResetMode(ModeModel::Decckm)],
{
}

} // verus!
