use freminal::csi_commands::{
    ansi_parser_inner_csi_finished_move_down, ansi_parser_inner_csi_finished_move_left,
    ansi_parser_inner_csi_finished_move_right, ansi_parser_inner_csi_finished_move_up,
    ansi_parser_inner_csi_finished_set_position_g, ansi_parser_inner_csi_finished_set_position_h,
    ansi_parser_inner_csi_finished_set_position_j, ansi_parser_inner_csi_finished_set_position_k,
    ansi_parser_inner_csi_finished_set_position_l, ansi_parser_inner_csi_finished_set_position_p,
    ansi_parser_inner_csi_finished_ich, ansi_parser_inner_csi_finished_sgr,
};
use freminal::colors::TerminalColor;
use freminal::error::ParserFailures;
use freminal::output::TerminalOutput;
use freminal::sgr::SelectGraphicRendition;

#[test]
fn cha_test_cha() {
    let mut output = Vec::new();
    ansi_parser_inner_csi_finished_set_position_g(b"1", &mut output).unwrap();
    assert_eq!(output, vec![TerminalOutput::SetCursorPos { x: Some(1), y: None }]);

    let mut output = Vec::new();
    ansi_parser_inner_csi_finished_set_position_g(b"2", &mut output).unwrap();
    assert_eq!(output, vec![TerminalOutput::SetCursorPos { x: Some(2), y: None }]);

    let mut output = Vec::new();
    ansi_parser_inner_csi_finished_set_position_g(b"3", &mut output).unwrap();
    assert_eq!(output, vec![TerminalOutput::SetCursorPos { x: Some(3), y: None }]);
}

#[test]
fn cub_test_cub() {
    let mut output = Vec::new();
    ansi_parser_inner_csi_finished_move_left(&[], &mut output).unwrap();
    assert_eq!(output, vec![TerminalOutput::SetCursorPosRel { x: Some(-1), y: None }]);

    let mut output = Vec::new();
    ansi_parser_inner_csi_finished_move_left(b"1", &mut output).unwrap();
    assert_eq!(output, vec![TerminalOutput::SetCursorPosRel { x: Some(-1), y: None }]);

    let mut output = Vec::new();
    ansi_parser_inner_csi_finished_move_left(b"2", &mut output).unwrap();
    assert_eq!(output, vec![TerminalOutput::SetCursorPosRel { x: Some(-2), y: None }]);
}

#[test]
fn cud_test_cud() {
    let mut output = Vec::new();
    ansi_parser_inner_csi_finished_move_down(&[], &mut output).unwrap();
    assert_eq!(output, vec![TerminalOutput::SetCursorPosRel { x: None, y: Some(1) }]);

    let mut output = Vec::new();
    ansi_parser_inner_csi_finished_move_down(b"1", &mut output).unwrap();
    assert_eq!(output, vec![TerminalOutput::SetCursorPosRel { x: None, y: Some(1) }]);

    let mut output = Vec::new();
    ansi_parser_inner_csi_finished_move_down(b"2", &mut output).unwrap();
    assert_eq!(output, vec![TerminalOutput::SetCursorPosRel { x: None, y: Some(2) }]);
}

#[test]
fn cuf_test_cuf() {
    let mut output = Vec::new();
    ansi_parser_inner_csi_finished_move_right(&[], &mut output).unwrap();
    assert_eq!(output, vec![TerminalOutput::SetCursorPosRel { x: Some(1), y: None }]);

    let mut output = Vec::new();
    ansi_parser_inner_csi_finished_move_right(b"1", &mut output).unwrap();
    assert_eq!(output, vec![TerminalOutput::SetCursorPosRel { x: Some(1), y: None }]);

    let mut output = Vec::new();
    ansi_parser_inner_csi_finished_move_right(b"2", &mut output).unwrap();
    assert_eq!(output, vec![TerminalOutput::SetCursorPosRel { x: Some(2), y: None }]);
}

#[test]
fn cup_test_cup() {
    let mut output = Vec::new();
    ansi_parser_inner_csi_finished_set_position_h(b"1;1", &mut output).unwrap();
    assert_eq!(output, vec![TerminalOutput::SetCursorPos { x: Some(1), y: Some(1) }]);

    let mut output = Vec::new();
    ansi_parser_inner_csi_finished_set_position_h(b"1;", &mut output).unwrap();
    assert_eq!(output, vec![TerminalOutput::SetCursorPos { x: Some(1), y: Some(1) }]);

    let mut output = Vec::new();
    ansi_parser_inner_csi_finished_set_position_h(b";1", &mut output).unwrap();
    assert_eq!(output, vec![TerminalOutput::SetCursorPos { x: Some(1), y: Some(1) }]);

    let mut output = Vec::new();
    ansi_parser_inner_csi_finished_set_position_h(b"", &mut output).unwrap();
    assert_eq!(output, vec![TerminalOutput::SetCursorPos { x: Some(1), y: Some(1) }]);
}

#[test]
fn cuu_test_cuu() {
    let mut output = Vec::new();
    ansi_parser_inner_csi_finished_move_up(&[], &mut output).unwrap();
    assert_eq!(output, vec![TerminalOutput::SetCursorPosRel { x: None, y: Some(-1) }]);

    let mut output = Vec::new();
    ansi_parser_inner_csi_finished_move_up(b"1", &mut output).unwrap();
    assert_eq!(output, vec![TerminalOutput::SetCursorPosRel { x: None, y: Some(-1) }]);

    let mut output = Vec::new();
    ansi_parser_inner_csi_finished_move_up(b"2", &mut output).unwrap();
    assert_eq!(output, vec![TerminalOutput::SetCursorPosRel { x: None, y: Some(-2) }]);
}

#[test]
fn ed_test_ed() {
    let mut output = Vec::new();
    ansi_parser_inner_csi_finished_set_position_j(&[], &mut output).unwrap();
    assert_eq!(output, vec![TerminalOutput::ClearDisplayfromCursortoEndofDisplay]);

    let mut output = Vec::new();
    ansi_parser_inner_csi_finished_set_position_j(b"1", &mut output).unwrap();
    assert_eq!(output, vec![TerminalOutput::ClearDiplayfromStartofDisplaytoCursor]);

    let mut output = Vec::new();
    ansi_parser_inner_csi_finished_set_position_j(b"2", &mut output).unwrap();
    assert_eq!(output, vec![TerminalOutput::ClearDisplay]);

    let mut output = Vec::new();
    ansi_parser_inner_csi_finished_set_position_j(b"3", &mut output).unwrap();
    assert_eq!(output, vec![TerminalOutput::ClearScrollbackandDisplay]);

    let mut output = Vec::new();
    ansi_parser_inner_csi_finished_set_position_j(b"4", &mut output).unwrap();
    assert_eq!(output, vec![TerminalOutput::Invalid]);
}

#[test]
fn il_test_el() {
    let mut output = Vec::new();
    ansi_parser_inner_csi_finished_set_position_l(&[], &mut output).unwrap();
    assert_eq!(output, vec![TerminalOutput::InsertLines(1)]);

    let mut output = Vec::new();
    ansi_parser_inner_csi_finished_set_position_l(b"1", &mut output).unwrap();
    assert_eq!(output, vec![TerminalOutput::InsertLines(1)]);

    let mut output = Vec::new();
    ansi_parser_inner_csi_finished_set_position_l(b"2", &mut output).unwrap();
    assert_eq!(output, vec![TerminalOutput::InsertLines(2)]);
}

#[test]
fn erase_in_line_variants() {
    let mut output = Vec::new();
    ansi_parser_inner_csi_finished_set_position_k(b"", &mut output).unwrap();
    ansi_parser_inner_csi_finished_set_position_k(b"1", &mut output).unwrap();
    ansi_parser_inner_csi_finished_set_position_k(b"2", &mut output).unwrap();
    ansi_parser_inner_csi_finished_set_position_k(b"3", &mut output).unwrap();
    assert_eq!(
        output,
        vec![
            TerminalOutput::ClearLineForwards,
            TerminalOutput::ClearLineBackwards,
            TerminalOutput::ClearLine,
            TerminalOutput::Invalid,
        ]
    );
}

#[test]
fn delete_characters_default_and_count() {
    let mut output = Vec::new();
    ansi_parser_inner_csi_finished_set_position_p(b"", &mut output).unwrap();
    ansi_parser_inner_csi_finished_set_position_p(b"7", &mut output).unwrap();
    assert_eq!(output, vec![TerminalOutput::Delete(1), TerminalOutput::Delete(7)]);
}

#[test]
fn unreadable_parameters_report_their_command() {
    let mut output = Vec::new();
    let r = ansi_parser_inner_csi_finished_move_up(b"x", &mut output);
    assert_eq!(r.unwrap_err(), ParserFailures::UnhandledCUUCommand(b"x".to_vec()));
    let r = ansi_parser_inner_csi_finished_set_position_h(b"1;?", &mut output);
    assert_eq!(r.unwrap_err(), ParserFailures::UnhandledCUPCommand(b"1;?".to_vec()));
    let r = ansi_parser_inner_csi_finished_set_position_p(b"-1", &mut output);
    assert_eq!(r.unwrap_err(), ParserFailures::UnhandledDCHCommand(b"-1".to_vec()));
    assert_eq!(output, vec![TerminalOutput::Invalid, TerminalOutput::Invalid, TerminalOutput::Invalid]);
}

#[test]
fn most_negative_move_stays_most_negative() {
    let mut output = Vec::new();
    ansi_parser_inner_csi_finished_move_left(b"-2147483648", &mut output).unwrap();
    assert_eq!(output, vec![TerminalOutput::SetCursorPosRel { x: Some(i32::MIN), y: None }]);
}

#[test]
fn sgr_truecolor_and_palette() {
    let mut output = Vec::new();
    ansi_parser_inner_csi_finished_sgr(b"1;38;2;10;20;30;48;5;196", &mut output).unwrap();
    assert_eq!(
        output,
        vec![
            TerminalOutput::Sgr(SelectGraphicRendition::Bold),
            TerminalOutput::Sgr(SelectGraphicRendition::Foreground(TerminalColor::Custom(10, 20, 30))),
            TerminalOutput::Sgr(SelectGraphicRendition::Background(TerminalColor::Custom(255, 0, 0))),
        ]
    );
}

#[test]
fn sgr_color_without_argument_resets() {
    let mut output = Vec::new();
    ansi_parser_inner_csi_finished_sgr(b"38", &mut output).unwrap();
    ansi_parser_inner_csi_finished_sgr(b"48", &mut output).unwrap();
    ansi_parser_inner_csi_finished_sgr(b"58", &mut output).unwrap();
    assert_eq!(
        output,
        vec![
            TerminalOutput::Sgr(SelectGraphicRendition::Foreground(TerminalColor::Default)),
            TerminalOutput::Sgr(SelectGraphicRendition::Background(TerminalColor::DefaultBackground)),
            TerminalOutput::Sgr(SelectGraphicRendition::UnderlineColor(
                TerminalColor::DefaultUnderlineColor
            )),
        ]
    );
}

#[test]
fn sgr_malformed_color_arguments() {
    let mut output = Vec::new();
    ansi_parser_inner_csi_finished_sgr(b"38;2;1;2", &mut output).unwrap();
    ansi_parser_inner_csi_finished_sgr(b"38;5;1;4", &mut output).unwrap();
    ansi_parser_inner_csi_finished_sgr(b"38;9;1", &mut output).unwrap();
    ansi_parser_inner_csi_finished_sgr(b"38;2;300;0;0", &mut output).unwrap();
    assert_eq!(
        output,
        vec![
            TerminalOutput::Invalid,
            TerminalOutput::Invalid,
            TerminalOutput::Invalid,
            TerminalOutput::Sgr(SelectGraphicRendition::Bold),
            TerminalOutput::Invalid,
        ]
    );
}

#[test]
fn sgr_empty_field_stops_the_list() {
    let mut output = Vec::new();
    ansi_parser_inner_csi_finished_sgr(b"1;;4", &mut output).unwrap();
    assert_eq!(output, vec![TerminalOutput::Sgr(SelectGraphicRendition::Bold)]);
    let mut output = Vec::new();
    let r = ansi_parser_inner_csi_finished_sgr(b"1;x", &mut output);
    assert_eq!(r.unwrap_err(), ParserFailures::UnhandledSGRCommand(b"1;x".to_vec()));
    assert_eq!(output, vec![TerminalOutput::Invalid]);
}

#[test]
fn csi_commands_test_cha() {
    let mut output = Vec::new();
    ansi_parser_inner_csi_finished_set_position_g(b"1", &mut output).unwrap();
    assert_eq!(output, vec![TerminalOutput::SetCursorPos { x: Some(1), y: None }]);

    let mut output = Vec::new();
    ansi_parser_inner_csi_finished_set_position_g(b"2", &mut output).unwrap();
    assert_eq!(output, vec![TerminalOutput::SetCursorPos { x: Some(2), y: None }]);

    let mut output = Vec::new();
    ansi_parser_inner_csi_finished_set_position_g(b"3", &mut output).unwrap();
    assert_eq!(output, vec![TerminalOutput::SetCursorPos { x: Some(3), y: None }]);

    let mut output = Vec::new();
    let result = ansi_parser_inner_csi_finished_set_position_g(b"test", &mut output);
    assert!(result.is_err());
    assert_eq!(output, vec![TerminalOutput::Invalid]);
}

#[test]
fn csi_commands_test_cub() {
    let mut output = Vec::new();
    ansi_parser_inner_csi_finished_move_left(&[], &mut output).unwrap();
    assert_eq!(output, vec![TerminalOutput::SetCursorPosRel { x: Some(-1), y: None }]);

    let mut output = Vec::new();
    ansi_parser_inner_csi_finished_move_left(b"1", &mut output).unwrap();
    assert_eq!(output, vec![TerminalOutput::SetCursorPosRel { x: Some(-1), y: None }]);

    let mut output = Vec::new();
    ansi_parser_inner_csi_finished_move_left(b"2", &mut output).unwrap();
    assert_eq!(output, vec![TerminalOutput::SetCursorPosRel { x: Some(-2), y: None }]);

    let mut output = Vec::new();
    let result = ansi_parser_inner_csi_finished_move_left(b"test", &mut output);
    assert_eq!(output, vec![TerminalOutput::Invalid]);
    assert!(result.is_err());
}

#[test]
fn csi_commands_test_cud() {
    let mut output = Vec::new();
    ansi_parser_inner_csi_finished_move_down(&[], &mut output).unwrap();
    assert_eq!(output, vec![TerminalOutput::SetCursorPosRel { x: None, y: Some(1) }]);

    let mut output = Vec::new();
    ansi_parser_inner_csi_finished_move_down(b"1", &mut output).unwrap();
    assert_eq!(output, vec![TerminalOutput::SetCursorPosRel { x: None, y: Some(1) }]);

    let mut output = Vec::new();
    ansi_parser_inner_csi_finished_move_down(b"2", &mut output).unwrap();
    assert_eq!(output, vec![TerminalOutput::SetCursorPosRel { x: None, y: Some(2) }]);

    let mut output = Vec::new();
    let result = ansi_parser_inner_csi_finished_move_down(b"test", &mut output);
    assert_eq!(output, vec![TerminalOutput::Invalid]);
    assert!(result.is_err());
}

#[test]
fn csi_commands_test_cuf() {
    let mut output = Vec::new();
    ansi_parser_inner_csi_finished_move_right(&[], &mut output).unwrap();
    assert_eq!(output, vec![TerminalOutput::SetCursorPosRel { x: Some(1), y: None }]);

    let mut output = Vec::new();
    ansi_parser_inner_csi_finished_move_right(b"1", &mut output).unwrap();
    assert_eq!(output, vec![TerminalOutput::SetCursorPosRel { x: Some(1), y: None }]);

    let mut output = Vec::new();
    ansi_parser_inner_csi_finished_move_right(b"2", &mut output).unwrap();
    assert_eq!(output, vec![TerminalOutput::SetCursorPosRel { x: Some(2), y: None }]);

    let mut output = Vec::new();
    let result = ansi_parser_inner_csi_finished_move_right(b"test", &mut output);
    assert_eq!(output, vec![TerminalOutput::Invalid]);
    assert!(result.is_err());
}

#[test]
fn csi_commands_test_cup() {
    let mut output = Vec::new();
    ansi_parser_inner_csi_finished_set_position_h(b"1;1", &mut output).unwrap();
    assert_eq!(output, vec![TerminalOutput::SetCursorPos { x: Some(1), y: Some(1) }]);

    let mut output = Vec::new();
    ansi_parser_inner_csi_finished_set_position_h(b"1;", &mut output).unwrap();
    assert_eq!(output, vec![TerminalOutput::SetCursorPos { x: Some(1), y: Some(1) }]);

    let mut output = Vec::new();
    ansi_parser_inner_csi_finished_set_position_h(b";1", &mut output).unwrap();
    assert_eq!(output, vec![TerminalOutput::SetCursorPos { x: Some(1), y: Some(1) }]);

    let mut output = Vec::new();
    ansi_parser_inner_csi_finished_set_position_h(b"", &mut output).unwrap();
    assert_eq!(output, vec![TerminalOutput::SetCursorPos { x: Some(1), y: Some(1) }]);

    let mut output = Vec::new();
    let result = ansi_parser_inner_csi_finished_set_position_h(b"test", &mut output);
    assert_eq!(output, vec![TerminalOutput::Invalid]);
    assert!(result.is_err());
}

#[test]
fn csi_commands_test_cuu() {
    let mut output = Vec::new();
    ansi_parser_inner_csi_finished_move_up(&[], &mut output).unwrap();
    assert_eq!(output, vec![TerminalOutput::SetCursorPosRel { x: None, y: Some(-1) }]);

    let mut output = Vec::new();
    ansi_parser_inner_csi_finished_move_up(b"1", &mut output).unwrap();
    assert_eq!(output, vec![TerminalOutput::SetCursorPosRel { x: None, y: Some(-1) }]);

    let mut output = Vec::new();
    ansi_parser_inner_csi_finished_move_up(b"2", &mut output).unwrap();
    assert_eq!(output, vec![TerminalOutput::SetCursorPosRel { x: None, y: Some(-2) }]);

    let mut output = Vec::new();
    let result = ansi_parser_inner_csi_finished_move_up(b"test", &mut output);
    assert_eq!(output, vec![TerminalOutput::Invalid]);
    assert!(result.is_err());
}

#[test]
fn test_dch() {
    let mut output = Vec::new();

    ansi_parser_inner_csi_finished_set_position_p(&[], &mut output).unwrap();
    assert_eq!(output, vec![TerminalOutput::Delete(1)]);

    output.clear();
    ansi_parser_inner_csi_finished_set_position_p(b"0", &mut output).unwrap();
    assert_eq!(output, vec![TerminalOutput::Delete(0)]);

    output.clear();
    ansi_parser_inner_csi_finished_set_position_p(b"1", &mut output).unwrap();
    assert_eq!(output, vec![TerminalOutput::Delete(1)]);

    output.clear();
    ansi_parser_inner_csi_finished_set_position_p(b"2", &mut output).unwrap();
    assert_eq!(output, vec![TerminalOutput::Delete(2)]);

    output.clear();
    let result = ansi_parser_inner_csi_finished_set_position_p(b"test", &mut output);
    assert_eq!(output, vec![TerminalOutput::Invalid]);
    assert!(result.is_err());
}

#[test]
fn csi_commands_test_ed() {
    let mut output = Vec::new();
    ansi_parser_inner_csi_finished_set_position_j(&[], &mut output).unwrap();
    assert_eq!(output, vec![TerminalOutput::ClearDisplayfromCursortoEndofDisplay]);

    let mut output = Vec::new();
    ansi_parser_inner_csi_finished_set_position_j(b"1", &mut output).unwrap();
    assert_eq!(output, vec![TerminalOutput::ClearDiplayfromStartofDisplaytoCursor]);

    let mut output = Vec::new();
    ansi_parser_inner_csi_finished_set_position_j(b"2", &mut output).unwrap();
    assert_eq!(output, vec![TerminalOutput::ClearDisplay]);

    let mut output = Vec::new();
    ansi_parser_inner_csi_finished_set_position_j(b"3", &mut output).unwrap();
    assert_eq!(output, vec![TerminalOutput::ClearScrollbackandDisplay]);

    let mut output = Vec::new();
    ansi_parser_inner_csi_finished_set_position_j(b"4", &mut output).unwrap();
    assert_eq!(output, vec![TerminalOutput::Invalid]);

    let mut output = Vec::new();
    let result = ansi_parser_inner_csi_finished_set_position_j(b"test", &mut output);
    assert_eq!(output, vec![TerminalOutput::Invalid]);
    assert!(result.is_err());
}

#[test]
fn csi_commands_test_el() {
    let mut output = Vec::new();

    ansi_parser_inner_csi_finished_set_position_k(b"0", &mut output).unwrap();
    assert_eq!(output, vec![TerminalOutput::ClearLineForwards]);

    output.clear();
    ansi_parser_inner_csi_finished_set_position_k(b"1", &mut output).unwrap();
    assert_eq!(output, vec![TerminalOutput::ClearLineBackwards]);

    output.clear();
    ansi_parser_inner_csi_finished_set_position_k(b"2", &mut output).unwrap();
    assert_eq!(output, vec![TerminalOutput::ClearLine]);

    output.clear();
    ansi_parser_inner_csi_finished_set_position_k(b"3", &mut output).unwrap();
    assert_eq!(output, vec![TerminalOutput::Invalid]);

    output.clear();
    ansi_parser_inner_csi_finished_set_position_k(b"", &mut output).unwrap();
    assert_eq!(output, vec![TerminalOutput::ClearLineForwards]);

    output.clear();
    let result = ansi_parser_inner_csi_finished_set_position_k(b"test", &mut output);
    assert_eq!(output, vec![TerminalOutput::Invalid]);
    assert!(result.is_err());
}

#[test]
fn test_ich() {
    let mut output = Vec::new();
    let mut params = Vec::new();

    ansi_parser_inner_csi_finished_ich(&params, &mut output).unwrap();
    assert_eq!(output, vec![TerminalOutput::InsertSpaces(1)]);

    output.clear();
    params.push(b'0');
    ansi_parser_inner_csi_finished_ich(&params, &mut output).unwrap();
    assert_eq!(output, vec![TerminalOutput::InsertSpaces(0)]);

    output.clear();
    params.push(b';');
    let result = ansi_parser_inner_csi_finished_ich(&params, &mut output);
    assert!(result.is_err());
    assert_eq!(output, vec![TerminalOutput::Invalid]);
}

#[test]
fn test_il() {
    let mut output = Vec::new();
    ansi_parser_inner_csi_finished_set_position_l(&[], &mut output).unwrap();
    assert_eq!(output, vec![TerminalOutput::InsertLines(1)]);

    let mut output = Vec::new();
    ansi_parser_inner_csi_finished_set_position_l(b"1", &mut output).unwrap();
    assert_eq!(output, vec![TerminalOutput::InsertLines(1)]);

    let mut output = Vec::new();
    ansi_parser_inner_csi_finished_set_position_l(b"2", &mut output).unwrap();
    assert_eq!(output, vec![TerminalOutput::InsertLines(2)]);

    let mut output = Vec::new();
    let result = ansi_parser_inner_csi_finished_set_position_l(b"test", &mut output);
    assert_eq!(output, vec![TerminalOutput::Invalid]);
    assert!(result.is_err());
}

#[test]
fn test_sgr_invalid() {
    let mut output = Vec::new();
    let params = b"test";
    let result = ansi_parser_inner_csi_finished_sgr(params, &mut output);
    assert!(result.is_err());
    assert_eq!(output, vec![TerminalOutput::Invalid]);

    let mut output = Vec::new();
    let params = b"";
    let result = ansi_parser_inner_csi_finished_sgr(params, &mut output);
    assert!(result.is_ok());
    assert_eq!(output, vec![TerminalOutput::Sgr(SelectGraphicRendition::Reset)], "Failed for {output:?}");

    let mut output = Vec::new();
    let params = b"38";
    let result = ansi_parser_inner_csi_finished_sgr(params, &mut output);
    assert!(result.is_ok());
    assert_eq!(
        output,
        vec![TerminalOutput::Sgr(SelectGraphicRendition::Foreground(TerminalColor::Default))],
        "Failed for {output:?}"
    );

    let mut output = Vec::new();
    let params = b"48";
    let result = ansi_parser_inner_csi_finished_sgr(params, &mut output);
    assert!(result.is_ok());
    assert_eq!(
        output,
        vec![TerminalOutput::Sgr(SelectGraphicRendition::Background(TerminalColor::DefaultBackground))],
        "Failed for {output:?}"
    );

    let mut output = Vec::new();
    let params = b"58";
    let result = ansi_parser_inner_csi_finished_sgr(params, &mut output);
    assert!(result.is_ok());
    assert_eq!(
        output,
        vec![TerminalOutput::Sgr(SelectGraphicRendition::UnderlineColor(
            TerminalColor::DefaultUnderlineColor
        ))],
        "Failed for {output:?}"
    );

    let mut output = Vec::new();
    let params = b"38;2";
    let result = ansi_parser_inner_csi_finished_sgr(params, &mut output);
    assert!(result.is_ok());
    assert_eq!(output, vec![TerminalOutput::Invalid]);

    let mut output = Vec::new();
    let params = b"48;5";
    let result = ansi_parser_inner_csi_finished_sgr(params, &mut output);
    assert!(result.is_ok());
    assert_eq!(output, vec![TerminalOutput::Invalid]);

    let mut output = Vec::new();
    let params = b"58;2;255";
    let result = ansi_parser_inner_csi_finished_sgr(params, &mut output);
    assert!(result.is_ok());
    assert_eq!(output, vec![TerminalOutput::Invalid]);
}

#[test]
fn sgr_underline_truecolor_is_unknown() {
    let mut output = Vec::new();
    ansi_parser_inner_csi_finished_sgr(b"58;2;1;2;3", &mut output).unwrap();
    assert_eq!(output, vec![TerminalOutput::Sgr(SelectGraphicRendition::Unknown(58))]);
    assert_eq!(SelectGraphicRendition::from_usize_color(58, 1, 2, 3), SelectGraphicRendition::Unknown(58));
    assert_eq!(
        SelectGraphicRendition::from_usize_color(38, 1, 2, 3),
        SelectGraphicRendition::Foreground(TerminalColor::Custom(1, 2, 3))
    );
}
