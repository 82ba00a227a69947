use freminal::error::ParserFailures;
use freminal::ansi::{FreminalAnsiParser, ParserInner};
use freminal::colors::TerminalColor;
use freminal::csi::{AnsiCsiParser, AnsiCsiParserState};
use freminal::mode::Mode;
use freminal::osc_types::{AnsiOscInternalType, AnsiOscType};
use freminal::output::TerminalOutput;
use freminal::params::parse_param_as;
use freminal::sgr::SelectGraphicRendition;

fn color_code(code: u8) -> String {
    format!("\x1b[{code}m")
}

#[test]
fn test_set_cursor_position() {
    let mut output_buffer = FreminalAnsiParser::new();
    let parsed = output_buffer.push(b"\x1b[32;15H");
    assert_eq!(parsed.len(), 1);
    assert!(matches!(parsed[0], TerminalOutput::SetCursorPos { y: Some(32), x: Some(15) }));

    let parsed = output_buffer.push(b"\x1b[;32H");
    assert_eq!(parsed.len(), 1);
    assert!(matches!(parsed[0], TerminalOutput::SetCursorPos { y: Some(1), x: Some(32) }));

    let parsed = output_buffer.push(b"\x1b[32H");
    assert_eq!(parsed.len(), 1);
    assert!(matches!(parsed[0], TerminalOutput::SetCursorPos { y: Some(32), x: Some(1) }));

    let parsed = output_buffer.push(b"\x1b[32;H");
    assert_eq!(parsed.len(), 1);
    assert!(matches!(parsed[0], TerminalOutput::SetCursorPos { y: Some(32), x: Some(1) }));

    let parsed = output_buffer.push(b"\x1b[H");
    assert_eq!(parsed.len(), 1);
    assert!(matches!(parsed[0], TerminalOutput::SetCursorPos { y: Some(1), x: Some(1) }));

    let parsed = output_buffer.push(b"\x1b[;H");
    assert_eq!(parsed.len(), 1);
    assert!(matches!(parsed[0], TerminalOutput::SetCursorPos { y: Some(1), x: Some(1) }));
}

#[test]
fn test_clear() {
    let mut output_buffer = FreminalAnsiParser::new();
    let parsed = output_buffer.push(b"\x1b[J");
    assert_eq!(parsed.len(), 1);
    assert!(matches!(parsed[0], TerminalOutput::ClearDisplayfromCursortoEndofDisplay));

    let mut output_buffer = FreminalAnsiParser::new();
    let parsed = output_buffer.push(b"\x1b[0J");
    assert_eq!(parsed.len(), 1);
    assert!(matches!(parsed[0], TerminalOutput::ClearDisplayfromCursortoEndofDisplay));

    let mut output_buffer = FreminalAnsiParser::new();
    let parsed = output_buffer.push(b"\x1b[2J");
    assert_eq!(parsed.len(), 1);
    assert!(matches!(parsed[0], TerminalOutput::ClearDisplay));
}

#[test]
fn test_invalid_clear() {
    let mut output_buffer = FreminalAnsiParser::new();
    let parsed = output_buffer.push(b"\x1b[8J");
    assert_eq!(parsed.len(), 1);
    assert!(matches!(parsed[0], TerminalOutput::Invalid));
}

#[test]
fn test_invalid_csi() {
    let mut output_buffer = FreminalAnsiParser::new();
    let parsed = output_buffer.push(b"\x1b[-23;H");
    assert!(matches!(parsed[0], TerminalOutput::Invalid));

    let mut output_buffer = FreminalAnsiParser::new();
    let parsed = output_buffer.push(b"\x1b[asdf");
    assert!(matches!(parsed[0], TerminalOutput::Invalid));
}

#[test]
fn test_parsing_unknown_csi() {
    let mut parser = AnsiCsiParser::new();
    for b in b"0123456789:;<=>?!\"#$%&'()*+,-./}" {
        parser.push(*b).unwrap();
    }

    assert_eq!(parser.params, b"0123456789:;<=>?");
    assert_eq!(parser.intermediates, b"!\"#$%&'()*+,-./");
    assert!(matches!(parser.state, AnsiCsiParserState::Finished(b'}')));

    let mut parser = AnsiCsiParser::new();
    parser.push(0x40).unwrap();

    assert_eq!(parser.params, &[]);
    assert_eq!(parser.intermediates, &[]);
    assert!(matches!(parser.state, AnsiCsiParserState::Finished(0x40)));

    let mut parser = AnsiCsiParser::new();
    parser.push(0x7e).unwrap();

    assert_eq!(parser.params, &[]);
    assert_eq!(parser.intermediates, &[]);
    assert!(matches!(parser.state, AnsiCsiParserState::Finished(0x7e)));
}

#[test]
fn test_parsing_invalid_csi() {
    let mut parser = AnsiCsiParser::new();
    for b in b"0$0" {
        parser.push(*b).unwrap();
    }

    assert!(matches!(parser.state, AnsiCsiParserState::Invalid));
    parser.push(b'm').unwrap();
    assert!(matches!(parser.state, AnsiCsiParserState::InvalidFinished));
}

#[test]
fn test_empty_sgr() {
    let mut output_buffer = FreminalAnsiParser::new();
    let parsed = output_buffer.push(b"\x1b[m");
    assert!(matches!(parsed[0], TerminalOutput::Sgr(SelectGraphicRendition::Reset)));
}

#[test]
fn test_color_parsing() {
    let mut output_buffer = FreminalAnsiParser::new();

    let mut test_input = String::new();
    for i in 30..=37 {
        test_input.push_str(&color_code(i));
        test_input.push('a');
    }

    for i in 90..=97 {
        test_input.push_str(&color_code(i));
        test_input.push('a');
    }

    let output = output_buffer.push(test_input.as_bytes());
    let colors = [
        TerminalColor::Black,
        TerminalColor::Red,
        TerminalColor::Green,
        TerminalColor::Yellow,
        TerminalColor::Blue,
        TerminalColor::Magenta,
        TerminalColor::Cyan,
        TerminalColor::White,
        TerminalColor::BrightBlack,
        TerminalColor::BrightRed,
        TerminalColor::BrightGreen,
        TerminalColor::BrightYellow,
        TerminalColor::BrightBlue,
        TerminalColor::BrightMagenta,
        TerminalColor::BrightCyan,
        TerminalColor::BrightWhite,
    ];
    let mut expected = Vec::new();
    for c in colors {
        expected.push(TerminalOutput::Sgr(SelectGraphicRendition::Foreground(c)));
        expected.push(TerminalOutput::Data(b"a".to_vec()));
    }
    assert_eq!(output, expected);
}

#[test]
fn test_mode_parsing() {
    let mut output_buffer = FreminalAnsiParser::new();
    let output = output_buffer.push(b"\x1b[1h");
    assert_eq!(output.len(), 1);
    assert_eq!(output[0], TerminalOutput::SetMode(Mode::Unknown(b"1".to_vec())));

    let output = output_buffer.push(b"\x1b[1l");
    assert_eq!(output.len(), 1);
    assert_eq!(output[0], TerminalOutput::ResetMode(Mode::Unknown(b"1".to_vec())));

    let output = output_buffer.push(b"\x1b[?1l");
    assert_eq!(output.len(), 1);
    assert_eq!(output[0], TerminalOutput::ResetMode(Mode::Decckm));

    let output = output_buffer.push(b"\x1b[?1h");
    assert_eq!(output.len(), 1);
    assert_eq!(output[0], TerminalOutput::SetMode(Mode::Decckm));
}

#[test]
fn test_set_cursor_pos() {
    let mut output_buffer = FreminalAnsiParser::new();
    for input in [&b"\x1b[1;1H"[..], b"\x1b[;1H", b"\x1b[1;H", b"\x1b[H", b"\x1b[;H"] {
        let output = output_buffer.push(input);
        assert_eq!(output.len(), 1);
        assert_eq!(output[0], TerminalOutput::SetCursorPos { x: Some(1), y: Some(1) });
    }
}

#[test]
fn test_rel_move_up_parsing() {
    let mut output_buffer = FreminalAnsiParser::new();
    let output = output_buffer.push(b"\x1b[1A");
    assert_eq!(output.len(), 1);
    assert_eq!(output[0], TerminalOutput::SetCursorPosRel { x: None, y: Some(-1) });

    let output = output_buffer.push(b"\x1b[A");
    assert_eq!(output.len(), 1);
    assert_eq!(output[0], TerminalOutput::SetCursorPosRel { x: None, y: Some(-1) });

    let output = output_buffer.push(b"\x1b[10A");
    assert_eq!(output.len(), 1);
    assert_eq!(output[0], TerminalOutput::SetCursorPosRel { x: None, y: Some(-10) });
}

#[test]
fn test_rel_move_down_parsing() {
    let mut output_buffer = FreminalAnsiParser::new();
    let output = output_buffer.push(b"\x1b[1B");
    assert_eq!(output.len(), 1);
    assert_eq!(output[0], TerminalOutput::SetCursorPosRel { x: None, y: Some(1) });

    let output = output_buffer.push(b"\x1b[B");
    assert_eq!(output.len(), 1);
    assert_eq!(output[0], TerminalOutput::SetCursorPosRel { x: None, y: Some(1) });

    let output = output_buffer.push(b"\x1b[10B");
    assert_eq!(output.len(), 1);
    assert_eq!(output[0], TerminalOutput::SetCursorPosRel { x: None, y: Some(10) });
}

#[test]
fn test_rel_move_right_parsing() {
    let mut output_buffer = FreminalAnsiParser::new();
    let output = output_buffer.push(b"\x1b[1C");
    assert_eq!(output.len(), 1);
    assert_eq!(output[0], TerminalOutput::SetCursorPosRel { y: None, x: Some(1) });

    let output = output_buffer.push(b"\x1b[C");
    assert_eq!(output.len(), 1);
    assert_eq!(output[0], TerminalOutput::SetCursorPosRel { y: None, x: Some(1) });

    let output = output_buffer.push(b"\x1b[10C");
    assert_eq!(output.len(), 1);
    assert_eq!(output[0], TerminalOutput::SetCursorPosRel { y: None, x: Some(10) });
}

#[test]
fn test_rel_move_left_parsing() {
    let mut output_buffer = FreminalAnsiParser::new();
    let output = output_buffer.push(b"\x1b[1D");
    assert_eq!(output.len(), 1);
    assert_eq!(output[0], TerminalOutput::SetCursorPosRel { y: None, x: Some(-1) });

    let output = output_buffer.push(b"\x1b[D");
    assert_eq!(output.len(), 1);
    assert_eq!(output[0], TerminalOutput::SetCursorPosRel { y: None, x: Some(-1) });

    let output = output_buffer.push(b"\x1b[10D");
    assert_eq!(output.len(), 1);
    assert_eq!(output[0], TerminalOutput::SetCursorPosRel { y: None, x: Some(-10) });
}

#[test]
fn test_osc_response() {
    let mut output_buffer = FreminalAnsiParser::new();
    let output = output_buffer.push(b"\x1b]0;test\x07");
    assert_eq!(output.len(), 1);
    assert_eq!(output[0], TerminalOutput::OscResponse(AnsiOscType::SetTitleBar("test".to_string())));

    let output = output_buffer.push(b"\x1b]133;test\x07");
    assert_eq!(output.len(), 1);
    assert_eq!(output[0], TerminalOutput::OscResponse(AnsiOscType::Ftcs("test".to_string())));

    let output = output_buffer.push(b"\x1b]11;?\x07");
    assert_eq!(output.len(), 1);
    assert_eq!(
        output[0],
        TerminalOutput::OscResponse(AnsiOscType::RequestColorQueryBackground(AnsiOscInternalType::Query))
    );

    let output = output_buffer.push(b"\x1b]10;?\x07");
    assert_eq!(output.len(), 1);
    assert_eq!(
        output[0],
        TerminalOutput::OscResponse(AnsiOscType::RequestColorQueryForeground(AnsiOscInternalType::Query))
    );
}

#[test]
fn test_delete() {
    let mut output_buffer = FreminalAnsiParser::new();
    let output = output_buffer.push(b"\x1b[1P");
    assert_eq!(output.len(), 1);
    assert_eq!(output[0], TerminalOutput::Delete(1));

    let output = output_buffer.push(b"\x1b[P");
    assert_eq!(output.len(), 1);
    assert_eq!(output[0], TerminalOutput::Delete(1));

    let output = output_buffer.push(b"\x1b[10P");
    assert_eq!(output.len(), 1);
    assert_eq!(output[0], TerminalOutput::Delete(10));
}

#[test]
fn ansi_test_insert_lines() {
    let mut output_buffer = FreminalAnsiParser::new();
    let output = output_buffer.push(b"\x1b[1L");
    assert_eq!(output.len(), 1);
    assert_eq!(output[0], TerminalOutput::InsertLines(1));

    let output = output_buffer.push(b"\x1b[L");
    assert_eq!(output.len(), 1);
    assert_eq!(output[0], TerminalOutput::InsertLines(1));

    let output = output_buffer.push(b"\x1b[10L");
    assert_eq!(output.len(), 1);
    assert_eq!(output[0], TerminalOutput::InsertLines(10));
}

#[test]
fn test_insert_spaces() {
    let mut output_buffer = FreminalAnsiParser::new();
    let output = output_buffer.push(b"\x1b[1@");
    assert_eq!(output.len(), 1);
    assert_eq!(output[0], TerminalOutput::InsertSpaces(1));

    let output = output_buffer.push(b"\x1b[@");
    assert_eq!(output.len(), 1);
    assert_eq!(output[0], TerminalOutput::InsertSpaces(1));

    let output = output_buffer.push(b"\x1b[10@");
    assert_eq!(output.len(), 1);
    assert_eq!(output[0], TerminalOutput::InsertSpaces(10));
}

#[test]
fn test_parse_str_fail_on_conversion() {
    let result = parse_param_as::<bool>(b"123");
    assert!(result.is_err());
}

#[test]
fn test_verify_parser_state_internal_is_csi() {
    let mut parser = FreminalAnsiParser::new();
    let output = parser.push(b"\x1b[");
    assert_eq!(output.len(), 0);
    assert!(matches!(parser.inner, ParserInner::Csi(_)));
}

#[test]
fn test_verify_parser_state_internal_is_osc() {
    let mut parser = FreminalAnsiParser::new();
    let output = parser.push(b"\x1b]");
    assert_eq!(output.len(), 0);
    assert!(matches!(parser.inner, ParserInner::Osc(_)));
}

#[test]
fn test_application_keypad_support_mode() {
    let mut output_buffer = FreminalAnsiParser::new();
    let output = output_buffer.push(b"\x1b=");
    assert_eq!(output.len(), 1);
    assert_eq!(output[0], TerminalOutput::ApplicationKeypadMode);
}

#[test]
fn test_normal_keypad_support_mode() {
    let mut output_buffer = FreminalAnsiParser::new();
    let output = output_buffer.push(b"\x1b>");
    assert_eq!(output.len(), 1);
    assert_eq!(output[0], TerminalOutput::NormalKeypadMode);
}

#[test]
fn test_terminal_output_backspace() {
    let mut output_buffer = FreminalAnsiParser::new();
    let output = output_buffer.push(b"\x08");
    assert_eq!(output.len(), 1);
    assert_eq!(output[0], TerminalOutput::Backspace);
}

#[test]
fn test_terminal_output_bell() {
    let mut output_buffer = FreminalAnsiParser::new();
    let output = output_buffer.push(b"\x07");
    assert_eq!(output.len(), 1);
    assert_eq!(output[0], TerminalOutput::Bell);
}

#[test]
fn test_invalid_inner_escape() {
    let mut output_buffer = FreminalAnsiParser::new();
    let output = output_buffer.push(b"\x1b_");
    assert_eq!(output.len(), 0);
    assert!(matches!(output_buffer.inner, ParserInner::Empty));
}

#[test]
fn text_is_flushed_around_controls() {
    let mut parser = FreminalAnsiParser::new();
    let output = parser.push(b"ab\r\ncd\x1b[2Kef");
    assert_eq!(
        output,
        vec![
            TerminalOutput::Data(b"ab".to_vec()),
            TerminalOutput::CarriageReturn,
            TerminalOutput::Newline,
            TerminalOutput::Data(b"cd".to_vec()),
            TerminalOutput::ClearLine,
            TerminalOutput::Data(b"ef".to_vec()),
        ]
    );
}

#[test]
fn sequence_split_across_pushes() {
    let mut parser = FreminalAnsiParser::new();
    assert_eq!(parser.push(b"\x1b[1"), vec![]);
    assert_eq!(parser.push(b"2;3"), vec![]);
    assert_eq!(parser.push(b"H"), vec![TerminalOutput::SetCursorPos { x: Some(3), y: Some(12) }]);
    assert!(matches!(parser.inner, ParserInner::Empty));
}

#[test]
fn osc_with_string_terminator_and_icon_name() {
    let mut parser = FreminalAnsiParser::new();
    let output = parser.push(b"\x1b]2;hello\x1b\\\x1b]1;icon\x07\x1b]99;x\x07");
    assert_eq!(
        output,
        vec![
            TerminalOutput::OscResponse(AnsiOscType::SetTitleBar("hello".to_string())),
            TerminalOutput::Skipped,
            TerminalOutput::Invalid,
        ]
    );
}

#[test]
fn osc_title_without_text_names_unknown() {
    let mut parser = FreminalAnsiParser::new();
    let output = parser.push(b"\x1b]0\x07");
    assert_eq!(
        output,
        vec![TerminalOutput::OscResponse(AnsiOscType::SetTitleBar("Unknown(None)".to_string()))]
    );
    let output = parser.push(b"\x1b]0;7\x07");
    assert_eq!(
        output,
        vec![TerminalOutput::OscResponse(AnsiOscType::SetTitleBar("Unknown(Some(U8(7)))".to_string()))]
    );
}

#[test]
fn failed_command_ends_the_sequence() {
    let mut parser = FreminalAnsiParser::new();
    let output = parser.push(b"\x1b[?J");
    assert_eq!(output, vec![TerminalOutput::Invalid]);
    assert!(matches!(parser.inner, ParserInner::Empty));
}

#[test]
fn test_fmt_display_terminal_output() {
    let output = TerminalOutput::SetCursorPos {
        x: Some(1),
        y: Some(1),
    };
    assert_eq!(output.to_display_string(), "SetCursorPos: x: Some(1), y: Some(1)");

    let output = TerminalOutput::SetCursorPosRel {
        x: Some(1),
        y: Some(1),
    };
    assert_eq!(
        output.to_display_string(),
        "SetCursorPosRel: x: Some(1), y: Some(1)"
    );

    let output = TerminalOutput::ClearDisplayfromCursortoEndofDisplay;
    assert_eq!(output.to_display_string(), "ClearForwards");

    let output = TerminalOutput::ClearScrollbackandDisplay;
    assert_eq!(output.to_display_string(), "ClearAll");

    let output = TerminalOutput::CarriageReturn;
    assert_eq!(output.to_display_string(), "CarriageReturn");

    let output = TerminalOutput::ClearLineForwards;
    assert_eq!(output.to_display_string(), "ClearLineForwards");

    let output = TerminalOutput::Newline;
    assert_eq!(output.to_display_string(), "Newline");

    let output = TerminalOutput::Backspace;
    assert_eq!(output.to_display_string(), "Backspace");

    let output = TerminalOutput::Bell;
    assert_eq!(output.to_display_string(), "Bell");

    let output = TerminalOutput::InsertLines(1);
    assert_eq!(output.to_display_string(), "InsertLines(1)");

    let output = TerminalOutput::Delete(1);
    assert_eq!(output.to_display_string(), "Delete(1)");

    let output = TerminalOutput::Sgr(SelectGraphicRendition::Reset);
    assert_eq!(output.to_display_string(), "Sgr(Reset)");

    let output = TerminalOutput::Data(b"test".to_vec());
    assert_eq!(output.to_display_string(), "Data(test)");

    let output = TerminalOutput::SetMode(Mode::Decckm);
    assert_eq!(output.to_display_string(), "SetMode(Decckm)");

    let output = TerminalOutput::ResetMode(Mode::Decckm);
    assert_eq!(output.to_display_string(), "ResetMode(Decckm)");

    let output = TerminalOutput::InsertSpaces(1);
    assert_eq!(output.to_display_string(), "InsertSpaces(1)");

    let output = TerminalOutput::OscResponse(AnsiOscType::SetTitleBar("test".to_string()));
    assert_eq!(output.to_display_string(), "OscResponse(SetTitleBar(\"test\"))");

    let output = TerminalOutput::CursorReport;
    assert_eq!(output.to_display_string(), "CursorReport");

    let output = TerminalOutput::Invalid;
    assert_eq!(output.to_display_string(), "Invalid");

    let output = TerminalOutput::Skipped;
    assert_eq!(output.to_display_string(), "Skipped");

    let output = TerminalOutput::ApplicationKeypadMode;
    assert_eq!(output.to_display_string(), "ApplicationKeypadMode");

    let output = TerminalOutput::NormalKeypadMode;
    assert_eq!(output.to_display_string(), "NormalKeypadMode");
}

#[test]
fn display_text_matches_debug_formatting() {
    let items = [
        TerminalOutput::Sgr(SelectGraphicRendition::Foreground(TerminalColor::Custom(1, 22, 255))),
        TerminalOutput::Sgr(SelectGraphicRendition::UnderlineColor(TerminalColor::BrightMagenta)),
        TerminalOutput::Sgr(SelectGraphicRendition::Unknown(73)),
    ];
    for item in &items {
        match item {
            TerminalOutput::Sgr(s) => assert_eq!(item.to_display_string(), format!("Sgr({s:?})")),
            _ => unreachable!(),
        }
    }
    let output = TerminalOutput::SetCursorPosRel { x: Some(-7), y: None };
    assert_eq!(output.to_display_string(), "SetCursorPosRel: x: Some(-7), y: None");
    let output = TerminalOutput::SetMode(Mode::Unknown(b"?25".to_vec()));
    assert_eq!(output.to_display_string(), "SetMode(Unknown(?25))");
    let output = TerminalOutput::Data(vec![b'a', 0xff, b'b']);
    assert_eq!(output.to_display_string(), "Data(a\u{fffd}b)");
    let output = TerminalOutput::OscResponse(AnsiOscType::Ftcs("A\"".to_string()));
    assert_eq!(output.to_display_string(), "OscResponse(Ftcs (\"A\\\"\"))");
    let output = TerminalOutput::OscResponse(AnsiOscType::RequestColorQueryBackground(
        AnsiOscInternalType::Query,
    ));
    assert_eq!(output.to_display_string(), "OscResponse(RequestColorQueryBackground(Query))");
    let output = TerminalOutput::OscResponse(AnsiOscType::RequestColorQueryForeground(
        AnsiOscInternalType::String("x".to_string()),
    ));
    assert_eq!(output.to_display_string(), "OscResponse(RequestColorQueryForeground(String(\"x\")))");
}

fn push_seq(seq: &str) -> Vec<TerminalOutput> {
    let mut parser = FreminalAnsiParser::default();
    parser.push(seq.as_bytes())
}

#[test]
fn sgr_reset_attributes() {
    let outs = push_seq("\x1b[0m\x1b[22m\x1b[23m\x1b[24m\x1b[27m\x1b[28m\x1b[29m");
    println!("SGR resets {:?}", outs);
    assert!(outs.iter().all(|o| matches!(o, TerminalOutput::Sgr { .. })));
}

#[test]
fn sgr_combined_truecolor_sequence() {
    let seq = "\x1b[1;38;2;255;0;128;48;2;0;64;255m";
    let outs = push_seq(seq);
    println!("combined truecolor -> {:?}", outs);
    assert!(outs.iter().any(|o| matches!(o, TerminalOutput::Sgr { .. })));
}

#[test]
fn sgr_partial_truecolor_graceful() {
    let seq = "\x1b[38;2;255;0m";
    let outs = push_seq(seq);
    println!("partial truecolor -> {:?}", outs);
    assert!(
        outs.is_empty()
            || outs.iter().any(|o| matches!(o, TerminalOutput::Invalid))
            || outs.iter().any(|o| matches!(o, TerminalOutput::Sgr { .. })),
        "expected graceful or tolerant handling, got {:?}",
        outs
    );
}

#[test]
fn display_clear_display_backwards_maps_stably() {
    let variant = TerminalOutput::ClearDiplayfromStartofDisplaytoCursor;
    let s = variant.to_display_string();
    assert_eq!(s, "ClearBackwards");
}

#[test]
fn parse_param_refuses_bytes_that_are_not_utf8() {
    let result = parse_param_as::<usize>(b"\xff");
    assert_eq!(result, Err(ParserFailures::InvalidParameter(vec![0xff])));
}

#[test]
fn failed_control_sequence_returns_to_text() {
    let mut parser = FreminalAnsiParser::new();
    let output = parser.push(b"\x1b[?Aab");
    assert_eq!(output, vec![TerminalOutput::Invalid, TerminalOutput::Data(b"ab".to_vec())]);
    assert!(matches!(parser.inner, ParserInner::Empty));
}
