use freminal::ansi::{FreminalAnsiParser, ParserInner};
use freminal::buffer::{calc_line_ranges, TerminalBufferHolder};
use freminal::colors::TerminalColor;
use freminal::csi::AnsiCsiParser;
use freminal::cursor::{CursorPos, CursorState};
use freminal::emulator::{split_format_data_for_scrollback, TerminalInput, TerminalInputPayload};
use freminal::error::ParserFailures;
use freminal::fonts::{FontDecorations, FontWeight};
use freminal::playback::ReplayIo;
use freminal::format_tracker::{FormatTag, FormatTracker};
use freminal::mode::Decawm;
use freminal::output::TerminalOutput;
use freminal::term_char::TChar;

fn joined(items: Vec<TerminalOutput>) -> Vec<TerminalOutput> {
    let mut out: Vec<TerminalOutput> = Vec::new();
    for item in items {
        if let TerminalOutput::Data(d) = &item {
            if let Some(TerminalOutput::Data(prev)) = out.last_mut() {
                prev.extend_from_slice(d);
                continue;
            }
        }
        out.push(item);
    }
    out
}

#[test]
fn chunked_input_parses_like_whole_input() {
    let input: &[u8] = b"ab\x1b[31mcd\r\n\x1b]0;title\x07ef\x1b[2;3Hgh\x1b=";
    for cut in 0..=input.len() {
        let mut whole = FreminalAnsiParser::new();
        let all = whole.push(input);
        let mut parts = FreminalAnsiParser::new();
        let mut items = parts.push(&input[..cut]);
        items.extend(parts.push(&input[cut..]));
        assert_eq!(whole.inner, parts.inner, "state differs at cut {cut}");
        assert_eq!(joined(all), joined(items), "items differ at cut {cut}");
    }
    let mut parser = FreminalAnsiParser::new();
    parser.push(b"x\x1b[");
    assert!(matches!(parser.inner, ParserInner::Csi(_)));
}

#[test]
fn finished_control_sequence_refuses_more_bytes() {
    let mut parser = AnsiCsiParser::new();
    for b in b"12m" {
        assert!(parser.push(*b).is_ok());
    }
    assert_eq!(parser.push(b'x'), Err(ParserFailures::ParsedPushedToOnceFinished));
    assert_eq!(parser.push(b'1'), Err(ParserFailures::ParsedPushedToOnceFinished));
}

#[test]
fn lines_are_short_and_hold_no_line_break() {
    let text = "0123456789abc\n\nxy\n0123456789";
    let buf: Vec<TChar> = text.bytes().map(TChar::new_from_single_char).collect();
    for range in calc_line_ranges(&buf, 5) {
        assert!(range.end - range.start <= 5);
        assert!(buf[range.clone()].iter().all(|c| *c != TChar::NewLine));
    }
}

#[test]
fn scrollback_and_screen_make_up_the_buffer() {
    let mut buffer = TerminalBufferHolder::new(5, 2);
    let response = buffer
        .insert_data(&CursorPos { x: 0, y: 0 }, b"0123456789abcdef")
        .unwrap();
    let data = buffer.data();
    assert!(!data.scrollback.is_empty());
    let mut joined = data.scrollback.clone();
    joined.extend(data.visible.clone());
    let expected: Vec<TChar> = b"0123456789abcdef\n"
        .iter()
        .map(|b| TChar::new_from_single_char(*b))
        .collect();
    assert_eq!(joined, expected);
    assert_eq!(response.written_range, 0..16);
}

#[test]
fn written_text_reads_back() {
    let mut buffer = TerminalBufferHolder::new(10, 10);
    buffer.insert_data(&CursorPos { x: 0, y: 0 }, b"hello").unwrap();
    let response = buffer.insert_data(&CursorPos { x: 3, y: 2 }, b"xyz").unwrap();
    let data = buffer.data().visible;
    let written: Vec<TChar> = data[response.written_range.clone()].to_vec();
    let expected: Vec<TChar> = b"xyz".iter().map(|b| TChar::new_from_single_char(*b)).collect();
    assert_eq!(written, expected);
}

#[test]
fn written_range_takes_the_cursor_format() {
    let mut tracker = FormatTracker::new();
    let cursor = CursorState::default()
        .with_color(TerminalColor::Green)
        .with_font_weight(FontWeight::Bold);
    tracker.push_range(&cursor, 3..7);
    let red = CursorState::default().with_color(TerminalColor::Red);
    tracker.push_range(&red, 5..9);
    let tags = tracker.tags();
    let covering: Vec<&FormatTag> = tags.iter().filter(|t| t.start < 9 && t.end > 5).collect();
    assert_eq!(covering.len(), 1);
    assert_eq!(covering[0].color, TerminalColor::Red);
    assert_eq!((covering[0].start, covering[0].end), (5, 9));
    assert!(tags.iter().any(|t| t.color == TerminalColor::Green && t.start == 3 && t.end == 5));
    assert!(tags.iter().all(|t| t.start <= t.end));
}

#[test]
fn scrollback_tags_stay_in_the_scrollback() {
    let tag = |start: usize, end: usize| FormatTag {
        start,
        end,
        color: TerminalColor::Default,
        background_color: TerminalColor::Black,
        underline_color: TerminalColor::DefaultUnderlineColor,
        font_weight: FontWeight::Normal,
        font_decorations: Vec::new(),
        line_wrap_mode: Decawm::default(),
    };
    let sections = split_format_data_for_scrollback(vec![tag(0, 4), tag(4, 12), tag(12, usize::MAX)], 6);
    assert!(sections.scrollback.iter().all(|t| t.start < 6 && t.end <= 6));
    assert_eq!(sections.scrollback.len(), 2);
    assert_eq!(sections.visible.len(), 2);
}

#[test]
fn application_cursor_keys_change_only_cursor_keys() {
    let keys = [
        TerminalInput::Ascii(b'a'),
        TerminalInput::Ctrl(b'C'),
        TerminalInput::Enter,
        TerminalInput::Backspace,
        TerminalInput::ArrowRight,
        TerminalInput::ArrowLeft,
        TerminalInput::ArrowUp,
        TerminalInput::ArrowDown,
        TerminalInput::Home,
        TerminalInput::End,
        TerminalInput::Delete,
        TerminalInput::Insert,
        TerminalInput::PageUp,
        TerminalInput::PageDown,
    ];
    for key in keys {
        let cursor_key = matches!(
            key,
            TerminalInput::ArrowRight
                | TerminalInput::ArrowLeft
                | TerminalInput::ArrowUp
                | TerminalInput::ArrowDown
                | TerminalInput::Home
                | TerminalInput::End
        );
        assert_eq!(key.to_payload(true) != key.to_payload(false), cursor_key);
    }
    assert_eq!(
        TerminalInput::ArrowUp.to_payload(true),
        TerminalInputPayload::Many(b"\x1bOA".to_vec())
    );
}

#[test]
fn decoration_on_twice_is_once_and_off_removes_only_it() {
    let mut io = ReplayIo::new();
    io.handle_incoming_data(b"\x1b[4m\x1b[3m\x1b[4mX\x1b[24mY");
    let tags = io.format_data().visible;
    let at = |pos: usize| tags.iter().find(|t| t.start <= pos && pos < t.end).unwrap().clone();
    assert_eq!(at(0).font_decorations, vec![FontDecorations::Underline, FontDecorations::Italic]);
    assert_eq!(at(1).font_decorations, vec![FontDecorations::Italic]);
}

#[test]
fn writing_keeps_the_tags_a_tiling() {
    let mut tracker = FormatTracker::new();
    let green = CursorState::default().with_color(TerminalColor::Green);
    let red = CursorState::default().with_color(TerminalColor::Red);
    tracker.push_range(&green, 3..7);
    tracker.push_range(&red, 5..9);
    tracker.push_range(&green, 0..1);
    let tags = tracker.tags();
    assert_eq!(tags[0].start, 0);
    assert_eq!(tags.last().unwrap().end, usize::MAX);
    for w in tags.windows(2) {
        assert_eq!(w[0].end, w[1].start);
    }
    assert!(tags.iter().all(|t| t.start < t.end));
    let spans: Vec<(usize, usize, TerminalColor)> = tags.iter().map(|t| (t.start, t.end, t.color)).collect();
    assert_eq!(
        spans,
        vec![
            (0, 1, TerminalColor::Green),
            (1, 3, TerminalColor::Default),
            (3, 5, TerminalColor::Green),
            (5, 9, TerminalColor::Red),
            (9, usize::MAX, TerminalColor::Default),
        ]
    );
}

#[test]
fn inserting_and_deleting_keep_the_tags_a_tiling() {
    let mut tracker = FormatTracker::new();
    let green = CursorState::default().with_color(TerminalColor::Green);
    let red = CursorState::default().with_color(TerminalColor::Red);
    tracker.push_range(&green, 3..7);
    tracker.push_range(&red, 7..9);
    tracker.push_range_adjustment(4..6);
    let spans = |tags: Vec<FormatTag>| -> Vec<(usize, usize, TerminalColor)> {
        tags.iter().map(|t| (t.start, t.end, t.color)).collect()
    };
    assert_eq!(
        spans(tracker.tags()),
        vec![
            (0, 3, TerminalColor::Default),
            (3, 9, TerminalColor::Green),
            (9, 11, TerminalColor::Red),
            (11, usize::MAX, TerminalColor::Default),
        ]
    );
    tracker.delete_range(2..10);
    assert_eq!(
        spans(tracker.tags()),
        vec![
            (0, 2, TerminalColor::Default),
            (2, 3, TerminalColor::Red),
            (3, usize::MAX, TerminalColor::Default),
        ]
    );
}
