use freminal::colors::TerminalColor;
use freminal::cursor::CursorPos;
use freminal::fonts::FontWeight;
use freminal::playback::{ReplayIo, TERMINAL_HEIGHT, TERMINAL_WIDTH};
use freminal::term_char::TChar;

fn bytes_of(chars: &[TChar]) -> Vec<u8> {
    let mut out = Vec::new();
    for c in chars {
        match c {
            TChar::Ascii(b) => out.push(*b),
            TChar::Utf8(v) => out.extend_from_slice(v),
            TChar::Space => out.push(b' '),
            TChar::NewLine => out.push(b'\n'),
        }
    }
    out
}

fn text_of(chars: &[TChar]) -> String {
    String::from_utf8(bytes_of(chars)).unwrap()
}

#[test]
fn format_tracker_with_data() {
    let mut terminal_io = ReplayIo::new();

    let data: [u8; 1023] = [
        27, 91, 49, 109, 27, 91, 51, 50, 109, 32, 32, 32, 32, 32, 32, 32, 32, 32, 32, 32, 32, 32,
        32, 32, 32, 32, 32, 32, 32, 32, 27, 91, 51, 50, 109, 46, 46, 39, 13, 10, 32, 32, 32, 32,
        32, 32, 32, 32, 32, 32, 32, 32, 32, 32, 32, 32, 32, 44, 120, 78, 77, 77, 46, 13, 10, 32,
        32, 32, 32, 32, 32, 32, 32, 32, 32, 32, 32, 32, 32, 32, 46, 79, 77, 77, 77, 77, 111, 13,
        10, 32, 32, 32, 32, 32, 32, 32, 32, 32, 32, 32, 32, 32, 32, 32, 108, 77, 77, 34, 13, 10,
        32, 32, 32, 32, 32, 46, 59, 108, 111, 100, 100, 111, 58, 46, 32, 32, 46, 111, 108, 108,
        111, 100, 100, 111, 108, 59, 46, 13, 10, 32, 32, 32, 99, 75, 77, 77, 77, 77, 77, 77, 77,
        77, 77, 77, 78, 87, 77, 77, 77, 77, 77, 77, 77, 77, 77, 77, 48, 58, 13, 10, 32, 27, 91,
        51, 51, 109, 46, 75, 77, 77, 77, 77, 77, 77, 77, 77, 77, 77, 77, 77, 77, 77, 77, 77, 77,
        77, 77, 77, 77, 77, 77, 87, 100, 46, 13, 10, 32, 88, 77, 77, 77, 77, 77, 77, 77, 77, 77,
        77, 77, 77, 77, 77, 77, 77, 77, 77, 77, 77, 77, 77, 77, 88, 46, 13, 10, 27, 91, 51, 49,
        109, 59, 77, 77, 77, 77, 77, 77, 77, 77, 77, 77, 77, 77, 77, 77, 77, 77, 77, 77, 77, 77,
        77, 77, 77, 77, 58, 13, 10, 58, 77, 77, 77, 77, 77, 77, 77, 77, 77, 77, 77, 77, 77, 77,
        77, 77, 77, 77, 77, 77, 77, 77, 77, 77, 58, 13, 10, 46, 77, 77, 77, 77, 77, 77, 77, 77,
        77, 77, 77, 77, 77, 77, 77, 77, 77, 77, 77, 77, 77, 77, 77, 77, 88, 46, 13, 10, 32, 107,
        77, 77, 77, 77, 77, 77, 77, 77, 77, 77, 77, 77, 77, 77, 77, 77, 77, 77, 77, 77, 77, 77,
        77, 77, 87, 100, 46, 13, 10, 32, 27, 91, 51, 53, 109, 39, 88, 77, 77, 77, 77, 77, 77, 77,
        77, 77, 77, 77, 77, 77, 77, 77, 77, 77, 77, 77, 77, 77, 77, 77, 77, 77, 77, 107, 13, 10,
        32, 32, 39, 88, 77, 77, 77, 77, 77, 77, 77, 77, 77, 77, 77, 77, 77, 77, 77, 77, 77, 77,
        77, 77, 77, 77, 77, 77, 75, 46, 13, 10, 32, 32, 32, 32, 27, 91, 51, 52, 109, 107, 77, 77,
        77, 77, 77, 77, 77, 77, 77, 77, 77, 77, 77, 77, 77, 77, 77, 77, 77, 77, 77, 77, 100, 13,
        10, 32, 32, 32, 32, 32, 59, 75, 77, 77, 77, 77, 77, 77, 77, 87, 88, 88, 87, 77, 77, 77,
        77, 77, 77, 77, 107, 46, 13, 10, 32, 32, 32, 32, 32, 32, 32, 34, 99, 111, 111, 99, 42, 34,
        32, 32, 32, 32, 34, 42, 99, 111, 111, 39, 34, 27, 91, 109, 27, 91, 49, 71, 27, 91, 49, 54,
        65, 27, 91, 109, 27, 91, 63, 55, 108, 27, 91, 51, 52, 67, 27, 91, 109, 27, 91, 49, 109,
        27, 91, 51, 50, 109, 102, 114, 101, 100, 27, 91, 109, 64, 27, 91, 49, 109, 27, 91, 51, 50,
        109, 70, 114, 101, 100, 115, 45, 77, 97, 99, 45, 83, 116, 117, 100, 105, 111, 27, 91, 109,
        13, 10, 27, 91, 51, 52, 67, 45, 45, 45, 45, 45, 45, 45, 45, 45, 45, 45, 45, 45, 45, 45,
        45, 45, 45, 45, 45, 45, 13, 10, 27, 91, 51, 52, 67, 27, 91, 109, 27, 91, 49, 109, 27, 91,
        51, 51, 109, 79, 83, 27, 91, 109, 58, 32, 27, 91, 109, 109, 97, 99, 79, 83, 32, 83, 101,
        113, 117, 111, 105, 97, 32, 49, 53, 46, 49, 32, 97, 114, 109, 54, 52, 13, 10, 27, 91, 51,
        52, 67, 27, 91, 109, 27, 91, 49, 109, 27, 91, 51, 51, 109, 72, 111, 115, 116, 27, 91, 109,
        58, 32, 27, 91, 109, 77, 97, 99, 32, 83, 116, 117, 100, 105, 111, 32, 40, 77, 49, 32, 77,
        97, 120, 44, 32, 50, 48, 50, 50, 44, 32, 84, 119, 111, 32, 85, 83, 66, 45, 67, 32, 102,
        114, 111, 110, 116, 32, 112, 111, 114, 116, 115, 41, 27, 91, 109, 13, 10, 27, 91, 51, 52,
        67, 27, 91, 109, 27, 91, 49, 109, 27, 91, 51, 51, 109, 75, 101, 114, 110, 101, 108, 27,
        91, 109, 58, 32, 27, 91, 109, 68, 97, 114, 119, 105, 110, 32, 50, 52, 46, 49, 46, 48, 13,
        10, 27, 91, 51, 52, 67, 27, 91, 109, 27, 91, 49, 109, 27, 91, 51, 51, 109, 85, 112, 116,
        105, 109, 101, 27, 91, 109, 58, 32, 27, 91, 109, 49, 52, 32, 100, 97, 121, 115, 44, 32,
        53, 53, 32, 109, 105, 110, 115, 13, 10, 27, 91, 51, 52, 67, 13, 10, 27, 91, 51, 52, 67,
        27, 91, 109, 27, 91, 49, 109, 27, 91, 51, 51, 109, 80, 97, 99, 107, 97, 103, 101, 115, 27,
        91, 109, 58, 32, 27, 91, 109, 49, 51, 55, 32, 40, 98, 114, 101, 119, 41, 44, 32, 51, 48,
        32, 40, 98, 114, 101, 119, 45, 99, 97, 115, 107, 41, 13, 10, 27, 91, 51, 52, 67, 27, 91,
        109, 27, 91, 49, 109, 27, 91, 51, 51, 109, 83, 104, 101, 108, 108, 27, 91, 109, 58, 32,
        27, 91, 109, 122, 115, 104, 32, 53, 46, 57, 13, 10, 27, 91, 51, 52, 67, 27, 91, 109, 27,
        91, 49, 109, 27, 91, 51, 51, 109, 68, 105, 115, 112, 108, 97, 121, 32, 40, 83, 99, 101,
        112, 116, 114, 101, 32, 67, 51, 53, 41, 27, 91, 109, 58, 32, 27, 91, 109, 51, 52, 52, 48,
        120, 49, 52, 52, 48, 32, 64, 32, 54, 48, 32, 72, 122, 32, 105, 110, 32, 51, 53,
    ];

    terminal_io.handle_incoming_data(&data);
    let data = terminal_io.data();
    let format_tags = terminal_io.format_data();

    println!("Scrollback:");
    for tag in &format_tags.scrollback {
        let start_pos = tag.start;
        let mut end_pos = tag.end;

        assert!(start_pos < end_pos);

        if end_pos > data.scrollback.len() {
            end_pos = data.scrollback.len();
        }

        let output = String::from_utf8_lossy(&bytes_of(&data.scrollback[start_pos..end_pos])).to_string();

        println!("{output}");
    }

    println!("Visible:");
    for tag in &format_tags.visible {
        let start_pos = tag.start;
        let mut end_pos = tag.end;

        assert!(start_pos < end_pos);

        if end_pos > data.visible.len() {
            end_pos = data.visible.len();
        }

        let output = String::from_utf8_lossy(&bytes_of(&data.visible[start_pos..end_pos])).to_string();

        println!("{output}");
    }
}

#[test]
fn playback_starts_empty_with_default_size() {
    let io = ReplayIo::new();
    assert_eq!(io.get_win_size(), (TERMINAL_WIDTH, TERMINAL_HEIGHT));
    assert_eq!(io.get_win_size(), (112, 38));
    assert_eq!(io.cursor_pos(), CursorPos { x: 0, y: 0 });
    let data = io.data();
    assert!(data.scrollback.is_empty());
    assert!(data.visible.is_empty());
    let tags = io.format_data();
    assert_eq!(tags.visible.len(), 1);
    assert_eq!(tags.visible[0].start, 0);
    assert_eq!(tags.visible[0].end, usize::MAX);
    let default_io = ReplayIo::default();
    assert_eq!(default_io.get_win_size(), (112, 38));
}

#[test]
fn playback_writes_text_and_moves_cursor() {
    let mut io = ReplayIo::new();
    io.handle_incoming_data(b"hello");
    assert_eq!(text_of(&io.data().visible), "hello\n");
    assert_eq!(io.cursor_pos(), CursorPos { x: 5, y: 0 });

    io.handle_incoming_data(b"\r\nab");
    assert_eq!(text_of(&io.data().visible), "hello\nab\n");
    assert_eq!(io.cursor_pos(), CursorPos { x: 2, y: 1 });

    io.handle_incoming_data(b"\x08");
    assert_eq!(io.cursor_pos(), CursorPos { x: 1, y: 1 });
    io.handle_incoming_data(b"\x08\x08\x08");
    assert_eq!(io.cursor_pos(), CursorPos { x: 0, y: 1 });
}

#[test]
fn playback_split_sequences_across_calls() {
    let mut io = ReplayIo::new();
    io.handle_incoming_data(b"ab\x1b[");
    io.handle_incoming_data(b"1G");
    io.handle_incoming_data(b"X");
    assert_eq!(text_of(&io.data().visible), "Xb\n");
    assert_eq!(io.cursor_pos(), CursorPos { x: 1, y: 0 });
}

#[test]
fn playback_cursor_moves() {
    let mut io = ReplayIo::new();
    io.handle_incoming_data(b"\x1b[3;5H");
    assert_eq!(io.cursor_pos(), CursorPos { x: 4, y: 2 });
    io.handle_incoming_data(b"\x1b[2A");
    assert_eq!(io.cursor_pos(), CursorPos { x: 4, y: 0 });
    io.handle_incoming_data(b"\x1b[9D");
    assert_eq!(io.cursor_pos(), CursorPos { x: 0, y: 0 });
    io.handle_incoming_data(b"\x1b[7C\x1b[B");
    assert_eq!(io.cursor_pos(), CursorPos { x: 7, y: 1 });
    io.handle_incoming_data(b"\x1b[0;0H");
    assert_eq!(io.cursor_pos(), CursorPos { x: 0, y: 0 });
}

#[test]
fn playback_colors_follow_sgr() {
    let mut io = ReplayIo::new();
    io.handle_incoming_data(b"a\x1b[31mb\x1b[1mc\x1b[0md");
    assert_eq!(text_of(&io.data().visible), "abcd\n");
    let tags = io.format_data().visible;
    let at = |pos: usize| tags.iter().find(|t| t.start <= pos && pos < t.end).unwrap().clone();
    assert_eq!(at(0).color, TerminalColor::Default);
    assert_eq!(at(1).color, TerminalColor::Red);
    assert_eq!(at(1).font_weight, FontWeight::Normal);
    assert_eq!(at(2).color, TerminalColor::Red);
    assert_eq!(at(2).font_weight, FontWeight::Bold);
    assert_eq!(at(3).color, TerminalColor::Default);
    assert_eq!(at(3).background_color, TerminalColor::Black);
    assert_eq!(at(3).font_weight, FontWeight::Normal);
}

#[test]
fn playback_reverse_video_swaps_and_restores() {
    let mut io = ReplayIo::new();
    io.handle_incoming_data(b"\x1b[32m\x1b[7mx\x1b[27my");
    let tags = io.format_data().visible;
    let at = |pos: usize| tags.iter().find(|t| t.start <= pos && pos < t.end).unwrap().clone();
    assert_eq!(at(0).color, TerminalColor::Black);
    assert_eq!(at(0).background_color, TerminalColor::Green);
    assert_eq!(at(1).color, TerminalColor::Green);
    assert_eq!(at(1).background_color, TerminalColor::DefaultBackground);
}

#[test]
fn playback_clears() {
    let mut io = ReplayIo::new();
    io.handle_incoming_data(b"0123456789\x1b[1;4H\x1b[K");
    assert_eq!(text_of(&io.data().visible), "012\n");

    let mut io = ReplayIo::new();
    io.handle_incoming_data(b"0123456789\x1b[1;4H\x1b[1K");
    assert_eq!(text_of(&io.data().visible), "3456789\n");

    let mut io = ReplayIo::new();
    io.handle_incoming_data(b"0123456789\x1b[2K");
    assert_eq!(text_of(&io.data().visible), "\n");

    let mut io = ReplayIo::new();
    io.handle_incoming_data(b"abc\r\ndef\x1b[3J");
    assert!(io.data().visible.is_empty());
    assert!(io.data().scrollback.is_empty());

    let mut io = ReplayIo::new();
    io.handle_incoming_data(b"abc\r\ndef\x1b[2J");
    assert_eq!(text_of(&io.data().visible), "   \n   \n");
}

#[test]
fn playback_delete_and_insert() {
    let mut io = ReplayIo::new();
    io.handle_incoming_data(b"0123456789\x1b[1;3H\x1b[2P");
    assert_eq!(text_of(&io.data().visible), "01456789\n");

    let mut io = ReplayIo::new();
    io.handle_incoming_data(b"0123\x1b[1;2H\x1b[2@");
    assert_eq!(text_of(&io.data().visible), "0  123\n");

    let mut io = ReplayIo::new();
    io.handle_incoming_data(b"ab\r\ncd\x1b[1;1H\x1b[L");
    assert_eq!(text_of(&io.data().visible), "\nab\ncd\n");
}

#[test]
fn playback_resize_keeps_text() {
    let mut io = ReplayIo::new();
    io.handle_incoming_data(b"0123456789");
    io.set_win_size(5, 10);
    assert_eq!(io.get_win_size(), (5, 10));
    assert_eq!(text_of(&io.data().visible), "0123456789\n");
    assert_eq!(io.cursor_pos(), CursorPos { x: 5, y: 1 });
}

#[test]
fn playback_scrollback_split() {
    let mut io = ReplayIo::new();
    io.set_win_size(10, 2);
    io.handle_incoming_data(b"a\r\nb\r\nc");
    let data = io.data();
    assert_eq!(text_of(&data.scrollback), "a\n");
    assert_eq!(text_of(&data.visible), "b\nc\n");
}
