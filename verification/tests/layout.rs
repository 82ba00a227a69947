use freminal::colors::TerminalColor;
use freminal::fonts::{FontDecorations, FontWeight};
use freminal::format_tracker::FormatTag;
use freminal::buffer::TerminalSections;
use freminal::layout::{
    create_terminal_output_layout_job, process_tags, sections_for_display, validate_tags_to_buffer, LayoutError,
};
use freminal::mode::Decawm;
use freminal::term_char::TChar;

fn tag(start: usize, end: usize, decorations: Vec<FontDecorations>) -> FormatTag {
    FormatTag {
        start,
        end,
        color: TerminalColor::Red,
        background_color: TerminalColor::Black,
        underline_color: TerminalColor::Blue,
        font_weight: FontWeight::Bold,
        font_decorations: decorations,
        line_wrap_mode: Decawm::default(),
    }
}

#[test]
fn layout_moves_tags_to_byte_positions() {
    let data = vec![
        TChar::Ascii(b'a'),
        TChar::Utf8("\u{e9}".as_bytes().to_vec()),
        TChar::Space,
        TChar::NewLine,
        TChar::Ascii(b'b'),
    ];
    let tags = vec![tag(0, 2, vec![]), tag(2, usize::MAX, vec![]), tag(3, 3, vec![]), tag(9, 12, vec![])];
    let (text, shifted) = create_terminal_output_layout_job(&data, &tags).unwrap();
    assert_eq!(text, "a\u{e9} \nb");
    let ranges: Vec<(usize, usize)> = shifted.iter().map(|t| (t.start, t.end)).collect();
    assert_eq!(ranges, vec![(0, 3), (3, 6), (4, 4), (5, 6)]);
    assert_eq!(shifted[0].color, TerminalColor::Red);
}

#[test]
fn layout_of_nothing_is_empty() {
    let (text, shifted) = create_terminal_output_layout_job(&[], &[tag(0, 5, vec![])]).unwrap();
    assert!(text.is_empty());
    assert!(shifted.is_empty());
}

#[test]
fn layout_rejects_broken_text() {
    let data = vec![TChar::Utf8(vec![0xff])];
    assert_eq!(create_terminal_output_layout_job(&data, &[]), Err(LayoutError::InvalidUtf8));
}

#[test]
fn tags_are_checked_against_the_text() {
    let text = "a\u{e9}b".as_bytes();
    assert_eq!(validate_tags_to_buffer(text, &[tag(0, 3, vec![]), tag(9, 2, vec![])]), Ok(()));
    assert_eq!(validate_tags_to_buffer(text, &[tag(0, 2, vec![])]), Err(LayoutError::InvalidUtf8));
}

#[test]
fn sections_follow_the_tags() {
    let tags = vec![
        tag(0, 2, vec![FontDecorations::Underline, FontDecorations::Faint]),
        tag(2, usize::MAX, vec![FontDecorations::Italic, FontDecorations::Strikethrough]),
        tag(10, 12, vec![]),
        tag(4, 20, vec![]),
    ];
    let sections = process_tags(&tags, 10);
    assert_eq!(sections.len(), 3);
    assert_eq!((sections[0].byte_range.start, sections[0].byte_range.end), (0, 2));
    assert_eq!(sections[0].underline_color, Some(TerminalColor::Blue));
    assert!(sections[0].faint);
    assert!(!sections[0].strikethrough);
    assert_eq!(sections[0].family, "hack-bold");
    assert_eq!((sections[1].byte_range.start, sections[1].byte_range.end), (2, 10));
    assert_eq!(sections[1].family, "hack-bold-italic");
    assert!(sections[1].strikethrough);
    assert_eq!(sections[1].underline_color, None);
    assert_eq!((sections[2].byte_range.start, sections[2].byte_range.end), (4, 10));
    assert_eq!(sections[2].color, TerminalColor::Red);
}

#[test]
fn sections_drop_final_line_breaks_and_clamp_the_scrollback_tag() {
    let tag = |start: usize, end: usize| FormatTag {
        start,
        end,
        color: TerminalColor::Default,
        background_color: TerminalColor::Black,
        underline_color: TerminalColor::DefaultUnderlineColor,
        font_weight: FontWeight::Normal,
        font_decorations: Vec::new(),
        line_wrap_mode: Decawm::default(),
    };
    let data = TerminalSections {
        scrollback: vec![TChar::Ascii(b'a'), TChar::Ascii(b'b'), TChar::NewLine],
        visible: vec![TChar::Ascii(b'c'), TChar::NewLine],
    };
    let tags = TerminalSections { scrollback: vec![tag(0, 1), tag(1, 3)], visible: vec![tag(0, usize::MAX)] };
    let (data, tags) = sections_for_display(data, tags);
    assert_eq!(data.scrollback, vec![TChar::Ascii(b'a'), TChar::Ascii(b'b')]);
    assert_eq!(data.visible, vec![TChar::Ascii(b'c')]);
    assert_eq!(tags.scrollback, vec![tag(0, 1), tag(1, 2)]);
    assert_eq!(tags.visible, vec![tag(0, usize::MAX)]);

    let data = TerminalSections { scrollback: vec![TChar::Ascii(b'a')], visible: vec![] };
    let tags = TerminalSections { scrollback: vec![tag(0, 9)], visible: vec![] };
    let (data, tags) = sections_for_display(data, tags);
    assert_eq!(data.scrollback, vec![TChar::Ascii(b'a')]);
    assert_eq!(tags.scrollback, vec![tag(0, 9)]);
}

#[test]
fn malformed_tag_past_the_data_is_laid_out() {
    let tag = FormatTag {
        start: 10,
        end: 5,
        color: TerminalColor::Default,
        background_color: TerminalColor::Black,
        underline_color: TerminalColor::DefaultUnderlineColor,
        font_weight: FontWeight::Normal,
        font_decorations: Vec::new(),
        line_wrap_mode: Decawm::default(),
    };
    let data = vec![TChar::Ascii(b'a'), TChar::Ascii(b'b'), TChar::Ascii(b'c')];
    let (text, tags) = create_terminal_output_layout_job(&data, &[tag]).unwrap();
    assert_eq!(text, "abc");
    assert_eq!((tags[0].start, tags[0].end), (2, 3));
}
