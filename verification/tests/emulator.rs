use freminal::colors::TerminalColor;
use freminal::emulator::split_format_data_for_scrollback;
use freminal::fonts::FontWeight;
use freminal::format_tracker::FormatTag;
use freminal::mode::Decawm;



fn get_tags() -> Vec<FormatTag> {
    vec![
        FormatTag {
            start: 0,
            end: 5,
            color: TerminalColor::Blue,
            background_color: TerminalColor::Black,
            underline_color: TerminalColor::DefaultUnderlineColor,
            font_weight: FontWeight::Normal,
            font_decorations: Vec::new(),
            line_wrap_mode: Decawm::default(),
        },
        FormatTag {
            start: 5,
            end: 7,
            color: TerminalColor::Red,
            background_color: TerminalColor::Black,
            underline_color: TerminalColor::DefaultUnderlineColor,
            font_weight: FontWeight::Normal,
            font_decorations: Vec::new(),
            line_wrap_mode: Decawm::default(),
        },
        FormatTag {
            start: 7,
            end: 10,
            color: TerminalColor::Blue,
            background_color: TerminalColor::Black,
            underline_color: TerminalColor::DefaultUnderlineColor,
            font_weight: FontWeight::Normal,
            font_decorations: Vec::new(),
            line_wrap_mode: Decawm::default(),
        },
        FormatTag {
            start: 10,
            end: usize::MAX,
            color: TerminalColor::Red,
            background_color: TerminalColor::Black,
            underline_color: TerminalColor::DefaultUnderlineColor,
            font_weight: FontWeight::Normal,
            font_decorations: Vec::new(),
            line_wrap_mode: Decawm::default(),
        },
    ]
}

#[test]
fn mod_test_format_tracker_scrollback_split_on_boundary() {
    let tags = get_tags();
    // Case 2: Split on a boundary
    let res = split_format_data_for_scrollback(tags.clone(), 10);
    assert_eq!(res.scrollback, &tags[0..3]);
    assert_eq!(
        res.visible,
        &[FormatTag {
            start: 0,
            end: usize::MAX,
            color: TerminalColor::Red,
            background_color: TerminalColor::Black,
            underline_color: TerminalColor::DefaultUnderlineColor,
            font_weight: FontWeight::Normal,
            font_decorations: Vec::new(),
            line_wrap_mode: Decawm::default(),
        },]
    );
}

#[test]
fn mod_test_format_tracker_scrollback_split_segment() {
    let tags = get_tags();

    // Case 3: Split a segment
    let res = split_format_data_for_scrollback(tags, 9);
    assert_eq!(
        res.scrollback,
        &[
            FormatTag {
                start: 0,
                end: 5,
                color: TerminalColor::Blue,
                background_color: TerminalColor::Black,
                underline_color: TerminalColor::DefaultUnderlineColor,
                font_weight: FontWeight::Normal,
                font_decorations: Vec::new(),
                line_wrap_mode: Decawm::default(),
            },
            FormatTag {
                start: 5,
                end: 7,
                color: TerminalColor::Red,
                background_color: TerminalColor::Black,
                underline_color: TerminalColor::DefaultUnderlineColor,
                font_weight: FontWeight::Normal,
                font_decorations: Vec::new(),
                line_wrap_mode: Decawm::default(),
            },
            FormatTag {
                start: 7,
                end: 9,
                color: TerminalColor::Blue,
                background_color: TerminalColor::Black,
                underline_color: TerminalColor::DefaultUnderlineColor,
                font_weight: FontWeight::Normal,
                font_decorations: Vec::new(),
                line_wrap_mode: Decawm::default(),
            },
        ]
    );

    assert_eq!(
        res.visible,
        &[
            FormatTag {
                start: 0,
                end: 1,
                color: TerminalColor::Blue,
                background_color: TerminalColor::Black,
                underline_color: TerminalColor::DefaultUnderlineColor,
                font_weight: FontWeight::Normal,
                font_decorations: Vec::new(),
                line_wrap_mode: Decawm::default(),
            },
            FormatTag {
                start: 1,
                end: usize::MAX,
                color: TerminalColor::Red,
                background_color: TerminalColor::Black,
                underline_color: TerminalColor::DefaultUnderlineColor,
                font_weight: FontWeight::Normal,
                font_decorations: Vec::new(),
                line_wrap_mode: Decawm::default(),
            },
        ]
    );
}

#[test]
fn mod_test_format_tracker_scrollback_no_split() {
    let tags = get_tags();
    // Case 1: no split
    let res = split_format_data_for_scrollback(tags.clone(), 0);
    assert_eq!(res.scrollback, &[]);
    assert_eq!(res.visible, &tags[..]);
}

#[test]
fn terminal_emulator_test_format_tracker_scrollback_split_on_boundary() {
    let tags = get_tags();
    // Case 2: Split on a boundary
    let res = split_format_data_for_scrollback(tags.clone(), 10);
    assert_eq!(res.scrollback, &tags[0..3]);
    assert_eq!(
        res.visible,
        &[FormatTag {
            start: 0,
            end: usize::MAX,
            color: TerminalColor::Red,
            background_color: TerminalColor::Black,
            underline_color: TerminalColor::DefaultUnderlineColor,
            font_weight: FontWeight::Normal,
            font_decorations: Vec::new(),
            line_wrap_mode: Decawm::default(),
        },]
    );
}

#[test]
fn terminal_emulator_test_format_tracker_scrollback_split_segment() {
    let tags = get_tags();

    // Case 3: Split a segment
    let res = split_format_data_for_scrollback(tags, 9);
    assert_eq!(
        res.scrollback,
        &[
            FormatTag {
                start: 0,
                end: 5,
                color: TerminalColor::Blue,
                background_color: TerminalColor::Black,
                underline_color: TerminalColor::DefaultUnderlineColor,
                font_weight: FontWeight::Normal,
                font_decorations: Vec::new(),
                line_wrap_mode: Decawm::default(),
            },
            FormatTag {
                start: 5,
                end: 7,
                color: TerminalColor::Red,
                background_color: TerminalColor::Black,
                underline_color: TerminalColor::DefaultUnderlineColor,
                font_weight: FontWeight::Normal,
                font_decorations: Vec::new(),
                line_wrap_mode: Decawm::default(),
            },
            FormatTag {
                start: 7,
                end: 9,
                color: TerminalColor::Blue,
                background_color: TerminalColor::Black,
                underline_color: TerminalColor::DefaultUnderlineColor,
                font_weight: FontWeight::Normal,
                font_decorations: Vec::new(),
                line_wrap_mode: Decawm::default(),
            },
        ]
    );

    assert_eq!(
        res.visible,
        &[
            FormatTag {
                start: 0,
                end: 1,
                color: TerminalColor::Blue,
                background_color: TerminalColor::Black,
                underline_color: TerminalColor::DefaultUnderlineColor,
                font_weight: FontWeight::Normal,
                font_decorations: Vec::new(),
                line_wrap_mode: Decawm::default(),
            },
            FormatTag {
                start: 1,
                end: usize::MAX,
                color: TerminalColor::Red,
                background_color: TerminalColor::Black,
                underline_color: TerminalColor::DefaultUnderlineColor,
                font_weight: FontWeight::Normal,
                font_decorations: Vec::new(),
                line_wrap_mode: Decawm::default(),
            },
        ]
    );
}

#[test]
fn terminal_emulator_test_format_tracker_scrollback_no_split() {
    let tags = get_tags();
    // Case 1: no split
    let res = split_format_data_for_scrollback(tags.clone(), 0);
    assert_eq!(res.scrollback, &[]);
    assert_eq!(res.visible, &tags[..]);
}
