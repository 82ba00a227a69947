use freminal::colors::{resolve_color, ResolvedColor, TerminalColor};
use freminal::fonts::{FontDecorations, FontWeight, TerminalFont};
use freminal::pty::{TerminalSize, TerminalWriteCommand};
use freminal::render::{CachedRow, DebugRenderer, TerminalRenderState};

#[test]
fn dirty_rows_are_handed_out_once() {
    let mut state = TerminalRenderState::new();
    state.lines = vec!["a".to_string(), "b".to_string(), "c".to_string()];
    state.mark_dirty(7);
    state.mark_dirty(1);
    state.mark_dirty(7);
    let mut rows = state.take_and_clear_dirty_rows();
    rows.sort();
    assert_eq!(rows, vec![1, 7]);
    assert!(state.take_and_clear_dirty_rows().is_empty());

    state.mark_dirty(9);
    state.mark_all_dirty();
    let mut rows = state.take_and_clear_dirty_rows();
    rows.sort();
    assert_eq!(rows, vec![0, 1, 2]);
}

#[test]
fn row_cache_grows_to_the_lines() {
    let mut state = TerminalRenderState::default();
    state.lines = vec!["x".to_string(), "y".to_string()];
    state.row_cache = vec![CachedRow { text: Some("x".to_string()) }];
    state.ensure_row_cache();
    assert_eq!(state.row_cache.len(), 2);
    assert_eq!(state.row_cache[0].text, Some("x".to_string()));
    assert_eq!(state.row_cache[1], CachedRow::default());
    state.lines.clear();
    state.ensure_row_cache();
    assert_eq!(state.row_cache.len(), 2);
}

#[test]
fn debug_renderer_starts_off() {
    assert!(!DebugRenderer::new().enable);
}

#[test]
fn font_faces_follow_weight_and_italics() {
    let fonts = TerminalFont::new();
    assert_eq!(fonts.get_family(&[], &FontWeight::Normal), "hack");
    assert_eq!(fonts.get_family(&[], &FontWeight::Bold), "hack-bold");
    assert_eq!(fonts.get_family(&[FontDecorations::Italic], &FontWeight::Normal), "hack-italic");
    assert_eq!(
        fonts.get_family(&[FontDecorations::Underline, FontDecorations::Italic], &FontWeight::Bold),
        "hack-bold-italic"
    );
}

#[test]
fn colors_resolve_to_the_scheme() {
    assert_eq!(resolve_color(TerminalColor::Default), ResolvedColor::DefaultForeground);
    assert_eq!(resolve_color(TerminalColor::DefaultUnderlineColor), ResolvedColor::DefaultForeground);
    assert_eq!(resolve_color(TerminalColor::DefaultBackground), ResolvedColor::DefaultBackground);
    assert_eq!(resolve_color(TerminalColor::Red), ResolvedColor::Rgb(0xcc, 0x55, 0x55));
    assert_eq!(resolve_color(TerminalColor::Cyan), ResolvedColor::Rgb(0x7a, 0xca, 0xca));
    assert_eq!(resolve_color(TerminalColor::BrightWhite), ResolvedColor::Rgb(0xff, 0xff, 0xff));
    assert_eq!(resolve_color(TerminalColor::Custom(1, 2, 3)), ResolvedColor::Rgb(1, 2, 3));
}

#[test]
fn terminal_size_defaults_to_eighty_by_twenty_four() {
    let size = TerminalSize::default();
    assert_eq!(
        size,
        TerminalSize {
            rows: 24,
            cols: 80,
            pixel_width: 0,
            pixel_height: 0
        }
    );
    let cmd = TerminalWriteCommand::Resize(size.clone());
    assert!(matches!(cmd, TerminalWriteCommand::Resize(s) if s.cols == 80));
    assert!(matches!(TerminalWriteCommand::Write(vec![1]), TerminalWriteCommand::Write(v) if v == vec![1]));
}
