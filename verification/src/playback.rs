use std::ops::Range;
use vstd::prelude::*;

use crate::ansi::{parse_bytes, FreminalAnsiParser, InnerModel};
use crate::buffer::{
    blank_from, chars_of_data, clear_backwards_buf, clear_backwards_fill, clear_forwards_buf,
    cursor_buf_pos, cursor_of_pos, delete_forwards_result, insert_lines_result,
    insert_spaces_result, pad_for_write, splice, visible_lines, visible_start, wrap_cursor,
    write_fits, BufferModel, TerminalBufferHolder, TerminalSections,
};
use crate::colors::TerminalColor;
use crate::cursor::{CursorModel, CursorPos, CursorState};
use crate::emulator::{scrollback_tags, split_format_data_for_scrollback, visible_tags};
use crate::fonts::{FontDecorations, FontWeight};
use crate::format_tracker::{
    adjust_for_insert, default_tag, delete_range_result, lemma_delete_keeps_tags_wf,
    lemma_insert_adjustment_keeps_tags_wf, lemma_push_range_keeps_tags_wf, push_range_result,
    shift_fits, tags_wf, FormatTag, FormatTracker, TagModel,
};
use crate::mode::{BracketedPaste, Decawm, Decckm, Mode, ModeModel, TerminalModes};
use crate::output::{OutputModel, TerminalOutput};
use crate::sgr::SelectGraphicRendition;
use crate::term_char::{CharModel, TChar};

verus! {

/// The width of the screen that playback starts with.
pub const TERMINAL_WIDTH: usize = 112;

/// The height of the screen that playback starts with.
pub const TERMINAL_HEIGHT: usize = 38;

/// Plays recorded terminal output into a buffer: parses it, and applies
/// each control function to the buffer, the format tracker and the cursor.
pub struct ReplayIo {
    parser: FreminalAnsiParser,
    terminal_buffer: TerminalBufferHolder,
    format_tracker: FormatTracker,
    cursor_state: CursorState,
    modes: TerminalModes,
    saved_color_state: Option<(TerminalColor, TerminalColor, TerminalColor)>,
}

/// The mathematical value of a [`ReplayIo`].
pub ghost struct ReplayModel {
    pub inner: InnerModel,
    pub buffer: BufferModel,
    pub tags: Seq<TagModel>,
    pub cursor: CursorModel,
    pub modes: TerminalModes,
    pub saved: Option<(TerminalColor, TerminalColor, TerminalColor)>,
}

impl View for ReplayIo {
    type V = ReplayModel;

    closed spec fn view(&self) -> ReplayModel {
        ReplayModel {
            inner: self.parser.inner@,
            buffer: self.terminal_buffer@,
            tags: self.format_tracker@,
            cursor: self.cursor_state@,
            modes: self.modes,
            saved: self.saved_color_state,
        }
    }
}

/// What playback keeps: a screen at least one column wide, and tags that
/// start no later than they end.
pub open spec fn replay_wf(m: ReplayModel) -> bool {
    m.buffer.width > 0 && tags_wf(m.tags)
}

/// The model with another cursor position.
pub open spec fn with_pos(m: ReplayModel, pos: CursorPos) -> ReplayModel {
    ReplayModel { cursor: CursorModel { pos, ..m.cursor }, ..m }
}

/// The model with another buffer content.
pub open spec fn with_buf(m: ReplayModel, buf: Seq<CharModel>) -> ReplayModel {
    ReplayModel { buffer: BufferModel { buf, ..m.buffer }, ..m }
}

/// The tags after positions `r` are inserted, when every tag can move that
/// far; unchanged otherwise.
pub open spec fn tags_after_insert(tags: Seq<TagModel>, r: (int, int)) -> Seq<TagModel> {
    if forall|i: int| 0 <= i < tags.len() ==> shift_fits(#[trigger] tags[i], r.1 - r.0) {
        Seq::new(tags.len(), |i: int| adjust_for_insert(tags[i], r.0, r.1 - r.0))
    } else {
        tags
    }
}

/// Writing text at the cursor: the text goes into the buffer (see
/// [`TerminalBufferHolder::insert_data`]), tags make room for the padding
/// and the written range gets the cursor's format, and the cursor moves
/// past the text. A write that could not be placed within `usize`, or
/// whose text cannot be cut into characters, changes nothing.
#[verifier::opaque]
pub open spec fn replay_data(m: ReplayModel, d: Seq<u8>) -> ReplayModel {
    let b = m.buffer;
    if !write_fits(b.buf.len() as int, m.cursor.pos, d.len() as int) {
        m
    } else {
        match chars_of_data(d) {
            None => m,
            Some(cs) => {
                let p = pad_for_write(b.buf, b.width, b.height, m.cursor.pos, cs.len());
                let nb = splice(p.buf, p.write_idx, p.write_idx + cs.len(), cs);
                let tags = push_range_result(
                    tags_after_insert(m.tags, p.inserted),
                    m.cursor,
                    (p.write_idx, p.write_idx + cs.len()),
                );
                ReplayModel {
                    buffer: BufferModel { buf: nb, ..b },
                    tags,
                    cursor: CursorModel {
                        pos: cursor_of_pos(nb, b.width, b.height, p.write_idx + cs.len()),
                        ..m.cursor
                    },
                    ..m
                }
            },
        }
    }
}

/// A coordinate of an absolute cursor move: counted from 1, so 0 and 1 are
/// both the first column or row.
pub open spec fn absolute_coord(v: usize) -> usize {
    if v > 0 {
        (v - 1) as usize
    } else {
        0
    }
}

/// A coordinate moved by `d`: never below 0, and 0 when it would pass
/// `usize::MAX`.
pub open spec fn relative_coord(cur: usize, d: i32) -> usize {
    let v = cur + d;
    if v < 0 {
        0
    } else if v > usize::MAX {
        0
    } else {
        v as usize
    }
}

/// An absolute cursor move.
#[verifier::opaque]
pub open spec fn replay_set_pos(m: ReplayModel, x: Option<usize>, y: Option<usize>) -> ReplayModel {
    with_pos(
        m,
        CursorPos {
            x: match x {
                Some(v) => absolute_coord(v),
                None => m.cursor.pos.x,
            },
            y: match y {
                Some(v) => absolute_coord(v),
                None => m.cursor.pos.y,
            },
        },
    )
}

/// A relative cursor move.
#[verifier::opaque]
pub open spec fn replay_set_pos_rel(m: ReplayModel, x: Option<i32>, y: Option<i32>) -> ReplayModel {
    with_pos(
        m,
        CursorPos {
            x: match x {
                Some(d) => relative_coord(m.cursor.pos.x, d),
                None => m.cursor.pos.x,
            },
            y: match y {
                Some(d) => relative_coord(m.cursor.pos.y, d),
                None => m.cursor.pos.y,
            },
        },
    )
}

/// Whether a clear at the cursor may run: its positions fit in `usize`,
/// and the cursor is on a character of the buffer (or on no line at all).
pub open spec fn clear_fits(m: ReplayModel) -> bool {
    &&& m.buffer.buf.len() + m.buffer.height + 1 <= usize::MAX
    &&& cursor_buf_pos(visible_lines(m.buffer.buf, m.buffer.width, m.buffer.height), m.cursor.pos)
        matches Some((p, _)) ==> p < m.buffer.buf.len()
}

/// Clearing from the cursor to the end of the screen (see
/// [`clear_forwards_buf`]); when the cursor keeps its place, the cleared
/// positions get the cursor's format.
#[verifier::opaque]
pub open spec fn replay_clear_forwards(m: ReplayModel) -> ReplayModel {
    let b = m.buffer;
    let v = visible_lines(b.buf, b.width, b.height);
    if !clear_fits(m) {
        m
    } else {
        match cursor_buf_pos(v, m.cursor.pos) {
            None => m,
            Some((p, _)) => {
                let nb = clear_forwards_buf(b.buf, v, m.cursor.pos, p);
                let moved = wrap_cursor(cursor_of_pos(nb, b.width, b.height, p), b.width)
                    != m.cursor.pos;
                ReplayModel {
                    buffer: BufferModel { buf: nb, ..b },
                    tags: if moved {
                        m.tags
                    } else {
                        push_range_result(m.tags, m.cursor, (p, usize::MAX as int))
                    },
                    ..m
                }
            },
        }
    }
}

/// Clearing from the start of the screen to the cursor (see
/// [`clear_backwards_buf`]); when the cursor keeps its place, the cleared
/// part of its line gets the cursor's format.
#[verifier::opaque]
pub open spec fn replay_clear_backwards(m: ReplayModel) -> ReplayModel {
    let b = m.buffer;
    let v = visible_lines(b.buf, b.width, b.height);
    if !clear_fits(m) {
        m
    } else {
        match cursor_buf_pos(v, m.cursor.pos) {
            None => m,
            Some((p, line)) => {
                let nb = clear_backwards_buf(b.buf, v, m.cursor.pos, p);
                let moved = wrap_cursor(
                    cursor_of_pos(clear_backwards_fill(b.buf, v, p), b.width, b.height, p),
                    b.width,
                ) != m.cursor.pos;
                ReplayModel {
                    buffer: BufferModel { buf: nb, ..b },
                    tags: if moved {
                        m.tags
                    } else {
                        push_range_result(m.tags, m.cursor, (line.0, p))
                    },
                    ..m
                }
            },
        }
    }
}

/// Clearing everything: the whole range gets the cursor's format and the
/// buffer empties.
#[verifier::opaque]
pub open spec fn replay_clear_all(m: ReplayModel) -> ReplayModel {
    ReplayModel {
        buffer: BufferModel { buf: Seq::empty(), ..m.buffer },
        tags: push_range_result(m.tags, m.cursor, (0, usize::MAX as int)),
        ..m
    }
}

/// Clearing the screen: its characters turn into spaces (see
/// [`blank_from`]) and get the cursor's format. A screen that shows no line
/// is left as it is.
#[verifier::opaque]
pub open spec fn replay_clear_visible(m: ReplayModel) -> ReplayModel {
    let b = m.buffer;
    let v = visible_lines(b.buf, b.width, b.height);
    if v.len() == 0 {
        m
    } else {
        ReplayModel {
            buffer: BufferModel { buf: blank_from(b.buf, v[0].0), ..b },
            tags: push_range_result(m.tags, m.cursor, (v[0].0, usize::MAX as int)),
            ..m
        }
    }
}

/// Which part of the cursor's line a line clear removes.
pub ghost enum LinePart {
    /// From the cursor to the end.
    Forwards,
    /// From the start to the cursor.
    Backwards,
    /// All of it.
    Whole,
}

/// Removing part of the cursor's line from the buffer and from the tags.
#[verifier::opaque]
pub open spec fn replay_clear_line_part(m: ReplayModel, part: LinePart) -> ReplayModel {
    let b = m.buffer;
    match cursor_buf_pos(visible_lines(b.buf, b.width, b.height), m.cursor.pos) {
        None => m,
        Some((p, line)) => {
            let r = match part {
                LinePart::Forwards => (p, line.1),
                LinePart::Backwards => (line.0, p),
                LinePart::Whole => line,
            };
            ReplayModel {
                buffer: BufferModel { buf: splice(b.buf, r.0, r.1, Seq::empty()), ..b },
                tags: delete_range_result(m.tags, r),
                ..m
            }
        },
    }
}

/// Inserting lines at the cursor row (see [`insert_lines_result`]): the
/// tags lose what was pushed off the screen and make room for the new
/// lines.
#[verifier::opaque]
pub open spec fn replay_insert_lines(m: ReplayModel, n: usize) -> ReplayModel {
    let b = m.buffer;
    if b.buf.len() + b.height + 1 > usize::MAX {
        m
    } else {
        let res = insert_lines_result(b, m.cursor.pos, n as nat);
        ReplayModel {
            buffer: BufferModel { buf: res.0, ..b },
            tags: tags_after_insert(delete_range_result(m.tags, res.1), res.2),
            ..m
        }
    }
}

/// Deleting characters at the cursor (see [`delete_forwards_result`]),
/// from the buffer and from the tags.
#[verifier::opaque]
pub open spec fn replay_delete(m: ReplayModel, n: usize) -> ReplayModel {
    let b = m.buffer;
    match cursor_buf_pos(visible_lines(b.buf, b.width, b.height), m.cursor.pos) {
        None => m,
        Some((p, line)) => {
            let d = delete_forwards_result(b.buf, p, line.1, n as int);
            ReplayModel {
                buffer: BufferModel { buf: d.0, ..b },
                tags: delete_range_result(m.tags, (p, d.1)),
                ..m
            }
        },
    }
}

/// Inserting spaces at the cursor (see [`insert_spaces_result`]); the tags
/// make room for what was inserted.
#[verifier::opaque]
pub open spec fn replay_insert_spaces(m: ReplayModel, n: usize) -> ReplayModel {
    let b = m.buffer;
    if !write_fits(b.buf.len() as int, m.cursor.pos, b.width as int) {
        m
    } else {
        let res = insert_spaces_result(b, m.cursor.pos, n as nat);
        ReplayModel {
            buffer: BufferModel { buf: res.0, ..b },
            tags: tags_after_insert(m.tags, res.2),
            ..m
        }
    }
}

/// The decorations with `d` added, unless they hold it already.
pub open spec fn add_decoration(s: Seq<FontDecorations>, d: FontDecorations) -> Seq<FontDecorations> {
    if s.contains(d) {
        s
    } else {
        s.push(d)
    }
}

/// Whether a decoration is other than `d`.
pub open spec fn other_than(d: FontDecorations) -> spec_fn(FontDecorations) -> bool {
    |x: FontDecorations| x != d
}

/// The decorations without `d`.
pub open spec fn remove_decoration(s: Seq<FontDecorations>, d: FontDecorations) -> Seq<FontDecorations> {
    s.filter(other_than(d))
}

/// The decoration that an SGR attribute turns on, with the attribute that
/// turns it off again.
pub open spec fn decoration_toggle(s: SelectGraphicRendition) -> Option<(FontDecorations, SelectGraphicRendition)> {
    match s {
        SelectGraphicRendition::Italic => Some((FontDecorations::Italic, SelectGraphicRendition::NotItalic)),
        SelectGraphicRendition::Faint => Some((FontDecorations::Faint, SelectGraphicRendition::NormalIntensity)),
        SelectGraphicRendition::Underline => Some(
            (FontDecorations::Underline, SelectGraphicRendition::NotUnderlined),
        ),
        SelectGraphicRendition::Strikethrough => Some(
            (FontDecorations::Strikethrough, SelectGraphicRendition::NotStrikethrough),
        ),
        _ => None,
    }
}

proof fn lemma_remove_decoration_twice(s: Seq<FontDecorations>, d: FontDecorations)
    ensures
        remove_decoration(remove_decoration(s, d), d) == remove_decoration(s, d),
        !remove_decoration(s, d).contains(d),
    decreases s.len(),
{
    let keep = other_than(d);
    if s.len() == 0 {
        assert(remove_decoration(s, d) =~= Seq::<FontDecorations>::empty()) by {
            reveal(Seq::filter);
        }
        assert(remove_decoration(remove_decoration(s, d), d) =~= Seq::<FontDecorations>::empty()) by {
            reveal(Seq::filter);
        }
    } else {
        let init = s.drop_last();
        lemma_remove_decoration_twice(init, d);
        assert(s =~= init.push(s.last()));
        init.lemma_filter_push(s.last(), keep);
        remove_decoration(init, d).lemma_filter_push(s.last(), keep);
        assert(remove_decoration(s, d) == init.push(s.last()).filter(keep));
    }
}

proof fn lemma_remove_after_add(s: Seq<FontDecorations>, d: FontDecorations)
    ensures
        remove_decoration(add_decoration(s, d), d) == remove_decoration(s, d),
{
    if !s.contains(d) {
        s.lemma_filter_push(d, other_than(d));
    }
}

/// Turning a decoration on (italic, faint, underline or strikethrough) that
/// the cursor's format holds at most once: afterwards the format holds it
/// exactly once, the other decorations are as they were and in their order,
/// and nothing else has changed; turning it on again changes nothing; and
/// the matching "off" attribute then takes it away and leaves the other
/// decorations as they were, in their order.
pub proof fn lemma_decoration_toggles(m: ReplayModel, s: SelectGraphicRendition)
    requires
        decoration_toggle(s) is Some,
        m.cursor.font_decorations.no_duplicates(),
    ensures
        ({
            let (d, off) = decoration_toggle(s).unwrap();
            let on = replay_sgr(m, s);
            let ds = on.cursor.font_decorations;
            &&& ds.contains(d)
            &&& ds.no_duplicates()
            &&& remove_decoration(ds, d) == remove_decoration(m.cursor.font_decorations, d)
            &&& on == (ReplayModel { cursor: CursorModel { font_decorations: ds, ..m.cursor }, ..m })
            &&& replay_sgr(on, s) == on
            &&& replay_sgr(on, off) == (ReplayModel {
                cursor: CursorModel {
                    font_decorations: remove_decoration(m.cursor.font_decorations, d),
                    ..m.cursor
                },
                ..m
            })
            &&& !replay_sgr(on, off).cursor.font_decorations.contains(d)
        }),
{
    reveal(replay_sgr);
    let (d, off) = decoration_toggle(s).unwrap();
    let old_ds = m.cursor.font_decorations;
    let ds = add_decoration(old_ds, d);
    if !old_ds.contains(d) {
        assert(ds[old_ds.len() as int] == d);
        assert forall|i: int, j: int| 0 <= i < ds.len() && 0 <= j < ds.len() && i != j implies ds[i]
            != ds[j] by {
            if i == old_ds.len() {
                assert(ds[j] == old_ds[j]);
            } else if j == old_ds.len() {
                assert(ds[i] == old_ds[i]);
            }
        }
    }
    lemma_remove_after_add(old_ds, d);
    lemma_remove_decoration_twice(old_ds, d);
    assert(add_decoration(ds, d) == ds);
}

/// A color attribute sets exactly its own color of the cursor's format: the
/// foreground attribute sets the text color, the background attribute the
/// background color, the underline attribute the underline color; nothing
/// else in the terminal state changes.
pub proof fn lemma_color_attributes_set_their_own_color(m: ReplayModel, c: TerminalColor)
    ensures
        replay_sgr(m, SelectGraphicRendition::Foreground(c)).cursor.color == c,
        replay_sgr(m, SelectGraphicRendition::Foreground(c)) == (ReplayModel {
            cursor: CursorModel { color: c, ..m.cursor },
            ..m
        }),
        replay_sgr(m, SelectGraphicRendition::Background(c)).cursor.background_color == c,
        replay_sgr(m, SelectGraphicRendition::Background(c)).cursor.color == m.cursor.color,
        replay_sgr(m, SelectGraphicRendition::Background(c)) == (ReplayModel {
            cursor: CursorModel { background_color: c, ..m.cursor },
            ..m
        }),
        replay_sgr(m, SelectGraphicRendition::UnderlineColor(c)).cursor.underline_color == c,
        replay_sgr(m, SelectGraphicRendition::UnderlineColor(c)) == (ReplayModel {
            cursor: CursorModel { underline_color: c, ..m.cursor },
            ..m
        }),
{
    reveal(replay_sgr);
}

/// Bold sets the cursor's font weight to bold, and ending bold sets it back
/// to normal; nothing else in the terminal state changes. Reset brings the
/// cursor's colors, weight and decorations back to the defaults and forgets
/// colors saved by reverse video.
pub proof fn lemma_weight_attributes(m: ReplayModel)
    ensures
        replay_sgr(m, SelectGraphicRendition::Bold) == (ReplayModel {
            cursor: CursorModel { font_weight: FontWeight::Bold, ..m.cursor },
            ..m
        }),
        replay_sgr(m, SelectGraphicRendition::ResetBold) == (ReplayModel {
            cursor: CursorModel { font_weight: FontWeight::Normal, ..m.cursor },
            ..m
        }),
        replay_sgr(m, SelectGraphicRendition::Reset).cursor.color == TerminalColor::Default,
        replay_sgr(m, SelectGraphicRendition::Reset).cursor.background_color == TerminalColor::Black,
        replay_sgr(m, SelectGraphicRendition::Reset).cursor.font_weight == FontWeight::Normal,
        replay_sgr(m, SelectGraphicRendition::Reset).cursor.font_decorations.len() == 0,
        replay_sgr(m, SelectGraphicRendition::Reset).saved is None,
        replay_sgr(m, SelectGraphicRendition::Reset).buffer == m.buffer,
        replay_sgr(m, SelectGraphicRendition::Reset).cursor.pos == m.cursor.pos,
{
    reveal(replay_sgr);
}

/// Setting a mode turns it on and resetting turns it off: cursor keys
/// (DECCKM) become application keys or back to ANSI, autowrap (DECAWM) goes
/// on or off, bracketed paste is enabled or disabled. Each touches only its
/// own setting, and an unknown mode changes nothing.
pub proof fn lemma_modes_set_and_reset(m: ReplayModel, p: Seq<u8>)
    ensures
        replay_set_mode(m, ModeModel::Decckm) == (ReplayModel {
            modes: TerminalModes { cursor_key: Decckm::Application, ..m.modes },
            ..m
        }),
        replay_reset_mode(m, ModeModel::Decckm) == (ReplayModel {
            modes: TerminalModes { cursor_key: Decckm::Ansi, ..m.modes },
            ..m
        }),
        replay_set_mode(m, ModeModel::Decawm) == (ReplayModel {
            cursor: CursorModel { line_wrap_mode: Decawm::AutoWrap, ..m.cursor },
            ..m
        }),
        replay_reset_mode(m, ModeModel::Decawm) == (ReplayModel {
            cursor: CursorModel { line_wrap_mode: Decawm::NoAutoWrap, ..m.cursor },
            ..m
        }),
        replay_set_mode(m, ModeModel::BracketedPaste).modes.bracketed_paste == BracketedPaste::Enabled,
        replay_reset_mode(m, ModeModel::BracketedPaste).modes.bracketed_paste == BracketedPaste::Disabled,
        replay_set_mode(m, ModeModel::Unknown(p)) == m,
        replay_reset_mode(m, ModeModel::Unknown(p)) == m,
{
    reveal(replay_set_mode);
    reveal(replay_reset_mode);
}

/// What an SGR attribute does to the cursor's format. Italic, faint,
/// underline and strikethrough add their decoration once; the matching
/// "off" attribute takes it away. Reverse video swaps
/// the colors, saving them first (default colors become white on black);
/// resetting it brings the saved colors back.
#[verifier::opaque]
pub open spec fn replay_sgr(m: ReplayModel, s: SelectGraphicRendition) -> ReplayModel {
    let c = m.cursor;
    match s {
        SelectGraphicRendition::Reset => ReplayModel {
            cursor: CursorModel {
                color: TerminalColor::Default,
                background_color: TerminalColor::Black,
                font_weight: FontWeight::Normal,
                font_decorations: Seq::empty(),
                ..c
            },
            saved: None,
            ..m
        },
        SelectGraphicRendition::Bold => ReplayModel {
            cursor: CursorModel { font_weight: FontWeight::Bold, ..c },
            ..m
        },
        SelectGraphicRendition::Italic => ReplayModel {
            cursor: CursorModel {
                font_decorations: add_decoration(c.font_decorations, FontDecorations::Italic),
                ..c
            },
            ..m
        },
        SelectGraphicRendition::Faint => ReplayModel {
            cursor: CursorModel {
                font_decorations: add_decoration(c.font_decorations, FontDecorations::Faint),
                ..c
            },
            ..m
        },
        SelectGraphicRendition::Underline => ReplayModel {
            cursor: CursorModel {
                font_decorations: add_decoration(c.font_decorations, FontDecorations::Underline),
                ..c
            },
            ..m
        },
        SelectGraphicRendition::ResetBold => ReplayModel {
            cursor: CursorModel { font_weight: FontWeight::Normal, ..c },
            ..m
        },
        SelectGraphicRendition::NormalIntensity => ReplayModel {
            cursor: CursorModel {
                font_decorations: remove_decoration(c.font_decorations, FontDecorations::Faint),
                ..c
            },
            ..m
        },
        SelectGraphicRendition::NotUnderlined => ReplayModel {
            cursor: CursorModel {
                font_decorations: remove_decoration(c.font_decorations, FontDecorations::Underline),
                ..c
            },
            ..m
        },
        SelectGraphicRendition::NotItalic => ReplayModel {
            cursor: CursorModel {
                font_decorations: remove_decoration(c.font_decorations, FontDecorations::Italic),
                ..c
            },
            ..m
        },
        SelectGraphicRendition::Strikethrough => ReplayModel {
            cursor: CursorModel {
                font_decorations: add_decoration(c.font_decorations, FontDecorations::Strikethrough),
                ..c
            },
            ..m
        },
        SelectGraphicRendition::NotStrikethrough => ReplayModel {
            cursor: CursorModel {
                font_decorations: remove_decoration(c.font_decorations, FontDecorations::Strikethrough),
                ..c
            },
            ..m
        },
        SelectGraphicRendition::ReverseVideo => {
            let fg = if c.color == TerminalColor::Default {
                TerminalColor::White
            } else {
                c.color
            };
            let ul = if c.underline_color == TerminalColor::DefaultUnderlineColor {
                fg
            } else {
                c.underline_color
            };
            let bg = if c.background_color == TerminalColor::DefaultBackground {
                TerminalColor::Black
            } else {
                c.background_color
            };
            ReplayModel {
                cursor: CursorModel { color: bg, background_color: fg, underline_color: ul, ..c },
                saved: Some((c.color, c.background_color, c.underline_color)),
                ..m
            }
        },
        SelectGraphicRendition::ResetReverseVideo => match m.saved {
            Some((fg, bg, ul)) => ReplayModel {
                cursor: CursorModel { color: fg, background_color: bg, underline_color: ul, ..c },
                saved: None,
                ..m
            },
            None => m,
        },
        SelectGraphicRendition::Foreground(color) => ReplayModel {
            cursor: CursorModel { color, ..c },
            ..m
        },
        SelectGraphicRendition::Background(color) => ReplayModel {
            cursor: CursorModel { background_color: color, ..c },
            ..m
        },
        SelectGraphicRendition::UnderlineColor(color) => ReplayModel {
            cursor: CursorModel { underline_color: color, ..c },
            ..m
        },
        _ => m,
    }
}

/// Setting a mode: DECCKM selects application cursor keys, DECAWM turns on
/// autowrap, and bracketed paste is enabled. Unknown modes change nothing.
#[verifier::opaque]
pub open spec fn replay_set_mode(m: ReplayModel, mode: ModeModel) -> ReplayModel {
    match mode {
        ModeModel::Decckm => ReplayModel {
            modes: TerminalModes { cursor_key: Decckm::Application, ..m.modes },
            ..m
        },
        ModeModel::Decawm => ReplayModel {
            cursor: CursorModel { line_wrap_mode: Decawm::AutoWrap, ..m.cursor },
            ..m
        },
        ModeModel::BracketedPaste => ReplayModel {
            modes: TerminalModes { bracketed_paste: BracketedPaste::Enabled, ..m.modes },
            ..m
        },
        ModeModel::Unknown(_) => m,
    }
}

/// Resetting a mode, the reverse of [`replay_set_mode`].
#[verifier::opaque]
pub open spec fn replay_reset_mode(m: ReplayModel, mode: ModeModel) -> ReplayModel {
    match mode {
        ModeModel::Decckm => ReplayModel {
            modes: TerminalModes { cursor_key: Decckm::Ansi, ..m.modes },
            ..m
        },
        ModeModel::Decawm => ReplayModel {
            cursor: CursorModel { line_wrap_mode: Decawm::NoAutoWrap, ..m.cursor },
            ..m
        },
        ModeModel::BracketedPaste => ReplayModel {
            modes: TerminalModes { bracketed_paste: BracketedPaste::Disabled, ..m.modes },
            ..m
        },
        ModeModel::Unknown(_) => m,
    }
}

/// What one parsed item does during playback. Bells, invalid sequences,
/// operating system commands, cursor reports and keypad modes change
/// nothing.
#[verifier::opaque]
pub open spec fn replay_step(m: ReplayModel, item: OutputModel) -> ReplayModel {
    let pos = m.cursor.pos;
    match item {
        OutputModel::Data(d) => replay_data(m, d),
        OutputModel::SetCursorPos { x, y } => replay_set_pos(m, x, y),
        OutputModel::SetCursorPosRel { x, y } => replay_set_pos_rel(m, x, y),
        OutputModel::ClearDisplayfromCursortoEndofDisplay => replay_clear_forwards(m),
        OutputModel::ClearDiplayfromStartofDisplaytoCursor => replay_clear_backwards(m),
        OutputModel::ClearScrollbackandDisplay => replay_clear_all(m),
        OutputModel::ClearDisplay => replay_clear_visible(m),
        OutputModel::ClearLineForwards => replay_clear_line_part(m, LinePart::Forwards),
        OutputModel::ClearLineBackwards => replay_clear_line_part(m, LinePart::Backwards),
        OutputModel::ClearLine => replay_clear_line_part(m, LinePart::Whole),
        OutputModel::CarriageReturn => with_pos(m, CursorPos { x: 0, ..pos }),
        OutputModel::Newline => with_pos(
            m,
            CursorPos {
                y: if pos.y < usize::MAX {
                    (pos.y + 1) as usize
                } else {
                    pos.y
                },
                ..pos
            },
        ),
        OutputModel::Backspace => if pos.x >= 1 {
            with_pos(m, CursorPos { x: (pos.x - 1) as usize, ..pos })
        } else {
            m
        },
        OutputModel::InsertLines(n) => replay_insert_lines(m, n),
        OutputModel::Delete(n) => replay_delete(m, n),
        OutputModel::Sgr(s) => replay_sgr(m, s),
        OutputModel::SetMode(mode) => replay_set_mode(m, mode),
        OutputModel::InsertSpaces(n) => replay_insert_spaces(m, n),
        OutputModel::ResetMode(mode) => replay_reset_mode(m, mode),
        _ => m,
    }
}

/// Playback of the items in turn.
pub open spec fn replay_items(m: ReplayModel, items: Seq<OutputModel>) -> ReplayModel
    decreases items.len(),
{
    if items.len() == 0 {
        m
    } else {
        replay_step(replay_items(m, items.drop_last()), items.last())
    }
}

/// Playback of a run of recorded bytes: they are parsed, and the items
/// played in turn.
pub open spec fn replay_bytes(m: ReplayModel, bytes: Seq<u8>) -> ReplayModel {
    let parsed = parse_bytes(m.inner, bytes);
    replay_items(ReplayModel { inner: parsed.0, ..m }, parsed.1)
}

/// Whether `d` is among the decorations.
fn has_decoration(s: &Vec<FontDecorations>, d: FontDecorations) -> (r: bool)
    ensures
        r == s@.contains(d),
{
    let mut i: usize = 0;
    while i < s.len()
        invariant
            i <= s@.len(),
            forall|k: int| 0 <= k < i ==> s@[k] != d,
        decreases s@.len() - i,
    {
        if s[i] == d {
            return true;
        }
        i += 1;
    }
    false
}

/// The decorations without `d`.
fn without_decoration(s: &Vec<FontDecorations>, d: FontDecorations) -> (r: Vec<FontDecorations>)
    ensures
        r@ == remove_decoration(s@, d),
{
    let mut out: Vec<FontDecorations> = Vec::new();
    let mut i: usize = 0;
    proof {
        reveal_with_fuel(Seq::filter, 1);
        assert(s@.take(0) =~= Seq::<FontDecorations>::empty());
    }
    while i < s.len()
        invariant
            i <= s@.len(),
            out@ == remove_decoration(s@.take(i as int), d),
        decreases s@.len() - i,
    {
        proof {
            reveal_with_fuel(Seq::filter, 1);
            assert(s@.take(i + 1).drop_last() =~= s@.take(i as int));
        }
        if s[i] != d {
            out.push(s[i]);
        }
        i += 1;
    }
    assert(s@.take(s@.len() as int) =~= s@);
    out
}

/// The model of a newly started playback.
pub open spec fn initial_replay() -> ReplayModel {
    ReplayModel {
        inner: InnerModel::Empty,
        buffer: BufferModel {
            buf: Seq::empty(),
            width: TERMINAL_WIDTH as nat,
            height: TERMINAL_HEIGHT as nat,
        },
        tags: seq![default_tag()],
        cursor: CursorModel {
            pos: CursorPos { x: 0, y: 0 },
            font_weight: FontWeight::Normal,
            font_decorations: Seq::empty(),
            color: TerminalColor::Default,
            background_color: TerminalColor::DefaultBackground,
            underline_color: TerminalColor::DefaultUnderlineColor,
            line_wrap_mode: Decawm::NoAutoWrap,
        },
        modes: TerminalModes { cursor_key: Decckm::Ansi, bracketed_paste: BracketedPaste::Disabled },
        saved: None,
    }
}

impl Default for ReplayIo {
    fn default() -> (r: Self)
        ensures
            r@ == initial_replay(),
    {
        Self::new()
    }
}

impl ReplayIo {
    /// Playback on an empty screen of the default size.
    pub fn new() -> (r: Self)
        ensures
            r@ == initial_replay(),
            replay_wf(r@),
    {
        ReplayIo {
            parser: FreminalAnsiParser::new(),
            terminal_buffer: TerminalBufferHolder::new(TERMINAL_WIDTH, TERMINAL_HEIGHT),
            format_tracker: FormatTracker::new(),
            cursor_state: CursorState {
                pos: CursorPos::default(),
                font_weight: FontWeight::Normal,
                font_decorations: Vec::new(),
                color: TerminalColor::Default,
                background_color: TerminalColor::DefaultBackground,
                underline_color: TerminalColor::DefaultUnderlineColor,
                line_wrap_mode: Decawm::default(),
            },
            modes: TerminalModes {
                cursor_key: Decckm::default(),
                bracketed_paste: BracketedPaste::default(),
            },
            saved_color_state: None,
        }
    }

    /// The screen size, as (width, height).
    pub fn get_win_size(&self) -> (r: (usize, usize))
        ensures
            r.0 as nat == self@.buffer.width,
            r.1 as nat == self@.buffer.height,
    {
        self.terminal_buffer.get_win_size()
    }

    /// Resizes the screen (see [`TerminalBufferHolder::set_win_size`]) and
    /// moves the cursor to its place on the new screen. A resize whose
    /// padding could not be placed within `usize` changes nothing.
    pub fn set_win_size(&mut self, width_chars: usize, height_chars: usize)
        requires
            replay_wf(old(self)@),
            width_chars > 0,
        ensures
            replay_wf(final(self)@),
            ({
                let m = old(self)@;
                let b = m.buffer;
                if !write_fits(b.buf.len() as int, m.cursor.pos, 0) || (b.width == width_chars
                    && b.height == height_chars) {
                    final(self)@ == m
                } else {
                    let p = pad_for_write(b.buf, b.width, b.height, m.cursor.pos, 0);
                    final(self)@ == with_pos(
                        ReplayModel {
                            buffer: BufferModel {
                                buf: p.buf,
                                width: width_chars as nat,
                                height: height_chars as nat,
                            },
                            ..m
                        },
                        cursor_of_pos(p.buf, width_chars as nat, height_chars as nat, p.write_idx),
                    )
                }
            }),
    {
        let pos = self.cursor_state.pos;
        let len = self.terminal_buffer.len();
        if len > usize::MAX - 1 || pos.y > usize::MAX - 1 - len || pos.x > usize::MAX - 1 - len - pos.y {
            return;
        }
        let response = self.terminal_buffer.set_win_size(width_chars, height_chars, &pos);
        self.cursor_state.pos = response.new_cursor_pos;
    }

    /// Writes text at the cursor (see [`replay_data`]).
    fn handle_data(&mut self, data: &[u8])
        requires
            replay_wf(old(self)@),
        ensures
            final(self)@ == replay_data(old(self)@, data@),
            replay_wf(final(self)@),
    {
        reveal(replay_data);
        let pos = self.cursor_state.pos;
        let len = self.terminal_buffer.len();
        if len > usize::MAX - 1 || pos.y > usize::MAX - 1 - len || pos.x > usize::MAX - 1 - len - pos.y
            || data.len() > usize::MAX - 1 - len - pos.y - pos.x {
            return;
        }
        let response = match self.terminal_buffer.insert_data(&pos, data) {
            Ok(response) => response,
            Err(_) => {
                return;
            },
        };
        let ins = response.insertion_range;
        if self.format_tracker.fits_shift(ins.end - ins.start) {
            proof {
                lemma_insert_adjustment_keeps_tags_wf(self@.tags, ins.start as int, ins.end - ins.start);
            }
            self.format_tracker.push_range_adjustment(ins);
        }
        let written = response.written_range;
        proof {
            lemma_push_range_keeps_tags_wf(self@.tags, self@.cursor, (written.start as int, written.end as int));
        }
        self.format_tracker.push_range(&self.cursor_state, written);
        self.cursor_state.pos = response.new_cursor_pos;
    }

    /// Moves the cursor to a column and row counted from 1.
    fn set_cursor_pos(&mut self, x: Option<usize>, y: Option<usize>)
        requires
            replay_wf(old(self)@),
        ensures
            replay_wf(final(self)@),
            final(self)@ == replay_set_pos(old(self)@, x, y),
    {
        reveal(replay_set_pos);
        match x {
            Some(v) => {
                self.cursor_state.pos.x = if v > 0 {
                    v - 1
                } else {
                    0
                };
            },
            None => {},
        }
        match y {
            Some(v) => {
                self.cursor_state.pos.y = if v > 0 {
                    v - 1
                } else {
                    0
                };
            },
            None => {},
        }
    }

    /// Moves the cursor by a number of columns and rows.
    fn set_cursor_pos_rel(&mut self, x: Option<i32>, y: Option<i32>)
        requires
            replay_wf(old(self)@),
        ensures
            replay_wf(final(self)@),
            final(self)@ == replay_set_pos_rel(old(self)@, x, y),
    {
        reveal(replay_set_pos_rel);
        match x {
            Some(d) => {
                let v = self.cursor_state.pos.x as i128 + d as i128;
                self.cursor_state.pos.x = if v < 0 || v > usize::MAX as i128 {
                    0
                } else {
                    v as usize
                };
            },
            None => {},
        }
        match y {
            Some(d) => {
                let v = self.cursor_state.pos.y as i128 + d as i128;
                self.cursor_state.pos.y = if v < 0 || v > usize::MAX as i128 {
                    0
                } else {
                    v as usize
                };
            },
            None => {},
        }
    }

    /// Whether a clear at the cursor may run (see [`clear_fits`]).
    fn clear_may_run(&self) -> (r: bool)
        requires
            replay_wf(self@),
        ensures
            r == clear_fits(self@),
    {
        let len = self.terminal_buffer.len();
        let (_, height) = self.terminal_buffer.get_win_size();
        if len > usize::MAX - 1 || height > usize::MAX - 1 - len {
            return false;
        }
        proof {
            let b = self@.buffer;
            crate::buffer::lemma_visible_lines(b.buf, b.width, b.height);
        }
        match self.terminal_buffer.buf_pos_of(&self.cursor_state.pos) {
            Some(p) => p < len,
            None => true,
        }
    }

    /// Clears from the cursor to the end of the screen (see
    /// [`replay_clear_forwards`]).
    pub(crate) fn clear_forwards(&mut self)
        requires
            replay_wf(old(self)@),
        ensures
            final(self)@ == replay_clear_forwards(old(self)@),
            replay_wf(final(self)@),
    {
        reveal(replay_clear_forwards);
        if !self.clear_may_run() {
            return;
        }
        let ghost m = self@;
        proof {
            crate::buffer::lemma_visible_lines(m.buffer.buf, m.buffer.width, m.buffer.height);
        }
        match self.terminal_buffer.clear_forwards(&self.cursor_state.pos) {
            Ok(Some(buf_pos)) => {
                proof {
                    let v = visible_lines(m.buffer.buf, m.buffer.width, m.buffer.height);
                    let (p, _) = cursor_buf_pos(v, m.cursor.pos).unwrap();
                    assert(buf_pos as int == p);
                    lemma_push_range_keeps_tags_wf(self@.tags, self@.cursor, (buf_pos as int, usize::MAX as int));
                }
                self.format_tracker.push_range(&self.cursor_state, Range { start: buf_pos, end: usize::MAX });
            },
            Ok(None) => {},
            Err(_) => {},
        }
    }

    /// Clears from the start of the screen to the cursor (see
    /// [`replay_clear_backwards`]).
    pub(crate) fn clear_backwards(&mut self)
        requires
            replay_wf(old(self)@),
        ensures
            final(self)@ == replay_clear_backwards(old(self)@),
            replay_wf(final(self)@),
    {
        reveal(replay_clear_backwards);
        if !self.clear_may_run() {
            return;
        }
        proof {
            let b = self@.buffer;
            crate::buffer::lemma_visible_lines(b.buf, b.width, b.height);
        }
        match self.terminal_buffer.clear_backwards(&self.cursor_state.pos) {
            Ok(Some(range)) => {
                proof {
                    lemma_push_range_keeps_tags_wf(self@.tags, self@.cursor, (range.start as int, range.end as int));
                }
                self.format_tracker.push_range(&self.cursor_state, range);
            },
            Ok(None) => {},
            Err(_) => {},
        }
    }

    /// Clears everything (see [`replay_clear_all`]).
    fn clear_all(&mut self)
        requires
            replay_wf(old(self)@),
        ensures
            final(self)@ == replay_clear_all(old(self)@),
            replay_wf(final(self)@),
    {
        reveal(replay_clear_all);
        proof {
            lemma_push_range_keeps_tags_wf(self@.tags, self@.cursor, (0, usize::MAX as int));
        }
        self.format_tracker.push_range(&self.cursor_state, Range { start: 0, end: usize::MAX });
        self.terminal_buffer.clear_all();
    }

    /// Clears the screen (see [`replay_clear_visible`]).
    pub(crate) fn clear_visible(&mut self)
        requires
            replay_wf(old(self)@),
        ensures
            final(self)@ == replay_clear_visible(old(self)@),
            replay_wf(final(self)@),
    {
        reveal(replay_clear_visible);
        if !self.terminal_buffer.has_visible_lines() {
            return;
        }
        let range = self.terminal_buffer.clear_visible();
        if range.end > 0 {
            proof {
                lemma_push_range_keeps_tags_wf(self@.tags, self@.cursor, (range.start as int, range.end as int));
            }
            self.format_tracker.push_range(&self.cursor_state, range);
        }
    }

    /// Removes from the cursor to the end of its line, with its format.
    fn clear_line_forwards(&mut self)
        requires
            replay_wf(old(self)@),
        ensures
            final(self)@ == replay_clear_line_part(old(self)@, LinePart::Forwards),
            replay_wf(final(self)@),
    {
        reveal(replay_clear_line_part);
        proof {
            let b = self@.buffer;
            crate::buffer::lemma_visible_lines(b.buf, b.width, b.height);
        }
        match self.terminal_buffer.clear_line_forwards(&self.cursor_state.pos) {
            Some(range) => {
                proof {
                    lemma_delete_keeps_tags_wf(self@.tags, (range.start as int, range.end as int));
                }
                self.format_tracker.delete_range(range);
            },
            None => {},
        }
    }

    /// Removes from the start of the cursor's line to the cursor, with its
    /// format.
    pub fn clear_line_backwards(&mut self)
        requires
            replay_wf(old(self)@),
        ensures
            final(self)@ == replay_clear_line_part(old(self)@, LinePart::Backwards),
            replay_wf(final(self)@),
    {
        reveal(replay_clear_line_part);
        proof {
            let b = self@.buffer;
            crate::buffer::lemma_visible_lines(b.buf, b.width, b.height);
        }
        match self.terminal_buffer.clear_line_backwards(&self.cursor_state.pos) {
            Some(range) => {
                proof {
                    lemma_delete_keeps_tags_wf(self@.tags, (range.start as int, range.end as int));
                }
                self.format_tracker.delete_range(range);
            },
            None => {},
        }
    }

    /// Removes the cursor's line, with its format.
    pub fn clear_line(&mut self)
        requires
            replay_wf(old(self)@),
        ensures
            final(self)@ == replay_clear_line_part(old(self)@, LinePart::Whole),
            replay_wf(final(self)@),
    {
        reveal(replay_clear_line_part);
        proof {
            let b = self@.buffer;
            crate::buffer::lemma_visible_lines(b.buf, b.width, b.height);
        }
        match self.terminal_buffer.clear_line(&self.cursor_state.pos) {
            Some(range) => {
                proof {
                    lemma_delete_keeps_tags_wf(self@.tags, (range.start as int, range.end as int));
                }
                self.format_tracker.delete_range(range);
            },
            None => {},
        }
    }

    /// Inserts lines at the cursor row (see [`replay_insert_lines`]).
    fn insert_lines(&mut self, num_lines: usize)
        requires
            replay_wf(old(self)@),
        ensures
            final(self)@ == replay_insert_lines(old(self)@, num_lines),
            replay_wf(final(self)@),
    {
        reveal(replay_insert_lines);
        let len = self.terminal_buffer.len();
        let (_, height) = self.terminal_buffer.get_win_size();
        if len > usize::MAX - 1 || height > usize::MAX - 1 - len {
            return;
        }
        let response = self.terminal_buffer.insert_lines(&self.cursor_state.pos, num_lines);
        proof {
            crate::buffer::lemma_insert_lines_ranges(old(self)@.buffer, old(self)@.cursor.pos, num_lines as nat);
            lemma_delete_keeps_tags_wf(self@.tags, (response.deleted_range.start as int, response.deleted_range.end as int));
        }
        self.format_tracker.delete_range(response.deleted_range);
        let ins = response.inserted_range;
        if self.format_tracker.fits_shift(ins.end - ins.start) {
            proof {
                lemma_insert_adjustment_keeps_tags_wf(self@.tags, ins.start as int, ins.end - ins.start);
            }
            self.format_tracker.push_range_adjustment(ins);
        }
    }

    /// Deletes characters at the cursor (see [`replay_delete`]).
    fn delete(&mut self, num_chars: usize)
        requires
            replay_wf(old(self)@),
        ensures
            final(self)@ == replay_delete(old(self)@, num_chars),
            replay_wf(final(self)@),
    {
        reveal(replay_delete);
        proof {
            let b = self@.buffer;
            crate::buffer::lemma_visible_lines(b.buf, b.width, b.height);
        }
        match self.terminal_buffer.delete_forwards(&self.cursor_state.pos, num_chars) {
            Some(range) => {
                proof {
                    lemma_delete_keeps_tags_wf(self@.tags, (range.start as int, range.end as int));
                }
                self.format_tracker.delete_range(range);
            },
            None => {},
        }
    }

    /// Inserts spaces at the cursor (see [`replay_insert_spaces`]).
    fn insert_spaces(&mut self, num_spaces: usize)
        requires
            replay_wf(old(self)@),
        ensures
            final(self)@ == replay_insert_spaces(old(self)@, num_spaces),
            replay_wf(final(self)@),
    {
        reveal(replay_insert_spaces);
        let pos = self.cursor_state.pos;
        let len = self.terminal_buffer.len();
        let (width, _) = self.terminal_buffer.get_win_size();
        if len > usize::MAX - 1 || pos.y > usize::MAX - 1 - len || pos.x > usize::MAX - 1 - len - pos.y
            || width > usize::MAX - 1 - len - pos.y - pos.x {
            return;
        }
        let response = self.terminal_buffer.insert_spaces(&pos, num_spaces);
        let ins = response.insertion_range;
        proof {
            crate::buffer::lemma_insert_spaces_ranges(old(self)@.buffer, pos, num_spaces as nat);
        }
        if self.format_tracker.fits_shift(ins.end - ins.start) {
            proof {
                lemma_insert_adjustment_keeps_tags_wf(self@.tags, ins.start as int, ins.end - ins.start);
            }
            self.format_tracker.push_range_adjustment(ins);
        }
    }

    /// Moves the cursor to the first column.
    fn carriage_return(&mut self)
        requires
            replay_wf(old(self)@),
        ensures
            replay_wf(final(self)@),
            final(self)@ == with_pos(old(self)@, CursorPos { x: 0, ..old(self)@.cursor.pos }),
    {
        self.cursor_state.pos.x = 0;
    }

    /// Moves the cursor one row down; a cursor on the last possible row
    /// stays there.
    fn new_line(&mut self)
        requires
            replay_wf(old(self)@),
        ensures
            replay_wf(final(self)@),
            final(self)@ == with_pos(
                old(self)@,
                CursorPos {
                    y: if old(self)@.cursor.pos.y < usize::MAX {
                        (old(self)@.cursor.pos.y + 1) as usize
                    } else {
                        old(self)@.cursor.pos.y
                    },
                    ..old(self)@.cursor.pos
                },
            ),
    {
        if self.cursor_state.pos.y < usize::MAX {
            self.cursor_state.pos.y = self.cursor_state.pos.y + 1;
        }
    }

    /// Moves the cursor one column left, unless it is in the first column.
    fn backspace(&mut self)
        requires
            replay_wf(old(self)@),
        ensures
            replay_wf(final(self)@),
            final(self)@ == if old(self)@.cursor.pos.x >= 1 {
                with_pos(old(self)@, CursorPos { x: (old(self)@.cursor.pos.x - 1) as usize, ..old(self)@.cursor.pos })
            } else {
                old(self)@
            },
    {
        if self.cursor_state.pos.x >= 1 {
            self.cursor_state.pos.x = self.cursor_state.pos.x - 1;
        }
    }

    /// Back to the default format: default text on black, normal weight,
    /// no decorations, and no saved colors.
    fn reset(&mut self)
        ensures
            final(self)@ == (ReplayModel {
                cursor: CursorModel {
                    color: TerminalColor::Default,
                    background_color: TerminalColor::Black,
                    font_weight: FontWeight::Normal,
                    font_decorations: Seq::empty(),
                    ..old(self)@.cursor
                },
                saved: None,
                ..old(self)@
            }),
    {
        self.cursor_state.color = TerminalColor::Default;
        self.cursor_state.background_color = TerminalColor::Black;
        self.cursor_state.font_weight = FontWeight::Normal;
        self.cursor_state.font_decorations = Vec::new();
        self.saved_color_state = None;
    }

    fn set_foreground(&mut self, color: TerminalColor)
        ensures
            final(self)@ == (ReplayModel { cursor: CursorModel { color, ..old(self)@.cursor }, ..old(self)@ }),
    {
        self.cursor_state.color = color;
    }

    fn set_background(&mut self, color: TerminalColor)
        ensures
            final(self)@ == (ReplayModel {
                cursor: CursorModel { background_color: color, ..old(self)@.cursor },
                ..old(self)@
            }),
    {
        self.cursor_state.background_color = color;
    }

    fn set_underline_color(&mut self, color: TerminalColor)
        ensures
            final(self)@ == (ReplayModel {
                cursor: CursorModel { underline_color: color, ..old(self)@.cursor },
                ..old(self)@
            }),
    {
        self.cursor_state.underline_color = color;
    }

    /// Applies an SGR attribute to the cursor's format (see [`replay_sgr`]).
    fn sgr(&mut self, sgr: SelectGraphicRendition)
        requires
            replay_wf(old(self)@),
        ensures
            replay_wf(final(self)@),
            final(self)@ == replay_sgr(old(self)@, sgr),
    {
        reveal(replay_sgr);
        match sgr {
            SelectGraphicRendition::Reset => self.reset(),
            SelectGraphicRendition::Bold => {
                self.cursor_state.font_weight = FontWeight::Bold;
            },
            SelectGraphicRendition::Italic => {
                self.font_decordations_add_if_not_contains(FontDecorations::Italic);
            },
            SelectGraphicRendition::Faint => {
                self.font_decordations_add_if_not_contains(FontDecorations::Faint);
            },
            SelectGraphicRendition::Underline => {
                self.font_decordations_add_if_not_contains(FontDecorations::Underline);
            },
            SelectGraphicRendition::ResetBold => {
                self.cursor_state.font_weight = FontWeight::Normal;
            },
            SelectGraphicRendition::NormalIntensity => {
                self.font_decorations_remove_if_contains(FontDecorations::Faint);
            },
            SelectGraphicRendition::NotUnderlined => {
                self.font_decorations_remove_if_contains(FontDecorations::Underline);
            },
            SelectGraphicRendition::NotItalic => {
                self.font_decorations_remove_if_contains(FontDecorations::Italic);
            },
            SelectGraphicRendition::Strikethrough => {
                self.font_decordations_add_if_not_contains(FontDecorations::Strikethrough);
            },
            SelectGraphicRendition::NotStrikethrough => {
                self.font_decorations_remove_if_contains(FontDecorations::Strikethrough);
            },
            SelectGraphicRendition::ReverseVideo => {
                let mut foreground = self.cursor_state.color;
                let mut background = self.cursor_state.background_color;
                let mut underline = self.cursor_state.underline_color;
                self.saved_color_state = Some((foreground, background, underline));
                if foreground == TerminalColor::Default {
                    foreground = TerminalColor::White;
                }
                if underline == TerminalColor::DefaultUnderlineColor {
                    underline = foreground;
                }
                if background == TerminalColor::DefaultBackground {
                    background = TerminalColor::Black;
                }
                self.cursor_state.color = background;
                self.cursor_state.background_color = foreground;
                self.cursor_state.underline_color = underline;
            },
            SelectGraphicRendition::ResetReverseVideo => {
                match self.saved_color_state {
                    Some((foreground, background, underline)) => {
                        self.cursor_state.color = foreground;
                        self.cursor_state.background_color = background;
                        self.cursor_state.underline_color = underline;
                        self.saved_color_state = None;
                    },
                    None => {},
                }
            },
            SelectGraphicRendition::Foreground(color) => self.set_foreground(color),
            SelectGraphicRendition::Background(color) => self.set_background(color),
            SelectGraphicRendition::UnderlineColor(color) => self.set_underline_color(color),
            SelectGraphicRendition::SlowBlink | SelectGraphicRendition::FastBlink
            | SelectGraphicRendition::Unknown(_) => {},
        }
    }

    fn font_decordations_add_if_not_contains(&mut self, decoration: FontDecorations)
        ensures
            final(self)@ == (ReplayModel {
                cursor: CursorModel {
                    font_decorations: add_decoration(old(self)@.cursor.font_decorations, decoration),
                    ..old(self)@.cursor
                },
                ..old(self)@
            }),
    {
        if !has_decoration(&self.cursor_state.font_decorations, decoration) {
            self.cursor_state.font_decorations.push(decoration);
        }
    }

    fn font_decorations_remove_if_contains(&mut self, decoration: FontDecorations)
        ensures
            final(self)@ == (ReplayModel {
                cursor: CursorModel {
                    font_decorations: remove_decoration(old(self)@.cursor.font_decorations, decoration),
                    ..old(self)@.cursor
                },
                ..old(self)@
            }),
    {
        self.cursor_state.font_decorations = without_decoration(&self.cursor_state.font_decorations, decoration);
    }

    /// Sets a mode (see [`replay_set_mode`]).
    fn set_mode(&mut self, mode: &Mode)
        requires
            replay_wf(old(self)@),
        ensures
            replay_wf(final(self)@),
            final(self)@ == replay_set_mode(old(self)@, mode.deep_view()),
    {
        reveal(replay_set_mode);
        match mode {
            Mode::Decckm => {
                self.modes.cursor_key = Decckm::Application;
            },
            Mode::Decawm => {
                self.cursor_state.line_wrap_mode = Decawm::AutoWrap;
            },
            Mode::BracketedPaste => {
                self.modes.bracketed_paste = BracketedPaste::Enabled;
            },
            Mode::Unknown(_) => {},
        }
    }

    /// Resets a mode (see [`replay_reset_mode`]).
    fn reset_mode(&mut self, mode: &Mode)
        requires
            replay_wf(old(self)@),
        ensures
            replay_wf(final(self)@),
            final(self)@ == replay_reset_mode(old(self)@, mode.deep_view()),
    {
        reveal(replay_reset_mode);
        match mode {
            Mode::Decckm => {
                self.modes.cursor_key = Decckm::Ansi;
            },
            Mode::Decawm => {
                self.cursor_state.line_wrap_mode = Decawm::NoAutoWrap;
            },
            Mode::BracketedPaste => {
                self.modes.bracketed_paste = BracketedPaste::Disabled;
            },
            Mode::Unknown(_) => {},
        }
    }

    /// Plays one parsed item (see [`replay_step`]).
    fn apply(&mut self, item: &TerminalOutput)
        requires
            replay_wf(old(self)@),
        ensures
            final(self)@ == replay_step(old(self)@, item.deep_view()),
            replay_wf(final(self)@),
    {
        reveal(replay_step);
        match item {
            TerminalOutput::Data(data) => self.handle_data(data.as_slice()),
            TerminalOutput::SetCursorPos { x, y } => self.set_cursor_pos(*x, *y),
            TerminalOutput::SetCursorPosRel { x, y } => self.set_cursor_pos_rel(*x, *y),
            TerminalOutput::ClearDisplayfromCursortoEndofDisplay => self.clear_forwards(),
            TerminalOutput::ClearDiplayfromStartofDisplaytoCursor => self.clear_backwards(),
            TerminalOutput::ClearScrollbackandDisplay => self.clear_all(),
            TerminalOutput::ClearDisplay => self.clear_visible(),
            TerminalOutput::ClearLineForwards => self.clear_line_forwards(),
            TerminalOutput::ClearLineBackwards => self.clear_line_backwards(),
            TerminalOutput::ClearLine => self.clear_line(),
            TerminalOutput::CarriageReturn => self.carriage_return(),
            TerminalOutput::Newline => self.new_line(),
            TerminalOutput::Backspace => self.backspace(),
            TerminalOutput::InsertLines(num_lines) => self.insert_lines(*num_lines),
            TerminalOutput::Delete(num_chars) => self.delete(*num_chars),
            TerminalOutput::Sgr(sgr) => self.sgr(*sgr),
            TerminalOutput::SetMode(mode) => self.set_mode(mode),
            TerminalOutput::InsertSpaces(num_spaces) => self.insert_spaces(*num_spaces),
            TerminalOutput::ResetMode(mode) => self.reset_mode(mode),
            TerminalOutput::Bell | TerminalOutput::Invalid | TerminalOutput::OscResponse(_)
            | TerminalOutput::CursorReport | TerminalOutput::Skipped
            | TerminalOutput::ApplicationKeypadMode | TerminalOutput::NormalKeypadMode => {},
        }
    }

    /// Plays a run of recorded bytes (see [`replay_bytes`]).
    pub fn handle_incoming_data(&mut self, incoming: &[u8])
        requires
            replay_wf(old(self)@),
        ensures
            final(self)@ == replay_bytes(old(self)@, incoming@),
            replay_wf(final(self)@),
    {
        let ghost m0 = self@;
        let parsed = self.parser.push(incoming);
        let ghost start = self@;
        let ghost items = parsed.deep_view();
        assert(start == (ReplayModel { inner: parse_bytes(m0.inner, incoming@).0, ..m0 }));
        let mut i: usize = 0;
        proof {
            assert(items.take(0) =~= Seq::<OutputModel>::empty());
        }
        while i < parsed.len()
            invariant
                i <= parsed@.len(),
                items == parsed.deep_view(),
                replay_wf(self@),
                self@ == replay_items(start, items.take(i as int)),
            decreases parsed@.len() - i,
        {
            assert(items.take(i + 1).drop_last() =~= items.take(i as int));
            assert(items[i as int] == parsed@[i as int].deep_view());
            self.apply(&parsed[i]);
            i += 1;
        }
        assert(items.take(items.len() as int) =~= items);
    }

    /// The scrollback and the screen.
    pub fn data(&self) -> (r: TerminalSections<Vec<TChar>>)
        requires
            replay_wf(self@),
        ensures
            r.scrollback.deep_view() == self@.buffer.buf.subrange(
                0,
                visible_start(self@.buffer.buf, self@.buffer.width, self@.buffer.height),
            ),
            r.visible.deep_view() == self@.buffer.buf.subrange(
                visible_start(self@.buffer.buf, self@.buffer.width, self@.buffer.height),
                self@.buffer.buf.len() as int,
            ),
    {
        self.terminal_buffer.data()
    }

    /// The format tags of the scrollback and of the screen.
    pub fn format_data(&self) -> (r: TerminalSections<Vec<FormatTag>>)
        requires
            replay_wf(self@),
        ensures
            r.scrollback.deep_view() == scrollback_tags(
                self@.tags,
                visible_start(self@.buffer.buf, self@.buffer.width, self@.buffer.height),
            ),
            r.visible.deep_view() == visible_tags(
                self@.tags,
                visible_start(self@.buffer.buf, self@.buffer.width, self@.buffer.height),
            ),
    {
        let sections = self.terminal_buffer.data();
        proof {
            let b = self@.buffer;
            crate::buffer::lemma_visible_lines(b.buf, b.width, b.height);
        }
        let offset = sections.scrollback.len();
        assert(offset == sections.scrollback.deep_view().len());
        split_format_data_for_scrollback(self.format_tracker.tags(), offset)
    }

    /// Whether the cursor keys send their application sequences (DECCKM).
    pub fn cursor_key_mode(&self) -> (r: Decckm)
        ensures
            r == self@.modes.cursor_key,
    {
        self.modes.cursor_key
    }

    /// Where the cursor is.
    pub fn cursor_pos(&self) -> (r: CursorPos)
        ensures
            r == self@.cursor.pos,
    {
        self.cursor_state.pos
    }
}

} // verus!
