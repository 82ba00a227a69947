use vstd::prelude::*;

use crate::text::{append_decimal, decimal_text};

verus! {

/// A color as the terminal understands it: one of the palette names, one of
/// the "default" placeholders that the renderer resolves, or an RGB triple.
#[derive(Clone, Copy, Debug, PartialEq, Eq, Structural)]
pub enum TerminalColor {
    Default,
    DefaultBackground,
    DefaultUnderlineColor,
    DefaultCursorColor,
    Black,
    Red,
    Green,
    Yellow,
    Blue,
    Magenta,
    Cyan,
    White,
    BrightBlack,
    BrightRed,
    BrightGreen,
    BrightYellow,
    BrightBlue,
    BrightMagenta,
    BrightCyan,
    BrightWhite,
    Custom(u8, u8, u8),
}

/// The RGB values of the sixteen system colors of the xterm 256-color palette.
pub open spec fn system_color(index: int) -> (int, int, int) {
    if index == 0 {
        (0, 0, 0)
    } else if index == 1 {
        (205, 0, 0)
    } else if index == 2 {
        (0, 205, 0)
    } else if index == 3 {
        (205, 205, 0)
    } else if index == 4 {
        (0, 0, 238)
    } else if index == 5 {
        (205, 0, 205)
    } else if index == 6 {
        (0, 205, 205)
    } else if index == 7 {
        (229, 229, 229)
    } else if index == 8 {
        (127, 127, 127)
    } else if index == 9 {
        (255, 0, 0)
    } else if index == 10 {
        (0, 255, 0)
    } else if index == 11 {
        (255, 255, 0)
    } else if index == 12 {
        (92, 92, 255)
    } else if index == 13 {
        (255, 0, 255)
    } else if index == 14 {
        (0, 255, 255)
    } else {
        (255, 255, 255)
    }
}

/// The intensity of step `level` (0..6) of the color cube.
pub open spec fn cube_level(level: int) -> int {
    if level == 0 {
        0
    } else {
        55 + 40 * level
    }
}

/// The RGB value of entry `index` of the xterm 256-color palette: the sixteen
/// system colors, then a 6x6x6 color cube, then 24 shades of gray. Indexes
/// past the palette give black.
pub open spec fn palette_256(index: int) -> (int, int, int) {
    if index < 16 {
        system_color(index)
    } else if index < 232 {
        let i = index - 16;
        (cube_level(i / 36), cube_level((i / 6) % 6), cube_level(i % 6))
    } else if index < 256 {
        let v = 8 + 10 * (index - 232);
        (v, v, v)
    } else {
        (0, 0, 0)
    }
}

fn cube_level_exec(level: usize) -> (r: usize)
    requires
        level < 6,
    ensures
        r == cube_level(level as int),
        r <= 255,
{
    if level == 0 {
        0
    } else {
        55 + 40 * level
    }
}

/// Looks up the RGB value of an entry of the 256-color palette.
pub fn lookup_256_color_by_index(index: usize) -> (rgb: (usize, usize, usize))
    ensures
        (rgb.0 as int, rgb.1 as int, rgb.2 as int) == palette_256(index as int),
        rgb.0 <= 255 && rgb.1 <= 255 && rgb.2 <= 255,
{
    if index < 16 {
        let table: [(usize, usize, usize); 16] = [
            (0, 0, 0),
            (205, 0, 0),
            (0, 205, 0),
            (205, 205, 0),
            (0, 0, 238),
            (205, 0, 205),
            (0, 205, 205),
            (229, 229, 229),
            (127, 127, 127),
            (255, 0, 0),
            (0, 255, 0),
            (255, 255, 0),
            (92, 92, 255),
            (255, 0, 255),
            (0, 255, 255),
            (255, 255, 255),
        ];
        let rgb = table[index];
        assert(table@ == seq![
            (0usize, 0usize, 0usize),
            (205usize, 0usize, 0usize),
            (0usize, 205usize, 0usize),
            (205usize, 205usize, 0usize),
            (0usize, 0usize, 238usize),
            (205usize, 0usize, 205usize),
            (0usize, 205usize, 205usize),
            (229usize, 229usize, 229usize),
            (127usize, 127usize, 127usize),
            (255usize, 0usize, 0usize),
            (0usize, 255usize, 0usize),
            (255usize, 255usize, 0usize),
            (92usize, 92usize, 255usize),
            (255usize, 0usize, 255usize),
            (0usize, 255usize, 255usize),
            (255usize, 255usize, 255usize),
        ]);
        rgb
    } else if index < 232 {
        let i = index - 16;
        (cube_level_exec(i / 36), cube_level_exec((i / 6) % 6), cube_level_exec(i % 6))
    } else if index < 256 {
        let v = 8 + 10 * (index - 232);
        (v, v, v)
    } else {
        (0, 0, 0)
    }
}

/// A color as `{:?}` writes it: its name, or `Custom(r, g, b)`.
pub open spec fn color_text(c: TerminalColor) -> Seq<char> {
    match c {
        TerminalColor::Default => "Default"@,
        TerminalColor::DefaultBackground => "DefaultBackground"@,
        TerminalColor::DefaultUnderlineColor => "DefaultUnderlineColor"@,
        TerminalColor::DefaultCursorColor => "DefaultCursorColor"@,
        TerminalColor::Black => "Black"@,
        TerminalColor::Red => "Red"@,
        TerminalColor::Green => "Green"@,
        TerminalColor::Yellow => "Yellow"@,
        TerminalColor::Blue => "Blue"@,
        TerminalColor::Magenta => "Magenta"@,
        TerminalColor::Cyan => "Cyan"@,
        TerminalColor::White => "White"@,
        TerminalColor::BrightBlack => "BrightBlack"@,
        TerminalColor::BrightRed => "BrightRed"@,
        TerminalColor::BrightGreen => "BrightGreen"@,
        TerminalColor::BrightYellow => "BrightYellow"@,
        TerminalColor::BrightBlue => "BrightBlue"@,
        TerminalColor::BrightMagenta => "BrightMagenta"@,
        TerminalColor::BrightCyan => "BrightCyan"@,
        TerminalColor::BrightWhite => "BrightWhite"@,
        TerminalColor::Custom(r, g, b) => "Custom("@ + decimal_text(r as nat) + ", "@ + decimal_text(
            g as nat,
        ) + ", "@ + decimal_text(b as nat) + ")"@,
    }
}

/// Appends a color as `{:?}` writes it (see [`color_text`]).
pub fn append_color(s: &mut String, c: TerminalColor)
    ensures
        final(s)@ == old(s)@ + color_text(c),
{
    match c {
        TerminalColor::Default => s.append("Default"),
        TerminalColor::DefaultBackground => s.append("DefaultBackground"),
        TerminalColor::DefaultUnderlineColor => s.append("DefaultUnderlineColor"),
        TerminalColor::DefaultCursorColor => s.append("DefaultCursorColor"),
        TerminalColor::Black => s.append("Black"),
        TerminalColor::Red => s.append("Red"),
        TerminalColor::Green => s.append("Green"),
        TerminalColor::Yellow => s.append("Yellow"),
        TerminalColor::Blue => s.append("Blue"),
        TerminalColor::Magenta => s.append("Magenta"),
        TerminalColor::Cyan => s.append("Cyan"),
        TerminalColor::White => s.append("White"),
        TerminalColor::BrightBlack => s.append("BrightBlack"),
        TerminalColor::BrightRed => s.append("BrightRed"),
        TerminalColor::BrightGreen => s.append("BrightGreen"),
        TerminalColor::BrightYellow => s.append("BrightYellow"),
        TerminalColor::BrightBlue => s.append("BrightBlue"),
        TerminalColor::BrightMagenta => s.append("BrightMagenta"),
        TerminalColor::BrightCyan => s.append("BrightCyan"),
        TerminalColor::BrightWhite => s.append("BrightWhite"),
        TerminalColor::Custom(r, g, b) => {
            s.append("Custom(");
            append_decimal(s, r as u64);
            s.append(", ");
            append_decimal(s, g as u64);
            s.append(", ");
            append_decimal(s, b as u64);
            s.append(")");
            assert(final(s)@ =~= old(s)@ + color_text(c));
        },
    }
}

/// A color ready to draw: one of the two default colors of the view, or an
/// RGB value.
#[derive(Clone, Copy, Debug, PartialEq, Eq, Structural)]
pub enum ResolvedColor {
    DefaultForeground,
    DefaultBackground,
    Rgb(u8, u8, u8),
}

/// The color that a terminal color is drawn with, in the Wez color scheme;
/// the default colors are left to the view.
pub open spec fn resolved(color: TerminalColor) -> ResolvedColor {
    match color {
        TerminalColor::Default => ResolvedColor::DefaultForeground,
        TerminalColor::DefaultUnderlineColor => ResolvedColor::DefaultForeground,
        TerminalColor::DefaultCursorColor => ResolvedColor::DefaultForeground,
        TerminalColor::DefaultBackground => ResolvedColor::DefaultBackground,
        TerminalColor::Black => ResolvedColor::Rgb(0x00, 0x00, 0x00),
        TerminalColor::Red => ResolvedColor::Rgb(0xcc, 0x55, 0x55),
        TerminalColor::Green => ResolvedColor::Rgb(0x55, 0xcc, 0x55),
        TerminalColor::Yellow => ResolvedColor::Rgb(0xcd, 0xcd, 0x55),
        TerminalColor::Blue => ResolvedColor::Rgb(0x55, 0x55, 0xcc),
        TerminalColor::Magenta => ResolvedColor::Rgb(0xcc, 0x55, 0xcc),
        TerminalColor::Cyan => ResolvedColor::Rgb(0x7a, 0xca, 0xca),
        TerminalColor::White => ResolvedColor::Rgb(0xb3, 0xb3, 0xb3),
        TerminalColor::BrightBlack => ResolvedColor::Rgb(0x55, 0x55, 0x55),
        TerminalColor::BrightRed => ResolvedColor::Rgb(0xff, 0x55, 0x55),
        TerminalColor::BrightGreen => ResolvedColor::Rgb(0x55, 0xff, 0x55),
        TerminalColor::BrightYellow => ResolvedColor::Rgb(0xff, 0xff, 0x55),
        TerminalColor::BrightBlue => ResolvedColor::Rgb(0x55, 0x55, 0xff),
        TerminalColor::BrightMagenta => ResolvedColor::Rgb(0xff, 0x55, 0xff),
        TerminalColor::BrightCyan => ResolvedColor::Rgb(0x55, 0xff, 0xff),
        TerminalColor::BrightWhite => ResolvedColor::Rgb(0xff, 0xff, 0xff),
        TerminalColor::Custom(r, g, b) => ResolvedColor::Rgb(r, g, b),
    }
}

/// The color that a terminal color is drawn with (see [`resolved`]).
pub fn resolve_color(color: TerminalColor) -> (r: ResolvedColor)
    ensures
        r == resolved(color),
{
    match color {
        TerminalColor::Default | TerminalColor::DefaultUnderlineColor
        | TerminalColor::DefaultCursorColor => ResolvedColor::DefaultForeground,
        TerminalColor::DefaultBackground => ResolvedColor::DefaultBackground,
        TerminalColor::Black => ResolvedColor::Rgb(0x00, 0x00, 0x00),
        TerminalColor::Red => ResolvedColor::Rgb(0xcc, 0x55, 0x55),
        TerminalColor::Green => ResolvedColor::Rgb(0x55, 0xcc, 0x55),
        TerminalColor::Yellow => ResolvedColor::Rgb(0xcd, 0xcd, 0x55),
        TerminalColor::Blue => ResolvedColor::Rgb(0x55, 0x55, 0xcc),
        TerminalColor::Magenta => ResolvedColor::Rgb(0xcc, 0x55, 0xcc),
        TerminalColor::Cyan => ResolvedColor::Rgb(0x7a, 0xca, 0xca),
        TerminalColor::White => ResolvedColor::Rgb(0xb3, 0xb3, 0xb3),
        TerminalColor::BrightBlack => ResolvedColor::Rgb(0x55, 0x55, 0x55),
        TerminalColor::BrightRed => ResolvedColor::Rgb(0xff, 0x55, 0x55),
        TerminalColor::BrightGreen => ResolvedColor::Rgb(0x55, 0xff, 0x55),
        TerminalColor::BrightYellow => ResolvedColor::Rgb(0xff, 0xff, 0x55),
        TerminalColor::BrightBlue => ResolvedColor::Rgb(0x55, 0x55, 0xff),
        TerminalColor::BrightMagenta => ResolvedColor::Rgb(0xff, 0x55, 0xff),
        TerminalColor::BrightCyan => ResolvedColor::Rgb(0x55, 0xff, 0xff),
        TerminalColor::BrightWhite => ResolvedColor::Rgb(0xff, 0xff, 0xff),
        TerminalColor::Custom(r, g, b) => ResolvedColor::Rgb(r, g, b),
    }
}

} // verus!
