use vstd::prelude::*;

use crate::colors::{append_color, color_text, TerminalColor};
use crate::text::{append_decimal, decimal_text};

verus! {

/// A Select Graphic Rendition attribute (ECMA-48 8.3.117).
#[derive(Clone, Copy, Debug, PartialEq, Eq, Structural)]
pub enum SelectGraphicRendition {
    Reset,
    Bold,
    Italic,
    Underline,
    Faint,
    SlowBlink,
    FastBlink,
    ReverseVideo,
    ResetReverseVideo,
    ResetBold,
    NormalIntensity,
    NotUnderlined,
    NotItalic,
    Strikethrough,
    NotStrikethrough,
    Foreground(TerminalColor),
    Background(TerminalColor),
    UnderlineColor(TerminalColor),
    Unknown(usize),
}

/// The attribute that a single SGR code selects.
pub open spec fn sgr_of_code(val: usize) -> SelectGraphicRendition {
    match val {
        0 => SelectGraphicRendition::Reset,
        1 => SelectGraphicRendition::Bold,
        2 => SelectGraphicRendition::Faint,
        3 => SelectGraphicRendition::Italic,
        4 => SelectGraphicRendition::Underline,
        5 => SelectGraphicRendition::SlowBlink,
        6 => SelectGraphicRendition::FastBlink,
        7 => SelectGraphicRendition::ReverseVideo,
        21 => SelectGraphicRendition::ResetBold,
        22 => SelectGraphicRendition::NormalIntensity,
        24 => SelectGraphicRendition::NotUnderlined,
        27 => SelectGraphicRendition::ResetReverseVideo,
        30 | 39 => SelectGraphicRendition::Foreground(TerminalColor::Black),
        31 => SelectGraphicRendition::Foreground(TerminalColor::Red),
        32 => SelectGraphicRendition::Foreground(TerminalColor::Green),
        33 => SelectGraphicRendition::Foreground(TerminalColor::Yellow),
        34 => SelectGraphicRendition::Foreground(TerminalColor::Blue),
        35 => SelectGraphicRendition::Foreground(TerminalColor::Magenta),
        36 => SelectGraphicRendition::Foreground(TerminalColor::Cyan),
        37 => SelectGraphicRendition::Foreground(TerminalColor::White),
        38 => SelectGraphicRendition::Foreground(TerminalColor::Black),
        40 => SelectGraphicRendition::Background(TerminalColor::Black),
        41 => SelectGraphicRendition::Background(TerminalColor::Red),
        42 => SelectGraphicRendition::Background(TerminalColor::Green),
        43 => SelectGraphicRendition::Background(TerminalColor::Yellow),
        44 => SelectGraphicRendition::Background(TerminalColor::Blue),
        45 => SelectGraphicRendition::Background(TerminalColor::Magenta),
        46 => SelectGraphicRendition::Background(TerminalColor::Cyan),
        47 => SelectGraphicRendition::Background(TerminalColor::White),
        48 | 49 => SelectGraphicRendition::Background(TerminalColor::DefaultBackground),
        90 => SelectGraphicRendition::Foreground(TerminalColor::BrightBlack),
        91 => SelectGraphicRendition::Foreground(TerminalColor::BrightRed),
        92 => SelectGraphicRendition::Foreground(TerminalColor::BrightGreen),
        93 => SelectGraphicRendition::Foreground(TerminalColor::BrightYellow),
        94 => SelectGraphicRendition::Foreground(TerminalColor::BrightBlue),
        95 => SelectGraphicRendition::Foreground(TerminalColor::BrightMagenta),
        96 => SelectGraphicRendition::Foreground(TerminalColor::BrightCyan),
        97 => SelectGraphicRendition::Foreground(TerminalColor::BrightWhite),
        100 => SelectGraphicRendition::Background(TerminalColor::BrightBlack),
        101 => SelectGraphicRendition::Background(TerminalColor::BrightRed),
        102 => SelectGraphicRendition::Background(TerminalColor::BrightGreen),
        103 => SelectGraphicRendition::Background(TerminalColor::BrightYellow),
        104 => SelectGraphicRendition::Background(TerminalColor::BrightBlue),
        105 => SelectGraphicRendition::Background(TerminalColor::BrightMagenta),
        106 => SelectGraphicRendition::Background(TerminalColor::BrightCyan),
        107 => SelectGraphicRendition::Background(TerminalColor::BrightWhite),
        _ => SelectGraphicRendition::Unknown(val),
    }
}

/// The attribute that an extended color code selects with an RGB color:
/// codes 38 and 48 set the foreground and the background; any other code is
/// unknown.
pub open spec fn sgr_of_color(val: usize, r: u8, g: u8, b: u8) -> SelectGraphicRendition {
    if val == 38 {
        SelectGraphicRendition::Foreground(TerminalColor::Custom(r, g, b))
    } else if val == 48 {
        SelectGraphicRendition::Background(TerminalColor::Custom(r, g, b))
    } else {
        SelectGraphicRendition::Unknown(val)
    }
}

impl SelectGraphicRendition {
    /// The attribute that a single SGR code selects.
    pub fn from_usize(val: usize) -> (r: Self)
        ensures
            r == sgr_of_code(val),
    {
        match val {
            0 => Self::Reset,
            1 => Self::Bold,
            2 => Self::Faint,
            3 => Self::Italic,
            4 => Self::Underline,
            5 => Self::SlowBlink,
            6 => Self::FastBlink,
            7 => Self::ReverseVideo,
            21 => Self::ResetBold,
            22 => Self::NormalIntensity,
            24 => Self::NotUnderlined,
            27 => Self::ResetReverseVideo,
            30 | 39 => Self::Foreground(TerminalColor::Black),
            31 => Self::Foreground(TerminalColor::Red),
            32 => Self::Foreground(TerminalColor::Green),
            33 => Self::Foreground(TerminalColor::Yellow),
            34 => Self::Foreground(TerminalColor::Blue),
            35 => Self::Foreground(TerminalColor::Magenta),
            36 => Self::Foreground(TerminalColor::Cyan),
            37 => Self::Foreground(TerminalColor::White),
            38 => Self::Foreground(TerminalColor::Black),
            40 => Self::Background(TerminalColor::Black),
            41 => Self::Background(TerminalColor::Red),
            42 => Self::Background(TerminalColor::Green),
            43 => Self::Background(TerminalColor::Yellow),
            44 => Self::Background(TerminalColor::Blue),
            45 => Self::Background(TerminalColor::Magenta),
            46 => Self::Background(TerminalColor::Cyan),
            47 => Self::Background(TerminalColor::White),
            48 | 49 => Self::Background(TerminalColor::DefaultBackground),
            90 => Self::Foreground(TerminalColor::BrightBlack),
            91 => Self::Foreground(TerminalColor::BrightRed),
            92 => Self::Foreground(TerminalColor::BrightGreen),
            93 => Self::Foreground(TerminalColor::BrightYellow),
            94 => Self::Foreground(TerminalColor::BrightBlue),
            95 => Self::Foreground(TerminalColor::BrightMagenta),
            96 => Self::Foreground(TerminalColor::BrightCyan),
            97 => Self::Foreground(TerminalColor::BrightWhite),
            100 => Self::Background(TerminalColor::BrightBlack),
            101 => Self::Background(TerminalColor::BrightRed),
            102 => Self::Background(TerminalColor::BrightGreen),
            103 => Self::Background(TerminalColor::BrightYellow),
            104 => Self::Background(TerminalColor::BrightBlue),
            105 => Self::Background(TerminalColor::BrightMagenta),
            106 => Self::Background(TerminalColor::BrightCyan),
            107 => Self::Background(TerminalColor::BrightWhite),
            _ => Self::Unknown(val),
        }
    }

    /// The attribute that an extended color code selects with an RGB color.
    /// The components must each fit in a byte.
    pub fn from_usize_color(val: usize, r: usize, g: usize, b: usize) -> (s: Self)
        requires
            r <= 255,
            g <= 255,
            b <= 255,
        ensures
            s == sgr_of_color(val, r as u8, g as u8, b as u8),
    {
        let r = r as u8;
        let g = g as u8;
        let b = b as u8;
        if val == 38 {
            Self::Foreground(TerminalColor::Custom(r, g, b))
        } else if val == 48 {
            Self::Background(TerminalColor::Custom(r, g, b))
        } else {
            Self::Unknown(val)
        }
    }
}

/// An attribute as `{:?}` writes it.
pub open spec fn sgr_text(s: SelectGraphicRendition) -> Seq<char> {
    match s {
        SelectGraphicRendition::Reset => "Reset"@,
        SelectGraphicRendition::Bold => "Bold"@,
        SelectGraphicRendition::Italic => "Italic"@,
        SelectGraphicRendition::Underline => "Underline"@,
        SelectGraphicRendition::Faint => "Faint"@,
        SelectGraphicRendition::SlowBlink => "SlowBlink"@,
        SelectGraphicRendition::FastBlink => "FastBlink"@,
        SelectGraphicRendition::ReverseVideo => "ReverseVideo"@,
        SelectGraphicRendition::ResetReverseVideo => "ResetReverseVideo"@,
        SelectGraphicRendition::ResetBold => "ResetBold"@,
        SelectGraphicRendition::NormalIntensity => "NormalIntensity"@,
        SelectGraphicRendition::NotUnderlined => "NotUnderlined"@,
        SelectGraphicRendition::NotItalic => "NotItalic"@,
        SelectGraphicRendition::Strikethrough => "Strikethrough"@,
        SelectGraphicRendition::NotStrikethrough => "NotStrikethrough"@,
        SelectGraphicRendition::Foreground(c) => "Foreground("@ + color_text(c) + ")"@,
        SelectGraphicRendition::Background(c) => "Background("@ + color_text(c) + ")"@,
        SelectGraphicRendition::UnderlineColor(c) => "UnderlineColor("@ + color_text(c) + ")"@,
        SelectGraphicRendition::Unknown(v) => "Unknown("@ + decimal_text(v as nat) + ")"@,
    }
}

/// Appends an attribute as `{:?}` writes it (see [`sgr_text`]).
pub fn append_sgr(s: &mut String, sgr: SelectGraphicRendition)
    ensures
        final(s)@ == old(s)@ + sgr_text(sgr),
{
    match sgr {
        SelectGraphicRendition::Reset => s.append("Reset"),
        SelectGraphicRendition::Bold => s.append("Bold"),
        SelectGraphicRendition::Italic => s.append("Italic"),
        SelectGraphicRendition::Underline => s.append("Underline"),
        SelectGraphicRendition::Faint => s.append("Faint"),
        SelectGraphicRendition::SlowBlink => s.append("SlowBlink"),
        SelectGraphicRendition::FastBlink => s.append("FastBlink"),
        SelectGraphicRendition::ReverseVideo => s.append("ReverseVideo"),
        SelectGraphicRendition::ResetReverseVideo => s.append("ResetReverseVideo"),
        SelectGraphicRendition::ResetBold => s.append("ResetBold"),
        SelectGraphicRendition::NormalIntensity => s.append("NormalIntensity"),
        SelectGraphicRendition::NotUnderlined => s.append("NotUnderlined"),
        SelectGraphicRendition::NotItalic => s.append("NotItalic"),
        SelectGraphicRendition::Strikethrough => s.append("Strikethrough"),
        SelectGraphicRendition::NotStrikethrough => s.append("NotStrikethrough"),
        SelectGraphicRendition::Foreground(c) => {
            s.append("Foreground(");
            append_color(s, c);
            s.append(")");
            assert(final(s)@ =~= old(s)@ + sgr_text(sgr));
        },
        SelectGraphicRendition::Background(c) => {
            s.append("Background(");
            append_color(s, c);
            s.append(")");
            assert(final(s)@ =~= old(s)@ + sgr_text(sgr));
        },
        SelectGraphicRendition::UnderlineColor(c) => {
            s.append("UnderlineColor(");
            append_color(s, c);
            s.append(")");
            assert(final(s)@ =~= old(s)@ + sgr_text(sgr));
        },
        SelectGraphicRendition::Unknown(v) => {
            s.append("Unknown(");
            append_decimal(s, v as u64);
            s.append(")");
            assert(final(s)@ =~= old(s)@ + sgr_text(sgr));
        },
    }
}

/// The eight ANSI colors in their order: black, red, green, yellow, blue,
/// magenta, cyan, white.
pub open spec fn ansi_color(i: int) -> TerminalColor {
    if i == 0 {
        TerminalColor::Black
    } else if i == 1 {
        TerminalColor::Red
    } else if i == 2 {
        TerminalColor::Green
    } else if i == 3 {
        TerminalColor::Yellow
    } else if i == 4 {
        TerminalColor::Blue
    } else if i == 5 {
        TerminalColor::Magenta
    } else if i == 6 {
        TerminalColor::Cyan
    } else {
        TerminalColor::White
    }
}

/// The bright versions of the eight ANSI colors, in the same order.
pub open spec fn bright_ansi_color(i: int) -> TerminalColor {
    if i == 0 {
        TerminalColor::BrightBlack
    } else if i == 1 {
        TerminalColor::BrightRed
    } else if i == 2 {
        TerminalColor::BrightGreen
    } else if i == 3 {
        TerminalColor::BrightYellow
    } else if i == 4 {
        TerminalColor::BrightBlue
    } else if i == 5 {
        TerminalColor::BrightMagenta
    } else if i == 6 {
        TerminalColor::BrightCyan
    } else {
        TerminalColor::BrightWhite
    }
}

/// The standard color codes select the ANSI color of their last digit:
/// 30 to 37 the foreground, 40 to 47 the background, 90 to 97 the bright
/// foreground and 100 to 107 the bright background. A background code
/// selects the same color as the foreground code ten below it, and the
/// eight colors of each range are all different.
pub proof fn lemma_standard_color_codes(n: usize)
    ensures
        30 <= n <= 37 ==> sgr_of_code(n) == SelectGraphicRendition::Foreground(ansi_color(n - 30)),
        40 <= n <= 47 ==> sgr_of_code(n) == SelectGraphicRendition::Background(ansi_color(n - 40)),
        90 <= n <= 97 ==> sgr_of_code(n) == SelectGraphicRendition::Foreground(
            bright_ansi_color(n - 90),
        ),
        100 <= n <= 107 ==> sgr_of_code(n) == SelectGraphicRendition::Background(
            bright_ansi_color(n - 100),
        ),
        (40 <= n <= 47 || 100 <= n <= 107) ==> (sgr_of_code((n - 10) as usize) matches SelectGraphicRendition::Foreground(
            f,
        ) && sgr_of_code(n) == SelectGraphicRendition::Background(f)),
        forall|i: int, j: int| 0 <= i < j < 8 ==> ansi_color(i) != ansi_color(j) && bright_ansi_color(i)
            != bright_ansi_color(j),
{
}

/// Whether an SGR code is one that the terminal knows: 0 to 7, 21, 22, 24,
/// 27, and the color codes 30 to 49, 90 to 97 and 100 to 107.
pub open spec fn known_sgr_code(n: usize) -> bool {
    n <= 7 || n == 21 || n == 22 || n == 24 || n == 27 || (30 <= n <= 49) || (90 <= n <= 97) || (100
        <= n <= 107)
}

/// The attribute codes of ECMA-48 that the terminal knows select their
/// attribute: 0 resets, 1 bold, 2 faint, 3 italic, 4 underline, 5 and 6
/// blink, 7 reverse video, 21 and 22 end bold and faint, 24 ends underline,
/// 27 ends reverse video; 39 and 49 select the default colors (39 as black,
/// 49 as the default background). Every code that the terminal does not
/// know is unknown, keeping its number, and no known code is.
pub proof fn lemma_attribute_codes(n: usize)
    ensures
        sgr_of_code(0) == SelectGraphicRendition::Reset,
        sgr_of_code(1) == SelectGraphicRendition::Bold,
        sgr_of_code(2) == SelectGraphicRendition::Faint,
        sgr_of_code(3) == SelectGraphicRendition::Italic,
        sgr_of_code(4) == SelectGraphicRendition::Underline,
        sgr_of_code(5) == SelectGraphicRendition::SlowBlink,
        sgr_of_code(6) == SelectGraphicRendition::FastBlink,
        sgr_of_code(7) == SelectGraphicRendition::ReverseVideo,
        sgr_of_code(21) == SelectGraphicRendition::ResetBold,
        sgr_of_code(22) == SelectGraphicRendition::NormalIntensity,
        sgr_of_code(24) == SelectGraphicRendition::NotUnderlined,
        sgr_of_code(27) == SelectGraphicRendition::ResetReverseVideo,
        sgr_of_code(39) == SelectGraphicRendition::Foreground(TerminalColor::Black),
        sgr_of_code(49) == SelectGraphicRendition::Background(TerminalColor::DefaultBackground),
        !known_sgr_code(n) <==> sgr_of_code(n) == SelectGraphicRendition::Unknown(n),
{
}

} // verus!
