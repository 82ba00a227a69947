use vstd::prelude::*;

use crate::colors::TerminalColor;
use crate::fonts::{FontDecorations, FontWeight};
use crate::mode::Decawm;

verus! {

/// A position on the visible screen: a column and a row, both counted from
/// zero.
#[derive(Clone, Copy, Debug, PartialEq, Eq, Structural)]
pub struct CursorPos {
    pub x: usize,
    pub y: usize,
}

impl Default for CursorPos {
    fn default() -> (r: Self)
        ensures
            r == (CursorPos { x: 0, y: 0 }),
    {
        CursorPos { x: 0, y: 0 }
    }
}

/// The cursor and the attributes that text written at it gets.
#[derive(Debug, Clone, PartialEq, Eq)]
pub struct CursorState {
    pub pos: CursorPos,
    pub font_weight: FontWeight,
    pub font_decorations: Vec<FontDecorations>,
    pub color: TerminalColor,
    pub background_color: TerminalColor,
    pub underline_color: TerminalColor,
    pub line_wrap_mode: Decawm,
}

/// The mathematical value of a [`CursorState`].
pub ghost struct CursorModel {
    pub pos: CursorPos,
    pub font_weight: FontWeight,
    pub font_decorations: Seq<FontDecorations>,
    pub color: TerminalColor,
    pub background_color: TerminalColor,
    pub underline_color: TerminalColor,
    pub line_wrap_mode: Decawm,
}

impl View for CursorState {
    type V = CursorModel;

    open spec fn view(&self) -> CursorModel {
        CursorModel {
            pos: self.pos,
            font_weight: self.font_weight,
            font_decorations: self.font_decorations@,
            color: self.color,
            background_color: self.background_color,
            underline_color: self.underline_color,
            line_wrap_mode: self.line_wrap_mode,
        }
    }
}

impl Default for CursorState {
    fn default() -> (r: Self)
        ensures
            r.pos == (CursorPos { x: 0, y: 0 }),
            r.font_weight == FontWeight::Normal,
            r.font_decorations@ == Seq::<FontDecorations>::empty(),
            r.color == TerminalColor::Default,
            r.background_color == TerminalColor::DefaultBackground,
            r.underline_color == TerminalColor::DefaultUnderlineColor,
            r.line_wrap_mode == Decawm::NoAutoWrap,
    {
        CursorState {
            pos: CursorPos::default(),
            font_weight: FontWeight::default(),
            font_decorations: Vec::new(),
            color: TerminalColor::Default,
            background_color: TerminalColor::DefaultBackground,
            underline_color: TerminalColor::DefaultUnderlineColor,
            line_wrap_mode: Decawm::default(),
        }
    }
}

impl CursorState {
    /// The same state with another background color.
    pub fn with_background_color(self, background_color: TerminalColor) -> (r: Self)
        ensures
            r == (CursorState { background_color, ..self }),
    {
        let mut s = self;
        s.background_color = background_color;
        s
    }

    /// The same state with another foreground color.
    pub fn with_color(self, color: TerminalColor) -> (r: Self)
        ensures
            r == (CursorState { color, ..self }),
    {
        let mut s = self;
        s.color = color;
        s
    }

    /// The same state with another font weight.
    pub fn with_font_weight(self, font_weight: FontWeight) -> (r: Self)
        ensures
            r == (CursorState { font_weight, ..self }),
    {
        let mut s = self;
        s.font_weight = font_weight;
        s
    }

    /// The same state with other font decorations.
    pub fn with_font_decorations(self, font_decorations: Vec<FontDecorations>) -> (r: Self)
        ensures
            r == (CursorState { font_decorations, ..self }),
    {
        let mut s = self;
        s.font_decorations = font_decorations;
        s
    }

    /// The same state at another position.
    pub fn with_pos(self, pos: CursorPos) -> (r: Self)
        ensures
            r == (CursorState { pos, ..self }),
    {
        let mut s = self;
        s.pos = pos;
        s
    }
}

} // verus!
