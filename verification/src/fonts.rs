use vstd::prelude::*;

verus! {

/// The weight of a font.
#[derive(Clone, Copy, Debug, PartialEq, Eq, Structural)]
pub enum FontWeight {
    Normal,
    Bold,
}

impl Default for FontWeight {
    fn default() -> (r: Self)
        ensures
            r == FontWeight::Normal,
    {
        FontWeight::Normal
    }
}

/// A decoration that can be drawn on top of the glyphs of a font.
#[derive(Clone, Copy, Debug, PartialEq, Eq, Structural)]
pub enum FontDecorations {
    Italic,
    Underline,
    DoubleUnderline,
    Faint,
    Strikethrough,
}

/// The font family names of the four faces of the terminal font.
pub open spec fn regular_font_name() -> Seq<char> {
    "hack"@
}

pub open spec fn bold_font_name() -> Seq<char> {
    "hack-bold"@
}

pub open spec fn italic_font_name() -> Seq<char> {
    "hack-italic"@
}

pub open spec fn bold_italic_font_name() -> Seq<char> {
    "hack-bold-italic"@
}

/// The face that text of a weight, italic or not, is drawn with.
pub open spec fn family_for(italic: bool, weight: FontWeight) -> Seq<char> {
    match (weight, italic) {
        (FontWeight::Bold, false) => bold_font_name(),
        (FontWeight::Normal, false) => regular_font_name(),
        (FontWeight::Normal, true) => italic_font_name(),
        (FontWeight::Bold, true) => bold_italic_font_name(),
    }
}

/// The font family names of the terminal's faces.
pub struct TerminalFont {
    regular: String,
    bold: String,
    italic: String,
    bold_italic: String,
}

impl TerminalFont {
    /// The faces of the bundled terminal font.
    pub fn new() -> (r: Self)
        ensures
            r.wf(),
    {
        TerminalFont {
            regular: String::from_str("hack"),
            bold: String::from_str("hack-bold"),
            italic: String::from_str("hack-italic"),
            bold_italic: String::from_str("hack-bold-italic"),
        }
    }

    /// Whether the faces are those of the bundled font.
    pub closed spec fn wf(&self) -> bool {
        &&& self.regular@ == regular_font_name()
        &&& self.bold@ == bold_font_name()
        &&& self.italic@ == italic_font_name()
        &&& self.bold_italic@ == bold_italic_font_name()
    }

    /// The family that text with these decorations and this weight is drawn
    /// with: only italics and boldness choose the face.
    pub fn get_family(&self, font_decs: &[FontDecorations], weight: &FontWeight) -> (r: String)
        requires
            self.wf(),
        ensures
            r@ == family_for(font_decs@.contains(FontDecorations::Italic), *weight),
    {
        let italic = has_decoration(font_decs, FontDecorations::Italic);
        match (weight, italic) {
            (FontWeight::Bold, false) => self.bold.clone(),
            (FontWeight::Normal, false) => self.regular.clone(),
            (FontWeight::Normal, true) => self.italic.clone(),
            (FontWeight::Bold, true) => self.bold_italic.clone(),
        }
    }
}

/// Whether `d` is among the decorations.
pub fn has_decoration(decs: &[FontDecorations], d: FontDecorations) -> (r: bool)
    ensures
        r == decs@.contains(d),
{
    let mut i: usize = 0;
    while i < decs.len()
        invariant
            i <= decs@.len(),
            forall|k: int| 0 <= k < i ==> decs@[k] != d,
        decreases decs@.len() - i,
    {
        if decs[i] == d {
            return true;
        }
        i += 1;
    }
    false
}

} // verus!
