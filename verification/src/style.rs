//! Terminal colours and text styles.

use vstd::prelude::*;

verus! {

/// A terminal colour: one of the sixteen named colours, a 256-colour
/// palette index, a true colour, or the terminal's own default.
#[derive(Debug, Clone, Copy, PartialEq, Eq, Hash, Structural)]
pub enum Color {
    Reset,
    Black,
    Red,
    Green,
    Yellow,
    Blue,
    Magenta,
    Cyan,
    Gray,
    DarkGray,
    LightRed,
    LightGreen,
    LightYellow,
    LightBlue,
    LightMagenta,
    LightCyan,
    White,
    Rgb(u8, u8, u8),
    Indexed(u8),
}

/// The text attributes a style can switch on.
#[derive(Debug, Clone, Copy, PartialEq, Eq, Hash, Default, Structural)]
pub struct Modifiers {
    pub bold: bool,
    pub dim: bool,
    pub italic: bool,
    pub underlined: bool,
    pub reversed: bool,
    pub crossed_out: bool,
}

impl Modifiers {
    pub open spec fn spec_empty() -> Modifiers {
        Modifiers { bold: false, dim: false, italic: false, underlined: false, reversed: false, crossed_out: false }
    }

    pub fn empty() -> (r: Modifiers)
        ensures
            r == Modifiers::spec_empty(),
    {
        Modifiers { bold: false, dim: false, italic: false, underlined: false, reversed: false, crossed_out: false }
    }
}

/// A text style: foreground and background colours, each unset unless
/// given, and the attributes switched on.
#[derive(Debug, Clone, Copy, PartialEq, Eq, Hash, Structural)]
pub struct Style {
    pub fg: Option<Color>,
    pub bg: Option<Color>,
    pub modifiers: Modifiers,
}

impl Style {
    /// No colours and no attributes.
    pub open spec fn spec_default() -> Style {
        Style { fg: None, bg: None, modifiers: Modifiers::spec_empty() }
    }

    pub fn plain() -> (r: Style)
        ensures
            r == Style::spec_default(),
    {
        Style { fg: None, bg: None, modifiers: Modifiers::empty() }
    }
}

} // verus!
