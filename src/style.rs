//! Colors and text attributes, rendered as escape sequences.

use vstd::prelude::*;
use crate::codes::{
    decimal, push_decimal, BLINK, BOLD, CSI, DIM, ITALIC, RESET, STRIKE, UNDERLINE,
};

verus! {

/// A terminal color: the default color, one of the sixteen named colors, an
/// index into the 256-color palette, or a true RGB color.
#[derive(Clone, Copy, Debug, PartialEq, Eq, Structural)]
pub enum Color {
    Default,
    Black,
    Red,
    Green,
    Yellow,
    Blue,
    Magenta,
    Cyan,
    White,
    BrightBlack,
    BrightRed,
    BrightGreen,
    BrightYellow,
    BrightBlue,
    BrightMagenta,
    BrightCyan,
    BrightWhite,
    Ansi(u8),
    True(u8, u8, u8),
}

impl Default for Color {
    fn default() -> (r: Color)
        ensures
            r == Color::Default,
    {
        Color::Default
    }
}

/// The SGR parameter that selects a non-indexed color as foreground; the
/// background parameter is ten more.
pub open spec fn named_code(c: Color) -> nat {
    match c {
        Color::Black => 30,
        Color::Red => 31,
        Color::Green => 32,
        Color::Yellow => 33,
        Color::Blue => 34,
        Color::Magenta => 35,
        Color::Cyan => 36,
        Color::White => 37,
        Color::BrightBlack => 90,
        Color::BrightRed => 91,
        Color::BrightGreen => 92,
        Color::BrightYellow => 93,
        Color::BrightBlue => 94,
        Color::BrightMagenta => 95,
        Color::BrightCyan => 96,
        Color::BrightWhite => 97,
        _ => 39,
    }
}

/// The escape sequence selecting `c`; `base` is 38 for the foreground and
/// 48 for the background.
pub open spec fn color_code(c: Color, base: nat) -> Seq<char> {
    match c {
        Color::Ansi(id) => CSI@ + decimal(base) + seq![';', '5', ';'] + decimal(id as nat) + seq!['m'],
        Color::True(r, g, b) => CSI@ + decimal(base) + seq![';', '2', ';'] + decimal(r as nat)
            + seq![';'] + decimal(g as nat) + seq![';'] + decimal(b as nat) + seq!['m'],
        _ => CSI@ + decimal((named_code(c) + base - 38) as nat) + seq!['m'],
    }
}

pub open spec fn fg_code(c: Color) -> Seq<char> {
    color_code(c, 38)
}

pub open spec fn bg_code(c: Color) -> Seq<char> {
    color_code(c, 48)
}

impl Color {
    fn named_number(&self) -> (r: u32)
        ensures
            r == named_code(*self),
    {
        match self {
            Color::Black => 30,
            Color::Red => 31,
            Color::Green => 32,
            Color::Yellow => 33,
            Color::Blue => 34,
            Color::Magenta => 35,
            Color::Cyan => 36,
            Color::White => 37,
            Color::BrightBlack => 90,
            Color::BrightRed => 91,
            Color::BrightGreen => 92,
            Color::BrightYellow => 93,
            Color::BrightBlue => 94,
            Color::BrightMagenta => 95,
            Color::BrightCyan => 96,
            Color::BrightWhite => 97,
            _ => 39,
        }
    }

    fn code_with_base(&self, base: u32) -> (r: String)
        requires
            base == 38 || base == 48,
        ensures
            r@ == color_code(*self, base as nat),
    {
        proof {
            reveal_strlit(";5;");
            reveal_strlit(";2;");
            reveal_strlit(";");
            reveal_strlit("m");
        }
        let mut s = String::from_str(CSI);
        match self {
            Color::Ansi(id) => {
                push_decimal(&mut s, base);
                s.append(";5;");
                push_decimal(&mut s, *id as u32);
            },
            Color::True(r, g, b) => {
                push_decimal(&mut s, base);
                s.append(";2;");
                push_decimal(&mut s, *r as u32);
                s.append(";");
                push_decimal(&mut s, *g as u32);
                s.append(";");
                push_decimal(&mut s, *b as u32);
            },
            _ => {
                push_decimal(&mut s, self.named_number() + base - 38);
            },
        }
        s.append("m");
        assert(s@ =~= color_code(*self, base as nat));
        s
    }

    /// The escape sequence that makes this the foreground color.
    pub fn as_string_fg(&self) -> (r: String)
        ensures
            r@ == fg_code(*self),
    {
        self.code_with_base(38)
    }

    /// The escape sequence that makes this the background color.
    pub fn as_string_bg(&self) -> (r: String)
        ensures
            r@ == bg_code(*self),
    {
        self.code_with_base(48)
    }
}

/// Optional foreground and background colors and six text attributes.
#[derive(Clone, Copy, Debug, PartialEq, Eq, Structural)]
pub struct Style {
    pub fg: Option<Color>,
    pub bg: Option<Color>,
    pub bold: bool,
    pub dim: bool,
    pub italic: bool,
    pub underline: bool,
    pub blink: bool,
    pub strike: bool,
}

pub open spec fn flag_code(on: bool, code: &str) -> Seq<char> {
    if on { code@ } else { Seq::empty() }
}

pub open spec fn opt_code(c: Option<Color>, base: nat) -> Seq<char> {
    match c {
        Some(c) => color_code(c, base),
        None => Seq::empty(),
    }
}

/// The escape sequence applying `s`: a full reset, then the colors that are
/// set, then the active attributes in a fixed order.
pub open spec fn style_code(s: Style) -> Seq<char> {
    RESET@ + opt_code(s.fg, 38) + opt_code(s.bg, 48) + flag_code(s.bold, BOLD)
        + flag_code(s.dim, DIM) + flag_code(s.italic, ITALIC) + flag_code(s.underline, UNDERLINE)
        + flag_code(s.blink, BLINK) + flag_code(s.strike, STRIKE)
}

/// The style with both colors set to the terminal default and no attribute.
pub open spec fn plain_style() -> Style {
    Style {
        fg: Some(Color::Default),
        bg: Some(Color::Default),
        bold: false,
        dim: false,
        italic: false,
        underline: false,
        blink: false,
        strike: false,
    }
}

impl Style {
    pub fn new() -> (r: Style)
        ensures
            r == plain_style(),
    {
        Style {
            fg: Some(Color::Default),
            bg: Some(Color::Default),
            bold: false,
            dim: false,
            italic: false,
            underline: false,
            blink: false,
            strike: false,
        }
    }

    pub fn fg(self, fg: Color) -> (r: Style)
        ensures
            r == (Style { fg: Some(fg), ..self }),
    {
        Style { fg: Some(fg), ..self }
    }

    pub fn bg(self, bg: Color) -> (r: Style)
        ensures
            r == (Style { bg: Some(bg), ..self }),
    {
        Style { bg: Some(bg), ..self }
    }

    pub fn bold(self) -> (r: Style)
        ensures
            r == (Style { bold: true, ..self }),
    {
        Style { bold: true, ..self }
    }

    pub fn dim(self) -> (r: Style)
        ensures
            r == (Style { dim: true, ..self }),
    {
        Style { dim: true, ..self }
    }

    pub fn italic(self) -> (r: Style)
        ensures
            r == (Style { italic: true, ..self }),
    {
        Style { italic: true, ..self }
    }

    pub fn underline(self) -> (r: Style)
        ensures
            r == (Style { underline: true, ..self }),
    {
        Style { underline: true, ..self }
    }

    pub fn blink(self) -> (r: Style)
        ensures
            r == (Style { blink: true, ..self }),
    {
        Style { blink: true, ..self }
    }

    pub fn strike(self) -> (r: Style)
        ensures
            r == (Style { strike: true, ..self }),
    {
        Style { strike: true, ..self }
    }

    /// A copy of this style with the foreground set to `fg`.
    pub fn with_fg(&self, fg: Color) -> (r: Style)
        ensures
            r == (Style { fg: Some(fg), ..*self }),
    {
        self.fg(fg)
    }

    /// A copy of this style with the background set to `bg`.
    pub fn with_bg(&self, bg: Color) -> (r: Style)
        ensures
            r == (Style { bg: Some(bg), ..*self }),
    {
        self.bg(bg)
    }

    /// The escape sequence that applies this style from any prior state.
    pub fn as_string(&self) -> (r: String)
        ensures
            r@ == style_code(*self),
    {
        let mut s = String::from_str(RESET);
        if let Some(fg) = &self.fg {
            s.append(fg.as_string_fg().as_str());
        }
        if let Some(bg) = &self.bg {
            s.append(bg.as_string_bg().as_str());
        }
        if self.bold {
            s.append(BOLD);
        }
        if self.dim {
            s.append(DIM);
        }
        if self.italic {
            s.append(ITALIC);
        }
        if self.underline {
            s.append(UNDERLINE);
        }
        if self.blink {
            s.append(BLINK);
        }
        if self.strike {
            s.append(STRIKE);
        }
        assert(s@ =~= style_code(*self));
        s
    }
}

/// Applying any style starts with a full reset, so nothing set by an earlier
/// style carries over into text drawn after it.
pub proof fn lemma_style_starts_with_reset(s: Style)
    ensures
        style_code(s).len() >= RESET@.len(),
        style_code(s).subrange(0, RESET@.len() as int) == RESET@,
{
    assert(style_code(s).subrange(0, RESET@.len() as int) =~= RESET@);
}

} // verus!
