//! Colors, modifiers, underline styles and the composed `Style` value.
use vstd::prelude::*;

verus! {

/// A terminal color: one of the sixteen named ANSI colors, an RGB triple,
/// a palette index, or the terminal's own default.
#[derive(Clone, Copy, Debug, PartialEq, Eq, Structural)]
pub enum Color {
    Reset,
    Black,
    Red,
    Green,
    Yellow,
    Blue,
    Magenta,
    Cyan,
    Gray,
    LightRed,
    LightGreen,
    LightYellow,
    LightBlue,
    LightMagenta,
    LightCyan,
    LightGray,
    White,
    Rgb(u8, u8, u8),
    Indexed(u8),
}

/// The shape of an underline.
#[derive(Clone, Copy, Debug, PartialEq, Eq, Structural)]
pub enum UnderlineStyle {
    Reset,
    Line,
    Curl,
    Dotted,
    Dashed,
    DoubleLine,
}

/// One text attribute flag.
#[derive(Clone, Copy, Debug, PartialEq, Eq, Structural)]
pub enum Modifier {
    Bold,
    Dim,
    Italic,
    SlowBlink,
    RapidBlink,
    Reversed,
    Hidden,
    CrossedOut,
}

impl Modifier {
    /// The bit that stands for this flag in a modifier set.
    pub open spec fn spec_bits(self) -> u16 {
        match self {
            Modifier::Bold => 0x1,
            Modifier::Dim => 0x2,
            Modifier::Italic => 0x4,
            Modifier::SlowBlink => 0x10,
            Modifier::RapidBlink => 0x20,
            Modifier::Reversed => 0x40,
            Modifier::Hidden => 0x80,
            Modifier::CrossedOut => 0x100,
        }
    }

    #[verifier::when_used_as_spec(spec_bits)]
    pub fn bits(self) -> (r: u16)
        ensures
            r == self.spec_bits(),
    {
        match self {
            Modifier::Bold => 0x1,
            Modifier::Dim => 0x2,
            Modifier::Italic => 0x4,
            Modifier::SlowBlink => 0x10,
            Modifier::RapidBlink => 0x20,
            Modifier::Reversed => 0x40,
            Modifier::Hidden => 0x80,
            Modifier::CrossedOut => 0x100,
        }
    }
}

/// A composed style. Every field is optional: a style is applied on top of
/// another by patching, which overwrites only what the patch sets.
/// `add_modifier` and `sub_modifier` are sets of modifier bits.
#[derive(Clone, Copy, Debug, PartialEq, Eq, Structural)]
pub struct Style {
    pub fg: Option<Color>,
    pub bg: Option<Color>,
    pub underline_color: Option<Color>,
    pub underline_style: Option<UnderlineStyle>,
    pub add_modifier: u16,
    pub sub_modifier: u16,
}

/// The style that sets nothing.
pub open spec fn empty_style() -> Style {
    Style {
        fg: None,
        bg: None,
        underline_color: None,
        underline_style: None,
        add_modifier: 0,
        sub_modifier: 0,
    }
}

impl Default for Style {
    fn default() -> (r: Style)
        ensures
            r == empty_style(),
    {
        Style {
            fg: None,
            bg: None,
            underline_color: None,
            underline_style: None,
            add_modifier: 0,
            sub_modifier: 0,
        }
    }
}

impl Style {
    /// The style with its foreground set to `c`.
    pub fn fg(self, c: Color) -> (r: Style)
        ensures
            r == (Style { fg: Some(c), ..self }),
    {
        Style { fg: Some(c), ..self }
    }

    /// The style with its background set to `c`.
    pub fn bg(self, c: Color) -> (r: Style)
        ensures
            r == (Style { bg: Some(c), ..self }),
    {
        Style { bg: Some(c), ..self }
    }

    /// The style with its underline color set to `c`.
    pub fn underline_color(self, c: Color) -> (r: Style)
        ensures
            r == (Style { underline_color: Some(c), ..self }),
    {
        Style { underline_color: Some(c), ..self }
    }

    /// The style with its underline shape set to `u`.
    pub fn underline_style(self, u: UnderlineStyle) -> (r: Style)
        ensures
            r == (Style { underline_style: Some(u), ..self }),
    {
        Style { underline_style: Some(u), ..self }
    }

    /// The style with modifier `m` added (and no longer removed).
    pub fn add_modifier(self, m: Modifier) -> (r: Style)
        ensures
            r == (Style {
                add_modifier: self.add_modifier | m.bits(),
                sub_modifier: self.sub_modifier & !m.bits(),
                ..self
            }),
    {
        Style {
            add_modifier: self.add_modifier | m.bits(),
            sub_modifier: self.sub_modifier & !m.bits(),
            ..self
        }
    }

    /// Whether the style carries `m` among its added modifiers.
    pub fn has_modifier(self, m: Modifier) -> (r: bool)
        ensures
            r == (self.add_modifier & m.bits() != 0),
    {
        self.add_modifier & m.bits() != 0
    }
}

/// Whether `c` is an RGB color.
pub open spec fn is_rgb(c: Option<Color>) -> bool {
    match c {
        Some(Color::Rgb(_, _, _)) => true,
        _ => false,
    }
}

} // verus!
