use vstd::prelude::*;

verus! {

/// A color that can be drawn onto a terminal pixel.
///
/// The two sentinel variants stand for the terminal's own default background
/// and foreground colors. They are first-class values rather than an absence:
/// a cell whose halves are sentinels is rendered with reset commands, so the
/// terminal's ambient defaults are restored exactly instead of being
/// approximated by a hard-coded value.
#[derive(Copy, Clone, Debug, PartialEq, Eq, Hash, Structural)]
pub enum Color {
    /// The default background color of the terminal.
    BgColor,
    /// The default foreground color of the terminal.
    FgColor,
    /// Black color.
    Black,
    /// Dark grey color.
    DarkGrey,
    /// Light red color.
    Red,
    /// Dark red color.
    DarkRed,
    /// Light green color.
    Green,
    /// Dark green color.
    DarkGreen,
    /// Light yellow color.
    Yellow,
    /// Dark yellow color.
    DarkYellow,
    /// Light blue color.
    Blue,
    /// Dark blue color.
    DarkBlue,
    /// Light magenta color.
    Magenta,
    /// Dark magenta color.
    DarkMagenta,
    /// Light cyan color.
    Cyan,
    /// Dark cyan color.
    DarkCyan,
    /// White color.
    White,
    /// Grey color.
    Grey,
    /// A 24-bit color, as (red, green, blue) channels.
    Rgb(u8, u8, u8),
    /// An 8-bit ANSI palette color.
    AnsiValue(u8),
}

/// The terminal-native form of a color: the payload of an emitted
/// "set foreground" or "set background" command.
///
/// `Reset` restores the terminal's own default for whichever channel the
/// command sets; it is what both `Color` sentinels turn into.
#[derive(Copy, Clone, Debug, PartialEq, Eq, Hash, Structural)]
pub enum NativeColor {
    /// Restore the terminal's default for the channel being set.
    Reset,
    /// Black color.
    Black,
    /// Dark grey color.
    DarkGrey,
    /// Light red color.
    Red,
    /// Dark red color.
    DarkRed,
    /// Light green color.
    Green,
    /// Dark green color.
    DarkGreen,
    /// Light yellow color.
    Yellow,
    /// Dark yellow color.
    DarkYellow,
    /// Light blue color.
    Blue,
    /// Dark blue color.
    DarkBlue,
    /// Light magenta color.
    Magenta,
    /// Dark magenta color.
    DarkMagenta,
    /// Light cyan color.
    Cyan,
    /// Dark cyan color.
    DarkCyan,
    /// White color.
    White,
    /// Grey color.
    Grey,
    /// A 24-bit color, as (red, green, blue) channels.
    Rgb(u8, u8, u8),
    /// An 8-bit ANSI palette color.
    AnsiValue(u8),
}

/// The terminal-native form of `color`: the identity on concrete colors,
/// with both default sentinels mapping to the reset value.
pub open spec fn native_of(color: Color) -> NativeColor {
    match color {
        Color::BgColor => NativeColor::Reset,
        Color::FgColor => NativeColor::Reset,
        Color::Black => NativeColor::Black,
        Color::DarkGrey => NativeColor::DarkGrey,
        Color::Red => NativeColor::Red,
        Color::DarkRed => NativeColor::DarkRed,
        Color::Green => NativeColor::Green,
        Color::DarkGreen => NativeColor::DarkGreen,
        Color::Yellow => NativeColor::Yellow,
        Color::DarkYellow => NativeColor::DarkYellow,
        Color::Blue => NativeColor::Blue,
        Color::DarkBlue => NativeColor::DarkBlue,
        Color::Magenta => NativeColor::Magenta,
        Color::DarkMagenta => NativeColor::DarkMagenta,
        Color::Cyan => NativeColor::Cyan,
        Color::DarkCyan => NativeColor::DarkCyan,
        Color::White => NativeColor::White,
        Color::Grey => NativeColor::Grey,
        Color::Rgb(r, g, b) => NativeColor::Rgb(r, g, b),
        Color::AnsiValue(n) => NativeColor::AnsiValue(n),
    }
}

impl Color {
    /// The terminal-native form of this color; see [`native_of`].
    pub fn to_native_color(self) -> (r: NativeColor)
        ensures
            r == native_of(self),
    {
        match self {
            Color::BgColor => NativeColor::Reset,
            Color::FgColor => NativeColor::Reset,
            Color::Black => NativeColor::Black,
            Color::DarkGrey => NativeColor::DarkGrey,
            Color::Red => NativeColor::Red,
            Color::DarkRed => NativeColor::DarkRed,
            Color::Green => NativeColor::Green,
            Color::DarkGreen => NativeColor::DarkGreen,
            Color::Yellow => NativeColor::Yellow,
            Color::DarkYellow => NativeColor::DarkYellow,
            Color::Blue => NativeColor::Blue,
            Color::DarkBlue => NativeColor::DarkBlue,
            Color::Magenta => NativeColor::Magenta,
            Color::DarkMagenta => NativeColor::DarkMagenta,
            Color::Cyan => NativeColor::Cyan,
            Color::DarkCyan => NativeColor::DarkCyan,
            Color::White => NativeColor::White,
            Color::Grey => NativeColor::Grey,
            Color::Rgb(r, g, b) => NativeColor::Rgb(r, g, b),
            Color::AnsiValue(n) => NativeColor::AnsiValue(n),
        }
    }
}

impl Default for Color {
    /// A pixel that was never drawn shows the terminal's default background.
    fn default() -> (c: Color)
        ensures
            c == Color::BgColor,
    {
        Color::BgColor
    }
}

} // verus!
