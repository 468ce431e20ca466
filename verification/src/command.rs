use vstd::prelude::*;

use crate::color::Color;
use crate::color::NativeColor;
use crate::color::native_of;

verus! {

/// The glyph written into one terminal cell. The "ink" of a half block
/// covers that half of the cell in the foreground color; the rest shows the
/// background color.
#[derive(Copy, Clone, Debug, PartialEq, Eq, Hash, Structural)]
pub enum Glyph {
    /// A blank cell: all background.
    Space,
    /// A block covering the lower half of the cell.
    LowerHalf,
    /// A block covering the upper half of the cell.
    UpperHalf,
    /// A block covering the whole cell: all foreground.
    Full,
}

/// One terminal command. Drawing operations queue commands; nothing is
/// transmitted until an unverified sink takes the queue and performs each
/// command in order on the real terminal.
#[derive(Copy, Clone, Debug, PartialEq, Eq, Hash, Structural)]
pub enum Command {
    /// Move the cursor to a cell, as (column, row) in character units.
    MoveTo(u16, u16),
    /// Set the foreground color used by subsequent glyphs.
    SetForeground(NativeColor),
    /// Set the background color used by subsequent glyphs.
    SetBackground(NativeColor),
    /// Write a glyph at the cursor, advancing the cursor by one column.
    Print(Glyph),
}

/// The commands that render one cell whose pixel halves hold
/// `(top, bottom)`, chosen to minimize the commands emitted. Checked in
/// order:
/// - both halves are the background sentinel: reset the background and
///   write a blank glyph;
/// - both halves are the foreground sentinel: reset the foreground and
///   write a full block;
/// - otherwise, when the top color can be a background (it is not the
///   foreground sentinel) and the bottom color can be a foreground (it is
///   not the background sentinel), render top as background and bottom as
///   foreground under a lower half block;
/// - otherwise swap the roles and use an upper half block.
pub open spec fn cell_commands(top: Color, bottom: Color) -> Seq<Command> {
    if top == Color::BgColor && bottom == Color::BgColor {
        seq![Command::SetBackground(NativeColor::Reset), Command::Print(Glyph::Space)]
    } else if top == Color::FgColor && bottom == Color::FgColor {
        seq![Command::SetForeground(NativeColor::Reset), Command::Print(Glyph::Full)]
    } else if top != Color::FgColor && bottom != Color::BgColor {
        seq![
            Command::SetBackground(native_of(top)),
            Command::SetForeground(native_of(bottom)),
            Command::Print(Glyph::LowerHalf),
        ]
    } else {
        seq![
            Command::SetBackground(native_of(bottom)),
            Command::SetForeground(native_of(top)),
            Command::Print(Glyph::UpperHalf),
        ]
    }
}

/// Queue the commands that render a cell holding `(top, bottom)`.
pub fn write_cell(out: &mut Vec<Command>, top: Color, bottom: Color)
    ensures
        final(out)@ == old(out)@ + cell_commands(top, bottom),
{
    let bg_bg = matches!(top, Color::BgColor) && matches!(bottom, Color::BgColor);
    let fg_fg = matches!(top, Color::FgColor) && matches!(bottom, Color::FgColor);
    if bg_bg {
        out.push(Command::SetBackground(NativeColor::Reset));
        out.push(Command::Print(Glyph::Space));
    } else if fg_fg {
        out.push(Command::SetForeground(NativeColor::Reset));
        out.push(Command::Print(Glyph::Full));
    } else if !matches!(top, Color::FgColor) && !matches!(bottom, Color::BgColor) {
        out.push(Command::SetBackground(top.to_native_color()));
        out.push(Command::SetForeground(bottom.to_native_color()));
        out.push(Command::Print(Glyph::LowerHalf));
    } else {
        out.push(Command::SetBackground(bottom.to_native_color()));
        out.push(Command::SetForeground(top.to_native_color()));
        out.push(Command::Print(Glyph::UpperHalf));
    }
    assert(out@ =~= old(out)@ + cell_commands(top, bottom));
}

} // verus!
