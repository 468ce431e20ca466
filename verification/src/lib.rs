//! A character-cell terminal treated as an addressable 2-D pixel surface.
//!
//! Terminal characters are roughly twice as tall as they are wide, so each
//! cell stands for two vertically stacked pixels: the buffer remembers a
//! (top, bottom) color pair per cell, maps pixel coordinates to cells, and
//! turns drawing operations into a minimal queue of terminal commands
//! (cursor moves, color sets, glyph writes). An unverified shell around
//! this library performs the queued commands on a real terminal.

pub mod color;
pub mod command;
pub mod display;
pub mod geometry;
pub mod laws;

pub use color::Color;
pub use color::NativeColor;
pub use command::Command;
pub use command::Glyph;
pub use display::Cell;
pub use display::Pixel;
pub use display::TerminalDisplay;
pub use display::bounding_box;
pub use display::size;
pub use geometry::Point;
pub use geometry::Rectangle;
pub use geometry::Size;
