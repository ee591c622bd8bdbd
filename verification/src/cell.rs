//! A single character cell: the atom of the terminal grid.

use vstd::prelude::*;

verus! {

/// A color a cell can carry. `Default` means "the terminal's default fg/bg".
#[derive(Clone, Copy, PartialEq, Eq, Debug, Structural)]
pub enum Color {
    Default,
    /// 0–15 = the 16 ANSI colors, 16–255 = the xterm 256-color cube/greys.
    Indexed(u8),
    /// 24-bit truecolor.
    Rgb(u8, u8, u8),
}

/// Text attribute bit flags, stored packed in a `u8`.
pub const BOLD: u8 = 1;
pub const ITALIC: u8 = 2;
pub const UNDERLINE: u8 = 4;
pub const REVERSE: u8 = 8;
pub const DIM: u8 = 16;
pub const BLINK: u8 = 32;
pub const HIDDEN: u8 = 64;
pub const STRIKETHROUGH: u8 = 128;

/// One screen cell: the glyph plus how to paint it.
#[derive(Clone, Copy, PartialEq, Eq, Debug, Structural)]
pub struct Cell {
    pub ch: char,
    pub fg: Color,
    pub bg: Color,
    pub attrs: u8,
}

/// A blank cell in the default colors with no attributes.
pub open spec fn default_cell() -> Cell {
    Cell { ch: ' ', fg: Color::Default, bg: Color::Default, attrs: 0 }
}

impl Default for Cell {
    fn default() -> (c: Self)
        ensures
            c == default_cell(),
    {
        Cell { ch: ' ', fg: Color::Default, bg: Color::Default, attrs: 0 }
    }
}

} // verus!
