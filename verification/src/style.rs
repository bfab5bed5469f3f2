//! Terminal colours and cell styles, as plain values the drawing code maps onto
//! the terminal library's own.

use vstd::prelude::*;

verus! {

/// A terminal colour.
#[derive(Clone, Copy, PartialEq, Eq, Debug, Structural)]
pub enum TermColor {
    Reset,
    Black,
    Red,
    Yellow,
    Blue,
    Magenta,
    Cyan,
    Gray,
    DarkGray,
}

/// Foreground and background colour of a table cell.
#[derive(Clone, Copy, PartialEq, Eq, Debug, Structural)]
pub struct CellStyle {
    pub fg: TermColor,
    pub bg: TermColor,
}

} // verus!
