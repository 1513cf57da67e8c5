//! The board as text: one glyph and a space for each cell, one line for
//! each row.

use vstd::prelude::*;
use crate::board::Board;
use crate::cell::CellState;

verus! {

/// The digit that a counted cell shows.
pub open spec fn digit(n: u8) -> char {
    if n == 1 {
        '1'
    } else if n == 2 {
        '2'
    } else if n == 3 {
        '3'
    } else if n == 4 {
        '4'
    } else if n == 5 {
        '5'
    } else if n == 6 {
        '6'
    } else if n == 7 {
        '7'
    } else if n == 8 {
        '8'
    } else {
        '0'
    }
}

/// The glyph of a cell: a filled square for a covered cell, an empty square
/// for a revealed cell without a mine, a star for a revealed mine, the digit
/// of a count, a flag, or a question mark.
pub open spec fn glyph(c: CellState) -> char {
    match c {
        CellState::Unknown(_) => '\u{25A0}',
        CellState::Known(false) => '\u{25A1}',
        CellState::Known(true) => '*',
        CellState::Counted(n) => digit(n),
        CellState::Flagged(_) => '\u{1F3F3}',
        CellState::Questioned(_) => '?',
    }
}

/// The digit that a counted cell shows.
pub fn digit_of(n: u8) -> (c: char)
    ensures
        c == digit(n),
{
    if n == 1 {
        '1'
    } else if n == 2 {
        '2'
    } else if n == 3 {
        '3'
    } else if n == 4 {
        '4'
    } else if n == 5 {
        '5'
    } else if n == 6 {
        '6'
    } else if n == 7 {
        '7'
    } else if n == 8 {
        '8'
    } else {
        '0'
    }
}

/// The glyph of a cell.
pub fn glyph_of(c: CellState) -> (g: char)
    ensures
        g == glyph(c),
{
    match c {
        CellState::Unknown(_) => '\u{25A0}',
        CellState::Known(false) => '\u{25A1}',
        CellState::Known(true) => '*',
        CellState::Counted(n) => digit_of(n),
        CellState::Flagged(_) => '\u{1F3F3}',
        CellState::Questioned(_) => '?',
    }
}

impl Board {
    /// The first `upto` cells of row `y` as text.
    pub open spec fn row_text(self, y: int, upto: int) -> Seq<char>
        decreases upto,
    {
        if upto <= 0 {
            Seq::empty()
        } else {
            self.row_text(y, upto - 1).push(glyph(self.at(upto - 1, y))).push(' ')
        }
    }

    /// The first `rows` rows as text, each ended by a line feed.
    pub open spec fn text(self, rows: int) -> Seq<char>
        decreases rows,
    {
        if rows <= 0 {
            Seq::empty()
        } else {
            self.text(rows - 1) + self.row_text(rows - 1, self.width).push('\n')
        }
    }
}

/// Calls `String::push`, which appends one character to the string.
#[verifier::external_body]
pub(crate) fn push_char(s: &mut String, c: char)
    ensures
        final(s)@ == old(s)@.push(c),
{
    s.push(c);
}

} // verus!
