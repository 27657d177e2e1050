//! Value types: squares, piece kinds, colors, and the occupant of a square.
use vstd::prelude::*;
use vstd::string::StringExecFns;

verus! {

/// A square of the 8x8 board. Row 0 is the topmost rank (rank 8) and rows
/// grow downward; column 0..7 maps to files a..h.
#[derive(Clone, Copy, PartialEq, Eq, Structural, Debug)]
pub struct Coordinate {
    pub row: i8,
    pub col: i8,
}

/// The kind of an occupant. `Empty` is a sentinel occupant value, not an
/// absence: an empty cell holds a `Piece` whose `breed` is `Empty`.
#[derive(Clone, Copy, PartialEq, Eq, Structural, Debug)]
pub enum Pieces {
    King,
    Queen,
    Rook,
    Bishop,
    Knight,
    Pawn,
    Empty,
}

#[derive(Clone, Copy, PartialEq, Eq, Structural, Debug)]
pub enum Color {
    White,
    Black,
}

/// The occupant of a square. For an `Empty` breed the color carries no
/// meaning.
#[derive(Clone, Copy, PartialEq, Eq, Structural, Debug)]
pub struct Piece {
    pub breed: Pieces,
    pub color: Color,
}

/// Row and column both lie on the board.
pub open spec fn in_range(r: int, c: int) -> bool {
    0 <= r < 8 && 0 <= c < 8
}

pub open spec fn coord_in_range(co: Coordinate) -> bool {
    in_range(co.row as int, co.col as int)
}

/// Index of square (r, c) in a row-major sequence of 64 cells.
pub open spec fn sq(r: int, c: int) -> int {
    r * 8 + c
}

/// The sentinel occupant of a vacated or never-occupied cell.
pub open spec fn empty_piece() -> Piece {
    Piece { breed: Pieces::Empty, color: Color::White }
}

pub open spec fn other_color(c: Color) -> Color {
    match c {
        Color::White => Color::Black,
        Color::Black => Color::White,
    }
}

/// The file letter of a column: 'a' for 0 up to 'h' for 7.
pub open spec fn file_char(col: int) -> char {
    if col == 0 { 'a' }
    else if col == 1 { 'b' }
    else if col == 2 { 'c' }
    else if col == 3 { 'd' }
    else if col == 4 { 'e' }
    else if col == 5 { 'f' }
    else if col == 6 { 'g' }
    else { 'h' }
}

/// The rank digit of a row: row 0 prints as '8' down to row 7 as '1'.
pub open spec fn rank_char(row: int) -> char {
    if row == 0 { '8' }
    else if row == 1 { '7' }
    else if row == 2 { '6' }
    else if row == 3 { '5' }
    else if row == 4 { '4' }
    else if row == 5 { '3' }
    else if row == 6 { '2' }
    else { '1' }
}

impl Coordinate {
    /// Algebraic text of a square: the file letter followed by the rank digit.
    pub fn to_string(&self) -> (s: String)
        requires
            coord_in_range(*self),
        ensures
            s@ == seq![file_char(self.col as int), rank_char(self.row as int)],
    {
        let mut s = String::new();
        let file: &str = match self.col {
            0 => "a",
            1 => "b",
            2 => "c",
            3 => "d",
            4 => "e",
            5 => "f",
            6 => "g",
            _ => "h",
        };
        let rank: &str = match self.row {
            0 => "8",
            1 => "7",
            2 => "6",
            3 => "5",
            4 => "4",
            5 => "3",
            6 => "2",
            _ => "1",
        };
        proof {
            reveal_strlit("a");
            reveal_strlit("b");
            reveal_strlit("c");
            reveal_strlit("d");
            reveal_strlit("e");
            reveal_strlit("f");
            reveal_strlit("g");
            reveal_strlit("h");
            reveal_strlit("1");
            reveal_strlit("2");
            reveal_strlit("3");
            reveal_strlit("4");
            reveal_strlit("5");
            reveal_strlit("6");
            reveal_strlit("7");
            reveal_strlit("8");
        }
        s.append(file);
        s.append(rank);
        proof {
            assert(s@ =~= seq![file_char(self.col as int), rank_char(self.row as int)]);
        }
        s
    }
}

} // verus!
