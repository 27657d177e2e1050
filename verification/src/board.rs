//! The board state: an 8x8 grid of occupants kept row-major in 64 cells,
//! two color-indexed occupant indexes over the same 64 squares, the turn
//! marker, castling-rights flags, the en-passant marker and the move
//! counters.
use vstd::prelude::*;

use crate::pieces::{Color, Coordinate, Piece, Pieces, coord_in_range, empty_piece, other_color, sq};

verus! {

/// The mathematical model of a board: every field of `Board`, with the grid
/// and the two indexes as sequences of 64 entries.
#[verifier::ext_equal]
pub ghost struct BoardView {
    pub grid: Seq<Piece>,
    pub turn: Color,
    pub castling_black_king_side: bool,
    pub castling_black_queen_side: bool,
    pub castling_white_king_side: bool,
    pub castling_white_queen_side: bool,
    pub white: Seq<Option<Piece>>,
    pub black: Seq<Option<Piece>>,
    pub ep: Option<Coordinate>,
    pub halfmove: int,
    pub fullmove: int,
}

/// The board state. The two occupant indexes are a redundant secondary index
/// over the grid: slot `row * 8 + col` of the matching color's index holds
/// the occupant of that square, kept for iteration over one color's pieces.
pub struct Board {
    pub board: Vec<Piece>,
    pub turn: Color,
    pub castling_black_king_side: bool,
    pub castling_black_queen_side: bool,
    pub castling_white_king_side: bool,
    pub castling_white_queen_side: bool,
    pub white_pieces: Vec<Option<Piece>>,
    pub black_pieces: Vec<Option<Piece>>,
    pub last_2_moves_pawn: Option<Coordinate>,
    pub halfmove_clock: i8,
    pub fullmove_number: i8,
}

impl View for Board {
    type V = BoardView;

    open spec fn view(&self) -> BoardView {
        BoardView {
            grid: self.board@,
            turn: self.turn,
            castling_black_king_side: self.castling_black_king_side,
            castling_black_queen_side: self.castling_black_queen_side,
            castling_white_king_side: self.castling_white_king_side,
            castling_white_queen_side: self.castling_white_queen_side,
            white: self.white_pieces@,
            black: self.black_pieces@,
            ep: self.last_2_moves_pawn,
            halfmove: self.halfmove_clock as int,
            fullmove: self.fullmove_number as int,
        }
    }
}

impl BoardView {
    /// Structural well-formedness: 64 cells, 64 slots in each index, an
    /// in-range en-passant marker and non-negative counters.
    pub open spec fn wf(self) -> bool {
        &&& self.grid.len() == 64
        &&& self.white.len() == 64
        &&& self.black.len() == 64
        &&& match self.ep {
            Some(c) => coord_in_range(c),
            None => true,
        }
        &&& 0 <= self.halfmove <= 127
        &&& 0 <= self.fullmove <= 127
    }

    /// The occupant of square (r, c).
    pub open spec fn at(self, r: int, c: int) -> Piece {
        self.grid[sq(r, c)]
    }

    /// Whether square (r, c) holds the sentinel empty occupant.
    pub open spec fn empty_at(self, r: int, c: int) -> bool {
        self.at(r, c).breed is Empty
    }

    /// The occupant index of one color.
    pub open spec fn slots_of(self, color: Color) -> Seq<Option<Piece>> {
        match color {
            Color::White => self.white,
            Color::Black => self.black,
        }
    }
}

/// The board state that `new` establishes (with all castling rights) and
/// that `clear` resets to (with none).
pub open spec fn init_view(castling: bool) -> BoardView {
    BoardView {
        grid: Seq::new(64, |i: int| empty_piece()),
        turn: Color::White,
        castling_black_king_side: castling,
        castling_black_queen_side: castling,
        castling_white_king_side: castling,
        castling_white_queen_side: castling,
        white: Seq::new(64, |i: int| None),
        black: Seq::new(64, |i: int| None),
        ep: None,
        halfmove: 0,
        fullmove: 1,
    }
}

/// What placing `p` at (r, c) does to a board: the grid cell is overwritten
/// and the index matching the piece's color gains the entry. A stale entry
/// of the other color at the same square is deliberately not removed.
pub open spec fn spec_place(v: BoardView, p: Piece, r: int, c: int) -> BoardView {
    if p.color is White {
        BoardView { grid: v.grid.update(sq(r, c), p), white: v.white.update(sq(r, c), Some(p)), ..v }
    } else {
        BoardView { grid: v.grid.update(sq(r, c), p), black: v.black.update(sq(r, c), Some(p)), ..v }
    }
}

/// The occupant that a move from `s` to `e` captures: the piece standing at
/// `e`, or nothing when `e` is empty.
pub open spec fn spec_captured(v: BoardView, s: Coordinate, e: Coordinate) -> Option<Piece> {
    let cap = v.grid[sq(e.row as int, e.col as int)];
    if cap.breed is Empty {
        None
    } else {
        Some(cap)
    }
}

/// What a mechanical, legality-blind move from `s` to `e` does to a board:
/// the mover leaves `s` (which becomes empty) and overwrites `e`; the
/// mover's index entry moves with it; a captured occupant leaves the other
/// color's index; a pawn moving two ranks sets the en-passant marker to `e`;
/// the turn toggles. Castling flags and counters never change.
pub open spec fn spec_apply(v: BoardView, s: Coordinate, e: Coordinate) -> BoardView {
    let si = sq(s.row as int, s.col as int);
    let ei = sq(e.row as int, e.col as int);
    let mover = v.grid[si];
    let cap = v.grid[ei];
    let grid2 = v.grid.update(si, empty_piece()).update(ei, mover);
    let ep2 = if mover.breed is Pawn && (e.row as int - s.row as int == 2
        || e.row as int - s.row as int == -2) {
        Some(e)
    } else {
        v.ep
    };
    let turn2 = other_color(v.turn);
    if mover.color is White {
        let white2 = v.white.update(ei, Some(mover)).update(si, None);
        let black2 = if cap.breed is Empty {
            v.black
        } else {
            v.black.update(ei, None)
        };
        BoardView { grid: grid2, white: white2, black: black2, ep: ep2, turn: turn2, ..v }
    } else {
        let black2 = v.black.update(ei, Some(mover)).update(si, None);
        let white2 = if cap.breed is Empty {
            v.white
        } else {
            v.white.update(ei, None)
        };
        BoardView { grid: grid2, white: white2, black: black2, ep: ep2, turn: turn2, ..v }
    }
}

/// Whether slot `j` of an index holds a King entry.
pub open spec fn king_entry(slots: Seq<Option<Piece>>, j: int) -> bool {
    slots[j] is Some && slots[j]->0.breed is King
}

/// The first slot at or after `j` holding a King entry, scanning the 64
/// slots in square order.
pub open spec fn first_king(slots: Seq<Option<Piece>>, j: int) -> Option<int>
    decreases 64 - j,
{
    if j < 0 || j >= 64 {
        None
    } else if king_entry(slots, j) {
        Some(j)
    } else {
        first_king(slots, j + 1)
    }
}

/// The king square that `get_king_coord` reports for a color: the first
/// King entry of that color's index in square order, or nothing.
pub open spec fn spec_king_coord(v: BoardView, color: Color) -> Option<Coordinate> {
    match first_king(v.slots_of(color), 0) {
        Some(j) => Some(Coordinate { row: (j / 8) as i8, col: (j % 8) as i8 }),
        None => None,
    }
}

/// The intended correspondence between the grid and the two indexes: a
/// non-empty cell has its entry in exactly the index of its color, and an
/// empty cell has an entry in neither. `place_piece` can break this by
/// overwriting a piece of the other color; the guarded move path keeps it.
pub open spec fn index_consistent(v: BoardView) -> bool {
    forall|i: int| 0 <= i < 64 ==> {
        &&& (#[trigger] v.grid[i]).breed is Empty ==> v.white[i] is None && v.black[i] is None
        &&& (v.grid[i].breed !is Empty && v.grid[i].color is White) ==> v.white[i]
            == Some(v.grid[i]) && v.black[i] is None
        &&& (v.grid[i].breed !is Empty && v.grid[i].color is Black) ==> v.black[i]
            == Some(v.grid[i]) && v.white[i] is None
    }
}

/// The breed standing on column `c` of a back rank in the standard
/// starting position.
pub open spec fn back_rank_breed(c: int) -> Pieces {
    if c == 0 || c == 7 {
        Pieces::Rook
    } else if c == 1 || c == 6 {
        Pieces::Knight
    } else if c == 2 || c == 5 {
        Pieces::Bishop
    } else if c == 3 {
        Pieces::Queen
    } else {
        Pieces::King
    }
}

/// The occupant of cell `i` in the standard starting position.
pub open spec fn start_piece(i: int) -> Piece {
    let r = i / 8;
    let c = i % 8;
    if r == 0 {
        Piece { breed: back_rank_breed(c), color: Color::Black }
    } else if r == 1 {
        Piece { breed: Pieces::Pawn, color: Color::Black }
    } else if r == 6 {
        Piece { breed: Pieces::Pawn, color: Color::White }
    } else if r == 7 {
        Piece { breed: back_rank_breed(c), color: Color::White }
    } else {
        empty_piece()
    }
}

/// The board state that `default` establishes: the standard starting
/// position loaded from its notation, which resets every flag the loader
/// does not ingest — so no castling rights, no marker, counters at 0 and 1.
pub open spec fn start_view() -> BoardView {
    BoardView {
        grid: Seq::new(64, |i: int| start_piece(i)),
        turn: Color::White,
        castling_black_king_side: false,
        castling_black_queen_side: false,
        castling_white_king_side: false,
        castling_white_queen_side: false,
        white: Seq::new(
            64,
            |i: int|
                if start_piece(i).breed !is Empty && start_piece(i).color is White {
                    Some(start_piece(i))
                } else {
                    None
                },
        ),
        black: Seq::new(
            64,
            |i: int|
                if start_piece(i).breed !is Empty && start_piece(i).color is Black {
                    Some(start_piece(i))
                } else {
                    None
                },
        ),
        ep: None,
        halfmove: 0,
        fullmove: 1,
    }
}

/// A 64-cell grid of empty occupants.
fn empty_grid_vec() -> (v: Vec<Piece>)
    ensures
        v@.len() == 64,
        forall|i: int| 0 <= i < 64 ==> v@[i] == empty_piece(),
{
    let mut v: Vec<Piece> = Vec::new();
    let mut i: usize = 0;
    while i < 64
        invariant
            i <= 64,
            v@.len() == i,
            forall|j: int| 0 <= j < i ==> v@[j] == empty_piece(),
        decreases 64 - i,
    {
        v.push(Piece { breed: Pieces::Empty, color: Color::White });
        i += 1;
    }
    v
}

/// A 64-slot index with no entries.
fn empty_slots_vec() -> (v: Vec<Option<Piece>>)
    ensures
        v@.len() == 64,
        forall|i: int| 0 <= i < 64 ==> v@[i] is None,
{
    let mut v: Vec<Option<Piece>> = Vec::new();
    let mut i: usize = 0;
    while i < 64
        invariant
            i <= 64,
            v@.len() == i,
            forall|j: int| 0 <= j < i ==> v@[j] is None,
        decreases 64 - i,
    {
        v.push(None);
        i += 1;
    }
    v
}

impl Board {
    /// An empty board: no occupants, White to move, all four castling
    /// rights, no en-passant marker, counters at 0 and 1.
    pub fn new() -> (b: Board)
        ensures
            b@ == init_view(true),
            b@.wf(),
    {
        let b = Board {
            board: empty_grid_vec(),
            turn: Color::White,
            castling_black_king_side: true,
            castling_black_queen_side: true,
            castling_white_king_side: true,
            castling_white_queen_side: true,
            white_pieces: empty_slots_vec(),
            black_pieces: empty_slots_vec(),
            last_2_moves_pawn: None,
            halfmove_clock: 0,
            fullmove_number: 1,
        };
        proof {
            assert(b@.grid =~= init_view(true).grid);
            assert(b@.white =~= init_view(true).white);
            assert(b@.black =~= init_view(true).black);
            assert(b@ =~= init_view(true));
        }
        b
    }

    /// Resets everything: all cells empty, White to move, all castling
    /// rights withdrawn (unlike `new`), empty indexes, no marker, counters
    /// at 0 and 1.
    pub fn clear(&mut self)
        ensures
            final(self)@ == init_view(false),
            final(self)@.wf(),
    {
        self.board = empty_grid_vec();
        self.turn = Color::White;
        self.castling_black_king_side = false;
        self.castling_black_queen_side = false;
        self.castling_white_king_side = false;
        self.castling_white_queen_side = false;
        self.white_pieces = empty_slots_vec();
        self.black_pieces = empty_slots_vec();
        self.last_2_moves_pawn = None;
        self.halfmove_clock = 0;
        self.fullmove_number = 1;
        proof {
            assert(self@.grid =~= init_view(false).grid);
            assert(self@.white =~= init_view(false).white);
            assert(self@.black =~= init_view(false).black);
            assert(self@ =~= init_view(false));
        }
    }

    /// Writes the grid cell and inserts the piece into the index of its
    /// color. Any stale entry of the other color at the same square is left
    /// behind on purpose: overwriting a piece of the other color outside the
    /// guarded move path leaves the indexes diverged from the grid.
    pub fn place_piece(&mut self, piece: Piece, row: usize, col: usize)
        requires
            old(self)@.wf(),
            row <= 7,
            col <= 7,
        ensures
            final(self)@ == spec_place(old(self)@, piece, row as int, col as int),
            final(self)@.wf(),
    {
        let i: usize = row * 8 + col;
        self.board[i] = piece;
        if piece.color == Color::White {
            self.white_pieces[i] = Some(piece);
        } else {
            self.black_pieces[i] = Some(piece);
        }
        proof {
            assert(self@ =~= spec_place(old(self)@, piece, row as int, col as int));
        }
    }

    /// Mechanical relocation with no legality check: empties `starting`,
    /// writes the mover to `ending`, moves the index entries along, records
    /// a pawn double-push in the en-passant marker, toggles the turn, and
    /// returns the captured occupant if the destination held one.
    pub fn apply_move(&mut self, starting: Coordinate, ending: Coordinate) -> (captured: Option<
        Piece,
    >)
        requires
            old(self)@.wf(),
            coord_in_range(starting),
            coord_in_range(ending),
        ensures
            final(self)@ == spec_apply(old(self)@, starting, ending),
            captured == spec_captured(old(self)@, starting, ending),
            final(self)@.wf(),
    {
        let si: usize = (starting.row as usize) * 8 + (starting.col as usize);
        let ei: usize = (ending.row as usize) * 8 + (ending.col as usize);
        let piece: Piece = self.board[si];
        let captured_piece: Piece = self.board[ei];
        self.board[si] = Piece { breed: Pieces::Empty, color: Color::White };
        self.board[ei] = piece;
        let dr: i8 = ending.row - starting.row;
        if piece.breed == Pieces::Pawn && (dr == 2 || dr == -2) {
            self.last_2_moves_pawn = Some(ending);
        }
        if piece.color == Color::White {
            self.white_pieces[ei] = Some(piece);
            self.white_pieces[si] = None;
            if captured_piece.breed != Pieces::Empty {
                self.black_pieces[ei] = None;
            }
        } else {
            self.black_pieces[ei] = Some(piece);
            self.black_pieces[si] = None;
            if captured_piece.breed != Pieces::Empty {
                self.white_pieces[ei] = None;
            }
        }
        if self.turn == Color::White {
            self.turn = Color::Black;
        } else {
            self.turn = Color::White;
        }
        proof {
            assert(self@ =~= spec_apply(old(self)@, starting, ending));
        }
        if captured_piece.breed != Pieces::Empty {
            Some(captured_piece)
        } else {
            None
        }
    }

    /// The standard starting position. Loading a position resets castling
    /// rights, the marker and the counters, so the board starts with no
    /// castling rights even though every piece is at home.
    #[verifier::rlimit(50)]
    pub fn default() -> (b: Board)
        ensures
            b@ == start_view(),
            b@.wf(),
    {
        let mut b = Board::new();
        b.clear();
        b.place_piece(Piece { breed: Pieces::Rook, color: Color::Black }, 0, 0);
        b.place_piece(Piece { breed: Pieces::Knight, color: Color::Black }, 0, 1);
        b.place_piece(Piece { breed: Pieces::Bishop, color: Color::Black }, 0, 2);
        b.place_piece(Piece { breed: Pieces::Queen, color: Color::Black }, 0, 3);
        b.place_piece(Piece { breed: Pieces::King, color: Color::Black }, 0, 4);
        b.place_piece(Piece { breed: Pieces::Bishop, color: Color::Black }, 0, 5);
        b.place_piece(Piece { breed: Pieces::Knight, color: Color::Black }, 0, 6);
        b.place_piece(Piece { breed: Pieces::Rook, color: Color::Black }, 0, 7);
        let mut c: usize = 0;
        while c < 8
            invariant
                c <= 8,
                b@.wf(),
                b@.grid.len() == 64,
                forall|i: int| 0 <= i < 8 ==> b@.grid[i] == start_piece(i),
                forall|i: int| 8 <= i < 8 + c ==> b@.grid[i] == start_piece(i),
                forall|i: int| 8 + c <= i < 64 ==> b@.grid[i] == empty_piece(),
                forall|i: int| 0 <= i < 64 ==> b@.white[i] is None,
                forall|i: int|
                    0 <= i < 64 ==> b@.black[i] == (if i < 8 + c && b@.grid[i].breed !is Empty {
                        Some(b@.grid[i])
                    } else {
                        None
                    }),
                b@.turn is White,
                !b@.castling_black_king_side,
                !b@.castling_black_queen_side,
                !b@.castling_white_king_side,
                !b@.castling_white_queen_side,
                b@.ep is None,
                b@.halfmove == 0,
                b@.fullmove == 1,
            decreases 8 - c,
        {
            b.place_piece(Piece { breed: Pieces::Pawn, color: Color::Black }, 1, c);
            c += 1;
        }
        let mut c2: usize = 0;
        while c2 < 8
            invariant
                c2 <= 8,
                b@.wf(),
                b@.grid.len() == 64,
                forall|i: int| 0 <= i < 16 ==> b@.grid[i] == start_piece(i),
                forall|i: int| 48 <= i < 48 + c2 ==> b@.grid[i] == start_piece(i),
                forall|i: int| 16 <= i < 48 ==> b@.grid[i] == empty_piece(),
                forall|i: int| 48 + c2 <= i < 64 ==> b@.grid[i] == empty_piece(),
                forall|i: int|
                    0 <= i < 64 ==> b@.white[i] == (if 48 <= i < 48 + c2 {
                        Some(b@.grid[i])
                    } else {
                        None
                    }),
                forall|i: int|
                    0 <= i < 64 ==> b@.black[i] == (if i < 16 && b@.grid[i].breed !is Empty {
                        Some(b@.grid[i])
                    } else {
                        None
                    }),
                b@.turn is White,
                !b@.castling_black_king_side,
                !b@.castling_black_queen_side,
                !b@.castling_white_king_side,
                !b@.castling_white_queen_side,
                b@.ep is None,
                b@.halfmove == 0,
                b@.fullmove == 1,
            decreases 8 - c2,
        {
            b.place_piece(Piece { breed: Pieces::Pawn, color: Color::White }, 6, c2);
            c2 += 1;
        }
        b.place_piece(Piece { breed: Pieces::Rook, color: Color::White }, 7, 0);
        b.place_piece(Piece { breed: Pieces::Knight, color: Color::White }, 7, 1);
        b.place_piece(Piece { breed: Pieces::Bishop, color: Color::White }, 7, 2);
        b.place_piece(Piece { breed: Pieces::Queen, color: Color::White }, 7, 3);
        b.place_piece(Piece { breed: Pieces::King, color: Color::White }, 7, 4);
        b.place_piece(Piece { breed: Pieces::Bishop, color: Color::White }, 7, 5);
        b.place_piece(Piece { breed: Pieces::Knight, color: Color::White }, 7, 6);
        b.place_piece(Piece { breed: Pieces::Rook, color: Color::White }, 7, 7);
        proof {
            assert(b@.grid =~= start_view().grid);
            assert(b@.white =~= start_view().white);
            assert(b@.black =~= start_view().black);
            assert(b@ =~= start_view());
        }
        b
    }

    /// Scans the color's index in square order and returns the first square
    /// whose entry is a King, or nothing when the color has no king.
    pub fn get_king_coord(&self, color: Color) -> (r: Option<Coordinate>)
        requires
            self@.wf(),
        ensures
            r == spec_king_coord(self@, color),
    {
        let slots: &Vec<Option<Piece>> = if color == Color::White {
            &self.white_pieces
        } else {
            &self.black_pieces
        };
        let mut i: usize = 0;
        while i < 64
            invariant
                i <= 64,
                slots@ == self@.slots_of(color),
                slots@.len() == 64,
                first_king(slots@, 0) == first_king(slots@, i as int),
            decreases 64 - i,
        {
            let entry: Option<Piece> = slots[i];
            match entry {
                Some(p) => {
                    if p.breed == Pieces::King {
                        let co = Coordinate { row: (i / 8) as i8, col: (i % 8) as i8 };
                        proof {
                            assert(first_king(slots@, i as int) == Some(i as int));
                        }
                        return Some(co);
                    }
                },
                None => {},
            }
            proof {
                assert(!king_entry(slots@, i as int));
                assert(first_king(slots@, i as int) == first_king(slots@, i as int + 1));
            }
            i += 1;
        }
        proof {
            assert(first_king(slots@, 64) is None);
        }
        None
    }
}

} // verus!
