//! The notation codec: a position is one line of text with six
//! space-separated fields — board layout, side to move, castling rights,
//! en-passant target, halfmove clock, fullmove number. Loading interprets
//! only the first two fields; serializing emits all six.
use vstd::prelude::*;
use vstd::string::StrSliceExecFns;
use vstd::string::StringExecFns;

use crate::board::{Board, BoardView};
use crate::pieces::{
    empty_piece, file_char, in_range, rank_char, sq, Color, Piece, Pieces,
};

verus! {

/// The letter of a non-empty occupant: upper case for White, lower for
/// Black.
pub open spec fn piece_char(p: Piece) -> char {
    match p.breed {
        Pieces::King => if p.color is White { 'K' } else { 'k' },
        Pieces::Queen => if p.color is White { 'Q' } else { 'q' },
        Pieces::Rook => if p.color is White { 'R' } else { 'r' },
        Pieces::Bishop => if p.color is White { 'B' } else { 'b' },
        Pieces::Knight => if p.color is White { 'N' } else { 'n' },
        Pieces::Pawn => if p.color is White { 'P' } else { 'p' },
        Pieces::Empty => ' ',
    }
}

pub open spec fn digit_char(n: int) -> char {
    if n == 0 { '0' }
    else if n == 1 { '1' }
    else if n == 2 { '2' }
    else if n == 3 { '3' }
    else if n == 4 { '4' }
    else if n == 5 { '5' }
    else if n == 6 { '6' }
    else if n == 7 { '7' }
    else if n == 8 { '8' }
    else { '9' }
}

/// The text of the cells from column `c` to the end of rank `r`, with
/// `pending` empty cells counted just before `c` and not yet emitted: runs
/// of empty cells become their count, occupants become their letters.
pub open spec fn rank_tail(g: Seq<Piece>, r: int, c: int, pending: int) -> Seq<char>
    decreases 8 - c,
{
    if c < 0 || c >= 8 {
        if pending > 0 {
            seq![digit_char(pending)]
        } else {
            seq![]
        }
    } else if g[sq(r, c)].breed is Empty {
        rank_tail(g, r, c + 1, pending + 1)
    } else if pending > 0 {
        seq![digit_char(pending), piece_char(g[sq(r, c)])] + rank_tail(g, r, c + 1, 0)
    } else {
        seq![piece_char(g[sq(r, c)])] + rank_tail(g, r, c + 1, 0)
    }
}

/// The board field from rank `r` down: ranks encoded by `rank_tail`,
/// separated by '/'.
pub open spec fn ranks_text(g: Seq<Piece>, r: int) -> Seq<char>
    decreases 8 - r,
{
    if r < 0 || r >= 8 {
        seq![]
    } else if r == 7 {
        rank_tail(g, 7, 0, 0)
    } else {
        rank_tail(g, r, 0, 0) + seq!['/'] + ranks_text(g, r + 1)
    }
}

/// The castling field: one letter per flag that is set, in the fixed order
/// K, Q, k, q; empty when none is set.
pub open spec fn castling_text(v: BoardView) -> Seq<char> {
    (if v.castling_white_king_side { seq!['K'] } else { Seq::empty() })
    + (if v.castling_white_queen_side { seq!['Q'] } else { Seq::empty() })
    + (if v.castling_black_king_side { seq!['k'] } else { Seq::empty() })
    + (if v.castling_black_queen_side { seq!['q'] } else { Seq::empty() })
}

/// The en-passant field: the marker square in algebraic text, or '-'.
pub open spec fn ep_text(v: BoardView) -> Seq<char> {
    match v.ep {
        None => seq!['-'],
        Some(c) => seq![file_char(c.col as int), rank_char(c.row as int)],
    }
}

/// Decimal text of a counter in 0..=127.
pub open spec fn dec_text(n: int) -> Seq<char> {
    if n >= 100 {
        seq![digit_char(n / 100), digit_char((n / 10) % 10), digit_char(n % 10)]
    } else if n >= 10 {
        seq![digit_char(n / 10), digit_char(n % 10)]
    } else {
        seq![digit_char(n)]
    }
}

/// The whole serialized position: the six fields, space-separated, in their
/// fixed order.
pub open spec fn fen_text(v: BoardView) -> Seq<char> {
    ranks_text(v.grid, 0) + seq![' ']
    + (if v.turn is White { seq!['w'] } else { seq!['b'] }) + seq![' ']
    + castling_text(v) + seq![' ']
    + ep_text(v) + seq![' ']
    + dec_text(v.halfmove) + seq![' ']
    + dec_text(v.fullmove)
}

/// The one-character text of a decimal digit.
fn digit_lit(d: u8) -> (s: &'static str)
    requires
        d <= 9,
    ensures
        s@ == seq![digit_char(d as int)],
{
    proof {
        reveal_strlit("0");
        reveal_strlit("1");
        reveal_strlit("2");
        reveal_strlit("3");
        reveal_strlit("4");
        reveal_strlit("5");
        reveal_strlit("6");
        reveal_strlit("7");
        reveal_strlit("8");
        reveal_strlit("9");
    }
    match d {
        0 => "0",
        1 => "1",
        2 => "2",
        3 => "3",
        4 => "4",
        5 => "5",
        6 => "6",
        7 => "7",
        8 => "8",
        _ => "9",
    }
}

/// The one-character text of a non-empty occupant.
fn piece_lit(p: Piece) -> (s: &'static str)
    requires
        p.breed !is Empty,
    ensures
        s@ == seq![piece_char(p)],
{
    proof {
        reveal_strlit("K");
        reveal_strlit("Q");
        reveal_strlit("R");
        reveal_strlit("B");
        reveal_strlit("N");
        reveal_strlit("P");
        reveal_strlit("k");
        reveal_strlit("q");
        reveal_strlit("r");
        reveal_strlit("b");
        reveal_strlit("n");
        reveal_strlit("p");
    }
    let white: bool = p.color == Color::White;
    match p.breed {
        Pieces::King => if white { "K" } else { "k" },
        Pieces::Queen => if white { "Q" } else { "q" },
        Pieces::Rook => if white { "R" } else { "r" },
        Pieces::Bishop => if white { "B" } else { "b" },
        Pieces::Knight => if white { "N" } else { "n" },
        _ => if white { "P" } else { "p" },
    }
}

/// Appends the decimal text of a counter.
fn push_dec(out: &mut String, n: i8)
    requires
        0 <= n,
    ensures
        final(out)@ == old(out)@ + dec_text(n as int),
{
    if n >= 100 {
        out.append(digit_lit((n / 100) as u8));
        out.append(digit_lit(((n / 10) % 10) as u8));
        out.append(digit_lit((n % 10) as u8));
    } else if n >= 10 {
        out.append(digit_lit((n / 10) as u8));
        out.append(digit_lit((n % 10) as u8));
    } else {
        out.append(digit_lit(n as u8));
    }
    proof {
        assert(final(out)@ =~= old(out)@ + dec_text(n as int));
    }
}

/// The parser's running state over the board field: the cursor and the
/// grid and indexes built so far.
pub ghost struct ParseSt {
    pub row: int,
    pub col: int,
    pub grid: Seq<Piece>,
    pub white: Seq<Option<Piece>>,
    pub black: Seq<Option<Piece>>,
}

/// The parser's state over a just-cleared board, at the top-left square.
pub open spec fn init_parse_st() -> ParseSt {
    ParseSt {
        row: 0,
        col: 0,
        grid: Seq::new(64, |i: int| empty_piece()),
        white: Seq::new(64, |i: int| None),
        black: Seq::new(64, |i: int| None),
    }
}

/// The digits that skip files in the board field.
pub open spec fn is_board_digit(ch: char) -> bool {
    ch == '1' || ch == '2' || ch == '3' || ch == '4' || ch == '5' || ch == '6' || ch == '7' || ch
        == '8'
}

pub open spec fn digit_val(ch: char) -> int {
    if ch == '1' { 1 }
    else if ch == '2' { 2 }
    else if ch == '3' { 3 }
    else if ch == '4' { 4 }
    else if ch == '5' { 5 }
    else if ch == '6' { 6 }
    else if ch == '7' { 7 }
    else { 8 }
}

/// The occupant a board-field letter places. An unrecognized character
/// places the empty occupant: it consumes its file rather than being
/// rejected.
pub open spec fn char_to_piece(ch: char) -> Piece {
    if ch == 'K' { Piece { breed: Pieces::King, color: Color::White } }
    else if ch == 'Q' { Piece { breed: Pieces::Queen, color: Color::White } }
    else if ch == 'R' { Piece { breed: Pieces::Rook, color: Color::White } }
    else if ch == 'B' { Piece { breed: Pieces::Bishop, color: Color::White } }
    else if ch == 'N' { Piece { breed: Pieces::Knight, color: Color::White } }
    else if ch == 'P' { Piece { breed: Pieces::Pawn, color: Color::White } }
    else if ch == 'k' { Piece { breed: Pieces::King, color: Color::Black } }
    else if ch == 'q' { Piece { breed: Pieces::Queen, color: Color::Black } }
    else if ch == 'r' { Piece { breed: Pieces::Rook, color: Color::Black } }
    else if ch == 'b' { Piece { breed: Pieces::Bishop, color: Color::Black } }
    else if ch == 'n' { Piece { breed: Pieces::Knight, color: Color::Black } }
    else if ch == 'p' { Piece { breed: Pieces::Pawn, color: Color::Black } }
    else { empty_piece() }
}

/// A character that places an occupant and consumes a file, as opposed to
/// the rank separator and the skip digits.
pub open spec fn is_placing(ch: char) -> bool {
    ch != '/' && !is_board_digit(ch)
}

/// One step of the board-field scan: '/' opens the next rank, a digit 1-8
/// skips that many files, and any other character places its occupant and
/// advances one file.
pub open spec fn parse_char(st: ParseSt, ch: char) -> ParseSt {
    if ch == '/' {
        ParseSt { row: st.row + 1, col: 0, ..st }
    } else if is_board_digit(ch) {
        ParseSt { col: st.col + digit_val(ch), ..st }
    } else {
        let p = char_to_piece(ch);
        if in_range(st.row, st.col) {
            if p.color is White {
                ParseSt {
                    col: st.col + 1,
                    grid: st.grid.update(sq(st.row, st.col), p),
                    white: st.white.update(sq(st.row, st.col), Some(p)),
                    ..st
                }
            } else {
                ParseSt {
                    col: st.col + 1,
                    grid: st.grid.update(sq(st.row, st.col), p),
                    black: st.black.update(sq(st.row, st.col), Some(p)),
                    ..st
                }
            }
        } else {
            ParseSt { col: st.col + 1, ..st }
        }
    }
}

/// The board-field scan folded over a text, left to right.
pub open spec fn parse_seq(st: ParseSt, s: Seq<char>) -> ParseSt
    decreases s.len(),
{
    if s.len() <= 0 {
        st
    } else {
        parse_seq(parse_char(st, s[0]), s.subrange(1, s.len() as int))
    }
}

/// Every placement the scan makes lands on the board. A text that would
/// place a piece off the board makes loading fail fatally.
pub open spec fn parse_valid(st: ParseSt, s: Seq<char>) -> bool
    decreases s.len(),
{
    if s.len() <= 0 {
        true
    } else {
        (is_placing(s[0]) ==> in_range(st.row, st.col)) && parse_valid(
            parse_char(st, s[0]),
            s.subrange(1, s.len() as int),
        )
    }
}

/// The first index at or after `from` holding `ch`, or the length.
pub open spec fn idx_of(s: Seq<char>, from: int, ch: char) -> int
    decreases s.len() - from,
{
    if from < 0 || from >= s.len() {
        s.len() as int
    } else if s[from] == ch {
        from
    } else {
        idx_of(s, from + 1, ch)
    }
}

/// How many times `ch` occurs at or after `from`.
pub open spec fn count_from(s: Seq<char>, from: int, ch: char) -> int
    decreases s.len() - from,
{
    if from < 0 || from >= s.len() {
        0
    } else {
        (if s[from] == ch { 1int } else { 0int }) + count_from(s, from + 1, ch)
    }
}

/// The board field: everything before the first space.
pub open spec fn board_field(s: Seq<char>) -> Seq<char> {
    s.take(idx_of(s, 0, ' '))
}

/// The side-to-move field: everything between the first and second spaces.
pub open spec fn turn_field(s: Seq<char>) -> Seq<char> {
    let sp1 = idx_of(s, 0, ' ');
    s.subrange(sp1 + 1, idx_of(s, sp1 + 1, ' '))
}

/// The texts `load_fen` accepts: six space-separated fields, a recognized
/// side-to-move token, and a board field whose placements stay on the
/// board. Anything else is a fatal precondition violation, not a
/// recoverable error, so it is excluded here.
pub open spec fn fen_loadable(s: Seq<char>) -> bool {
    &&& count_from(s, 0, ' ') >= 5
    &&& (turn_field(s) == seq!['w'] || turn_field(s) == seq!['b'])
    &&& parse_valid(init_parse_st(), board_field(s))
}

/// The board state that loading a text establishes: the scanned board field
/// over a cleared board, the given side to move, and everything else as
/// `clear` left it — no castling rights, no marker, counters 0 and 1.
pub open spec fn spec_load(s: Seq<char>) -> BoardView {
    let st = parse_seq(init_parse_st(), board_field(s));
    BoardView {
        grid: st.grid,
        turn: if turn_field(s) == seq!['w'] { Color::White } else { Color::Black },
        castling_black_king_side: false,
        castling_black_queen_side: false,
        castling_white_king_side: false,
        castling_white_queen_side: false,
        white: st.white,
        black: st.black,
        ep: None,
        halfmove: 0,
        fullmove: 1,
    }
}

/// Where `ch` occurs at or after `from`, `idx_of` lands on an occurrence
/// inside the text; either way it lies between `from` and the length, and
/// nothing before it matches.
pub proof fn lemma_idx_of(s: Seq<char>, from: int, ch: char)
    requires
        0 <= from <= s.len(),
    ensures
        from <= idx_of(s, from, ch) <= s.len(),
        idx_of(s, from, ch) < s.len() ==> s[idx_of(s, from, ch)] == ch,
        forall|j: int| from <= j < idx_of(s, from, ch) ==> s[j] != ch,
        count_from(s, from, ch) > 0 ==> idx_of(s, from, ch) < s.len(),
    decreases s.len() - from,
{
    if from < s.len() && s[from] != ch {
        lemma_idx_of(s, from + 1, ch);
    }
}

/// Scanning a text extended by one character is scanning the text, then
/// the character.
pub proof fn lemma_parse_push(st: ParseSt, s: Seq<char>, x: char)
    ensures
        parse_seq(st, s.push(x)) == parse_char(parse_seq(st, s), x),
    decreases s.len(),
{
    reveal_with_fuel(parse_seq, 3);
    if s.len() == 0 {
        assert(s.push(x)[0] == x);
        assert(s.push(x).subrange(1, s.push(x).len() as int) =~= Seq::<char>::empty());
    } else {
        assert(s.push(x)[0] == s[0]);
        assert(s.push(x).subrange(1, s.push(x).len() as int) =~= s.subrange(
            1,
            s.len() as int,
        ).push(x));
        lemma_parse_push(parse_char(st, s[0]), s.subrange(1, s.len() as int), x);
    }
}

/// A file or rank cursor capped at 8: past the board's edge only the fact
/// that it left the board matters, never by how much.
pub open spec fn clamp8(x: int) -> int {
    if x >= 8 {
        8
    } else {
        x
    }
}

/// What remains of the board field after one rank's own text: the
/// separator and the later ranks, or nothing after the last rank.
pub open spec fn tail_rest(g: Seq<Piece>, r: int) -> Seq<char> {
    if r < 7 {
        seq!['/'] + ranks_text(g, r + 1)
    } else {
        Seq::empty()
    }
}

impl Board {
    /// Appends the run-length-encoded board field: each rank's cells, empty
    /// runs as counts, ranks separated by '/'.
    fn push_board_text(&self, out: &mut String)
        requires
            self@.wf(),
        ensures
            final(out)@ == old(out)@ + ranks_text(self@.grid, 0),
    {
        let ghost g = self@.grid;
        let mut r: usize = 0;
        while r < 8
            invariant
                self@.wf(),
                g == self@.grid,
                r <= 8,
                old(out)@ + ranks_text(g, 0) == out@ + ranks_text(g, r as int),
            decreases 8 - r,
        {
            proof {
                reveal_strlit("/");
            }
            let mut c: usize = 0;
            let mut pending: u8 = 0;
            proof {
                assert(old(out)@ + ranks_text(g, 0) =~= out@ + rank_tail(g, r as int, 0, 0)
                    + tail_rest(g, r as int));
            }
            while c < 8
                invariant
                    self@.wf(),
                    g == self@.grid,
                    r < 8,
                    c <= 8,
                    pending <= c,
                    old(out)@ + ranks_text(g, 0) == out@ + rank_tail(
                        g,
                        r as int,
                        c as int,
                        pending as int,
                    ) + tail_rest(g, r as int),
                decreases 8 - c,
            {
                let cell: Piece = self.board[r * 8 + c];
                if cell.breed == Pieces::Empty {
                    pending = pending + 1;
                } else {
                    if pending > 0 {
                        out.append(digit_lit(pending));
                        proof {
                            assert(seq![digit_char(pending as int), piece_char(g[sq(r as int, c as int)])]
                                =~= seq![digit_char(pending as int)] + seq![piece_char(g[sq(r as int, c as int)])]);
                        }
                    }
                    out.append(piece_lit(cell));
                    pending = 0;
                    proof {
                        assert(old(out)@ + ranks_text(g, 0) =~= out@ + rank_tail(
                            g,
                            r as int,
                            c as int + 1,
                            0,
                        ) + tail_rest(g, r as int));
                    }
                }
                c = c + 1;
            }
            if pending > 0 {
                out.append(digit_lit(pending));
                proof {
                    assert(old(out)@ + ranks_text(g, 0) =~= out@ + tail_rest(g, r as int));
                }
            } else {
                proof {
                    assert(old(out)@ + ranks_text(g, 0) =~= out@ + tail_rest(g, r as int));
                }
            }
            if r != 7 {
                out.append("/");
                proof {
                    assert(old(out)@ + ranks_text(g, 0) =~= out@ + ranks_text(g, r as int + 1));
                }
            }
            r = r + 1;
        }
    }

    /// Loads a position from its text: splits on spaces, takes the side to
    /// move from the second field, and scans the first field into the
    /// cleared board. The castling, en-passant and counter fields are read
    /// but discarded: those parts of the state keep what `clear` set.
    pub fn load_fen(&mut self, fen: &str)
        requires
            fen_loadable(fen@),
        ensures
            final(self)@ == spec_load(fen@),
            final(self)@.wf(),
    {
        let ghost s = fen@;
        let n: usize = fen.unicode_len();
        let mut sp1: usize = 0;
        while sp1 < n && fen.get_char(sp1) != ' '
            invariant
                s == fen@,
                n == s.len(),
                sp1 <= n,
                idx_of(s, 0, ' ') == idx_of(s, sp1 as int, ' '),
            decreases n - sp1,
        {
            sp1 += 1;
        }
        proof {
            assert(idx_of(s, sp1 as int, ' ') == sp1 as int);
            lemma_idx_of(s, 0, ' ');
            assert(sp1 < n);
            lemma_idx_of(s, sp1 as int + 1, ' ');
            assert(turn_field(s).len() == 1);
            assert(turn_field(s)[0] == s[sp1 as int + 1]);
        }
        let t: char = fen.get_char(sp1 + 1);
        self.clear();
        if t == 'w' {
            self.turn = Color::White;
            proof {
                assert(turn_field(s) =~= seq!['w']);
            }
        } else {
            self.turn = Color::Black;
            proof {
                assert(turn_field(s) != seq!['w']);
            }
        }
        let ghost bf = board_field(s);
        proof {
            assert(bf.len() == sp1 as int);
            assert(bf.take(0) =~= Seq::<char>::empty());
            assert(bf.skip(0) =~= bf);
            assert(self@.grid =~= init_parse_st().grid);
            assert(self@.white =~= init_parse_st().white);
            assert(self@.black =~= init_parse_st().black);
        }
        let mut i: usize = 0;
        let mut prow: u8 = 0;
        let mut pcol: u8 = 0;
        while i < sp1
            invariant
                self@.wf(),
                s == fen@,
                n == s.len(),
                sp1 <= n,
                bf == board_field(s),
                bf.len() == sp1 as int,
                forall|j: int| 0 <= j < sp1 ==> bf[j] == s[j],
                i <= sp1,
                ({
                    let st = parse_seq(init_parse_st(), bf.take(i as int));
                    &&& st.row >= 0
                    &&& st.col >= 0
                    &&& prow as int == clamp8(st.row)
                    &&& pcol as int == clamp8(st.col)
                    &&& self@.grid == st.grid
                    &&& self@.white == st.white
                    &&& self@.black == st.black
                    &&& parse_valid(st, bf.skip(i as int))
                }),
                self@.turn == (if turn_field(s) == seq!['w'] {
                    Color::White
                } else {
                    Color::Black
                }),
                !self@.castling_black_king_side,
                !self@.castling_black_queen_side,
                !self@.castling_white_king_side,
                !self@.castling_white_queen_side,
                self@.ep is None,
                self@.halfmove == 0,
                self@.fullmove == 1,
            decreases sp1 - i,
        {
            let ch: char = fen.get_char(i);
            proof {
                assert(bf[i as int] == s[i as int]);
                assert(bf.take(i as int + 1) =~= bf.take(i as int).push(bf[i as int]));
                lemma_parse_push(init_parse_st(), bf.take(i as int), bf[i as int]);
                assert(bf.skip(i as int)[0] == bf[i as int]);
                assert(bf.skip(i as int).subrange(1, bf.skip(i as int).len() as int) =~= bf.skip(
                    i as int + 1,
                ));
            }
            if ch == '/' {
                if prow < 8 {
                    prow = prow + 1;
                }
                pcol = 0;
            } else {
                let d: u8 = match ch {
                    '1' => 1,
                    '2' => 2,
                    '3' => 3,
                    '4' => 4,
                    '5' => 5,
                    '6' => 6,
                    '7' => 7,
                    '8' => 8,
                    _ => 0,
                };
                if d > 0 {
                    pcol = if pcol + d > 8 {
                        8
                    } else {
                        pcol + d
                    };
                } else {
                    let p: Piece = match ch {
                        'K' => Piece { breed: Pieces::King, color: Color::White },
                        'Q' => Piece { breed: Pieces::Queen, color: Color::White },
                        'R' => Piece { breed: Pieces::Rook, color: Color::White },
                        'B' => Piece { breed: Pieces::Bishop, color: Color::White },
                        'N' => Piece { breed: Pieces::Knight, color: Color::White },
                        'P' => Piece { breed: Pieces::Pawn, color: Color::White },
                        'k' => Piece { breed: Pieces::King, color: Color::Black },
                        'q' => Piece { breed: Pieces::Queen, color: Color::Black },
                        'r' => Piece { breed: Pieces::Rook, color: Color::Black },
                        'b' => Piece { breed: Pieces::Bishop, color: Color::Black },
                        'n' => Piece { breed: Pieces::Knight, color: Color::Black },
                        'p' => Piece { breed: Pieces::Pawn, color: Color::Black },
                        _ => Piece { breed: Pieces::Empty, color: Color::White },
                    };
                    proof {
                        assert(is_placing(bf[i as int]));
                        assert(p == char_to_piece(bf[i as int]));
                    }
                    self.place_piece(p, prow as usize, pcol as usize);
                    pcol = pcol + 1;
                }
            }
            i += 1;
        }
        proof {
            assert(bf.take(sp1 as int) =~= bf);
            assert(self@ =~= spec_load(s));
        }
    }

    /// Serializes the position: the run-length-encoded board ranks, side to
    /// move, the set castling-rights letters, the en-passant marker or '-',
    /// and the two counters, space-separated.
    #[verifier::rlimit(60)]
    pub fn get_fen(&self) -> (s: String)
        requires
            self@.wf(),
        ensures
            s@ == fen_text(self@),
    {
        proof {
            reveal_strlit(" ");
            reveal_strlit("w");
            reveal_strlit("b");
            reveal_strlit("K");
            reveal_strlit("Q");
            reveal_strlit("k");
            reveal_strlit("q");
            reveal_strlit("-");
        }
        let mut out = String::new();
        self.push_board_text(&mut out);
        out.append(" ");
        if self.turn == Color::White {
            out.append("w");
        } else {
            out.append("b");
        }
        out.append(" ");
        if self.castling_white_king_side {
            out.append("K");
        }
        if self.castling_white_queen_side {
            out.append("Q");
        }
        if self.castling_black_king_side {
            out.append("k");
        }
        if self.castling_black_queen_side {
            out.append("q");
        }
        out.append(" ");
        match self.last_2_moves_pawn {
            None => {
                out.append("-");
            },
            Some(marker) => {
                let text = marker.to_string();
                out.append(text.as_str());
            },
        }
        out.append(" ");
        push_dec(&mut out, self.halfmove_clock);
        out.append(" ");
        push_dec(&mut out, self.fullmove_number);
        proof {
            assert(out@ =~= fen_text(self@));
        }
        out
    }
}

} // verus!
