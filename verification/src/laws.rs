//! The library's stated laws: facts that relate several operations, proved
//! once and for all boards they speak of.
use vstd::prelude::*;

use crate::board::{
    index_consistent, spec_apply, spec_captured, spec_king_coord, spec_place, BoardView,
};
use crate::fen::{
    board_field, castling_text, char_to_piece, count_from, dec_text, digit_char, digit_val,
    ep_text, fen_loadable, fen_text, idx_of, init_parse_st, is_board_digit, is_placing,
    parse_char, parse_seq, parse_valid, piece_char, rank_tail, ranks_text, spec_load, turn_field,
    ParseSt,
};
use crate::movegen::{spec_checkmate, spec_pseudo_dest};
use crate::pieces::{coord_in_range, empty_piece, Color, Coordinate, Piece, Pieces, sq};

verus! {

/// Two grids describe the same occupancy: empty exactly together, and
/// equal wherever occupied. The color a vacated cell's sentinel carries is
/// not part of the occupancy.
pub open spec fn same_occupancy(g1: Seq<Piece>, g2: Seq<Piece>) -> bool {
    g1.len() == g2.len() && forall|i: int|
        0 <= i < g1.len() ==> {
            &&& ((#[trigger] g1[i]).breed is Empty <==> (#[trigger] g2[i]).breed is Empty)
            &&& (g1[i].breed !is Empty ==> g1[i] == g2[i])
        }
}

/// A White pawn at its home rank moves one and two squares forward when the
/// path is empty, and has no forward destination at all when the square
/// right ahead is occupied — no two-square destination either, whatever
/// lies beyond.
pub proof fn lemma_pawn_home_forward(v: BoardView, from: Coordinate)
    requires
        v.wf(),
        coord_in_range(from),
        from.row == 6,
        v.at(6, from.col as int) == (Piece { breed: Pieces::Pawn, color: Color::White }),
    ensures
        (v.empty_at(5, from.col as int) && v.empty_at(4, from.col as int)) ==> spec_pseudo_dest(
            v,
            from,
            (Coordinate { row: 5, col: from.col }),
        ) && spec_pseudo_dest(v, from, (Coordinate { row: 4, col: from.col })),
        !v.empty_at(5, from.col as int) ==> (forall|to: Coordinate|
            to.col == from.col ==> !spec_pseudo_dest(v, from, to)),
{
    if !v.empty_at(5, from.col as int) {
        assert forall|to: Coordinate| to.col == from.col implies !spec_pseudo_dest(v, from, to) by {}
    }
}

/// A color with no king on the board is never in the restricted checkmate
/// condition.
pub proof fn lemma_no_king_no_checkmate(v: BoardView, color: Color)
    requires
        spec_king_coord(v, color) is None,
    ensures
        !spec_checkmate(v, color),
{
}

/// Applying a move, applying the reverse coordinate pair, and re-placing a
/// captured piece at the destination restores the grid occupancy and both
/// color indexes, and never touches the castling flags or the counters. The
/// turn marker and the en-passant marker are exempt.
pub proof fn lemma_apply_move_reversible(v: BoardView, from: Coordinate, to: Coordinate)
    requires
        v.wf(),
        index_consistent(v),
        coord_in_range(from),
        coord_in_range(to),
        from != to,
        v.at(from.row as int, from.col as int).breed !is Empty,
    ensures
        ({
            let v1 = spec_apply(v, from, to);
            let v2 = spec_apply(v1, to, from);
            let v3 = match spec_captured(v, from, to) {
                Some(p) => spec_place(v2, p, to.row as int, to.col as int),
                None => v2,
            };
            &&& same_occupancy(v3.grid, v.grid)
            &&& v3.white == v.white
            &&& v3.black == v.black
            &&& v3.castling_black_king_side == v.castling_black_king_side
            &&& v3.castling_black_queen_side == v.castling_black_queen_side
            &&& v3.castling_white_king_side == v.castling_white_king_side
            &&& v3.castling_white_queen_side == v.castling_white_queen_side
            &&& v3.halfmove == v.halfmove
            &&& v3.fullmove == v.fullmove
        }),
{
    let si = sq(from.row as int, from.col as int);
    let ei = sq(to.row as int, to.col as int);
    assert(si != ei);
    let v1 = spec_apply(v, from, to);
    let v2 = spec_apply(v1, to, from);
    let v3 = match spec_captured(v, from, to) {
        Some(p) => spec_place(v2, p, to.row as int, to.col as int),
        None => v2,
    };
    assert(v3.white =~= v.white);
    assert(v3.black =~= v.black);
}

/// The guarded move path keeps the grid and the two indexes in lockstep:
/// applying any move between distinct squares, with a real mover, to a
/// consistent board yields a consistent board. Only placements that
/// overwrite the other color outside this path can break the
/// correspondence.
pub proof fn lemma_apply_keeps_index_consistent(v: BoardView, from: Coordinate, to: Coordinate)
    requires
        v.wf(),
        index_consistent(v),
        coord_in_range(from),
        coord_in_range(to),
        from != to,
        v.at(from.row as int, from.col as int).breed !is Empty,
    ensures
        index_consistent(spec_apply(v, from, to)),
{
    let si = sq(from.row as int, from.col as int);
    let ei = sq(to.row as int, to.col as int);
    assert(si != ei);
}

/// A character the board field gives a meaning of its own: the rank
/// separator, a skip digit, or one of the twelve piece letters.
pub open spec fn recognized_char(ch: char) -> bool {
    ch == '/' || is_board_digit(ch) || char_to_piece(ch).breed !is Empty
}

/// Every cell that holds the sentinel breed holds the one canonical empty
/// occupant. Loading establishes this; serialization then loses nothing.
pub open spec fn canonical_empties(g: Seq<Piece>) -> bool {
    forall|i: int| 0 <= i < g.len() ==> ((#[trigger] g[i]).breed is Empty ==> g[i] == empty_piece())
}

pub proof fn lemma_count_nonneg(s: Seq<char>, from: int, ch: char)
    ensures
        count_from(s, from, ch) >= 0,
    decreases s.len() - from,
{
    if 0 <= from < s.len() {
        lemma_count_nonneg(s, from + 1, ch);
    }
}

/// An occurrence at `k` contributes to every count that starts at or before
/// it.
pub proof fn lemma_count_pos(s: Seq<char>, from: int, k: int, ch: char)
    requires
        0 <= from <= k < s.len(),
        s[k] == ch,
    ensures
        count_from(s, from, ch) >= 1 + count_from(s, k + 1, ch),
    decreases k - from,
{
    if from < k {
        lemma_count_pos(s, from + 1, k, ch);
        lemma_count_nonneg(s, from + 1, ch);
    }
}

/// `idx_of` lands exactly on the first occurrence.
pub proof fn lemma_idx_at(s: Seq<char>, from: int, k: int, ch: char)
    requires
        0 <= from <= k <= s.len(),
        forall|j: int| from <= j < k ==> s[j] != ch,
        k < s.len() ==> s[k] == ch,
    ensures
        idx_of(s, from, ch) == (if k == s.len() { s.len() as int } else { k }),
    decreases k - from,
{
    if from < k {
        lemma_idx_at(s, from + 1, k, ch);
    }
}

/// Scanning a concatenation scans the first part, then the second; it is
/// valid exactly when each part is valid from its own starting state.
pub proof fn lemma_parse_split(st: ParseSt, a: Seq<char>, b: Seq<char>)
    ensures
        parse_seq(st, a + b) == parse_seq(parse_seq(st, a), b),
        parse_valid(st, a + b) == (parse_valid(st, a) && parse_valid(parse_seq(st, a), b)),
    decreases a.len(),
{
    if a.len() == 0 {
        assert(a + b =~= b);
    } else {
        assert((a + b)[0] == a[0]);
        assert((a + b).subrange(1, (a + b).len() as int) =~= a.subrange(1, a.len() as int) + b);
        lemma_parse_split(parse_char(st, a[0]), a.subrange(1, a.len() as int), b);
    }
}

/// The text of one rank never holds a space, and holds recognized
/// characters only.
pub proof fn lemma_rank_tail_chars(g: Seq<Piece>, r: int, c: int, pending: int)
    requires
        g.len() == 64,
        0 <= r < 8,
        0 <= pending <= c <= 8,
    ensures
        forall|j: int|
            0 <= j < rank_tail(g, r, c, pending).len() ==> recognized_char(
                #[trigger] rank_tail(g, r, c, pending)[j],
            ) && rank_tail(g, r, c, pending)[j] != ' ' && rank_tail(g, r, c, pending)[j] != '/',
    decreases 8 - c,
{
    if c >= 8 {
        let whole = rank_tail(g, r, c, pending);
        assert forall|j: int| 0 <= j < whole.len() implies recognized_char(#[trigger] whole[j])
            && whole[j] != ' ' && whole[j] != '/' by {
            assert(whole[j] == digit_char(pending));
            assert(is_board_digit(digit_char(pending)));
        }
    } else if g[sq(r, c)].breed is Empty {
        lemma_rank_tail_chars(g, r, c + 1, pending + 1);
        let t = rank_tail(g, r, c + 1, pending + 1);
        let whole = rank_tail(g, r, c, pending);
        assert forall|j: int| 0 <= j < whole.len() implies recognized_char(#[trigger] whole[j])
            && whole[j] != ' ' && whole[j] != '/' by {
            assert(whole[j] == t[j]);
        }
    } else {
        lemma_rank_tail_chars(g, r, c + 1, 0);
        let t = rank_tail(g, r, c + 1, 0);
        let whole = rank_tail(g, r, c, pending);
        let head: int = if pending > 0 {
            2
        } else {
            1
        };
        assert forall|j: int| 0 <= j < whole.len() implies recognized_char(#[trigger] whole[j])
            && whole[j] != ' ' && whole[j] != '/' by {
            if j >= head {
                assert(whole[j] == t[j - head]);
            }
        }
    }
}

/// The whole board field never holds a space, and holds recognized
/// characters only.
pub proof fn lemma_ranks_chars(g: Seq<Piece>, r: int)
    requires
        g.len() == 64,
    ensures
        forall|j: int|
            0 <= j < ranks_text(g, r).len() ==> recognized_char(#[trigger] ranks_text(g, r)[j])
                && ranks_text(g, r)[j] != ' ',
    decreases 8 - r,
{
    if 0 <= r < 8 {
        lemma_rank_tail_chars(g, r, 0, 0);
        if r < 7 {
            lemma_ranks_chars(g, r + 1);
            let a = rank_tail(g, r, 0, 0);
            let b = ranks_text(g, r + 1);
            let whole = ranks_text(g, r);
            assert(whole == a + seq!['/'] + b);
            assert forall|j: int| 0 <= j < whole.len() implies recognized_char(#[trigger] whole[j])
                && whole[j] != ' ' by {
                if j < a.len() {
                    assert(whole[j] == a[j]);
                } else if j == a.len() {
                    assert(whole[j] == '/');
                } else {
                    assert(whole[j] == b[j - a.len() - 1]);
                }
            }
        }
    }
}

/// Scanning any text over a 64-cell grid with canonical empties keeps both.
pub proof fn lemma_parse_canonical(st: ParseSt, t: Seq<char>)
    requires
        st.grid.len() == 64,
        canonical_empties(st.grid),
    ensures
        parse_seq(st, t).grid.len() == 64,
        canonical_empties(parse_seq(st, t).grid),
    decreases t.len(),
{
    if t.len() > 0 {
        lemma_parse_canonical(parse_char(st, t[0]), t.subrange(1, t.len() as int));
    }
}

/// Scanning the text of one rank back in reproduces exactly the cells of
/// that rank and touches nothing else: the cursor crosses the rank, the
/// cells up to and including the rank now agree with the source grid, and
/// the cells after it are still untouched.
#[verifier::rlimit(100)]
#[verifier::spinoff_prover]
pub proof fn lemma_rank_round_trip(g: Seq<Piece>, r: int, c: int, pending: int, st: ParseSt)
    requires
        g.len() == 64,
        canonical_empties(g),
        0 <= r < 8,
        0 <= pending <= c <= 8,
        st.row == r,
        st.col == c - pending,
        forall|j: int| c - pending <= j < c ==> g[sq(r, j)].breed is Empty,
        st.grid.len() == 64,
        forall|i: int| 0 <= i < sq(r, c - pending) ==> st.grid[i] == g[i],
        forall|i: int| sq(r, c - pending) <= i < 64 ==> st.grid[i] == empty_piece(),
    ensures
        ({
            let st2 = parse_seq(st, rank_tail(g, r, c, pending));
            &&& st2.row == r
            &&& st2.col == 8
            &&& st2.grid.len() == 64
            &&& forall|i: int| 0 <= i < sq(r, 8) ==> st2.grid[i] == g[i]
            &&& forall|i: int| sq(r, 8) <= i < 64 ==> st2.grid[i] == empty_piece()
            &&& parse_valid(st, rank_tail(g, r, c, pending))
        }),
    decreases 8 - c,
{
    reveal_with_fuel(parse_seq, 4);
    reveal_with_fuel(parse_valid, 4);
    if c >= 8 {
        if pending > 0 {
            let d = digit_char(pending);
            assert(is_board_digit(d) && digit_val(d) == pending);
            assert(seq![d].subrange(1, 1) =~= Seq::<char>::empty());
            let st2 = parse_seq(st, rank_tail(g, r, c, pending));
            assert(st2 == parse_char(st, d));
            assert forall|i: int| 0 <= i < sq(r, 8) implies st2.grid[i] == g[i] by {
                if sq(r, c - pending) <= i {
                    let j = i - sq(r, 0);
                    assert(g[sq(r, j)].breed is Empty);
                    assert(g[i] == empty_piece());
                }
            }
        } else {
            let st2 = parse_seq(st, rank_tail(g, r, c, pending));
            assert(st2 == st);
        }
    } else if g[sq(r, c)].breed is Empty {
        lemma_rank_round_trip(g, r, c + 1, pending + 1, st);
    } else {
        let cell = g[sq(r, c)];
        let pc = piece_char(cell);
        assert(is_placing(pc));
        assert(char_to_piece(pc) == cell);
        if pending > 0 {
            let d = digit_char(pending);
            assert(is_board_digit(d) && digit_val(d) == pending);
            let head = seq![d, pc];
            let tail = rank_tail(g, r, c + 1, 0);
            assert(rank_tail(g, r, c, pending) == head + tail);
            lemma_parse_split(st, head, tail);
            assert(head.subrange(1, 2) =~= seq![pc]);
            assert(seq![pc].subrange(1, 1) =~= Seq::<char>::empty());
            let st1 = parse_seq(st, head);
            assert(st1 == parse_char(parse_char(st, d), pc));
            assert forall|i: int| 0 <= i < sq(r, c + 1) implies st1.grid[i] == g[i] by {
                if sq(r, c - pending) <= i < sq(r, c) {
                    let j = i - sq(r, 0);
                    assert(g[sq(r, j)].breed is Empty);
                    assert(g[i] == empty_piece());
                }
            }
            lemma_rank_round_trip(g, r, c + 1, 0, st1);
            assert(parse_valid(st, head));
        } else {
            let head = seq![pc];
            let tail = rank_tail(g, r, c + 1, 0);
            assert(rank_tail(g, r, c, pending) == head + tail);
            lemma_parse_split(st, head, tail);
            assert(head.subrange(1, 1) =~= Seq::<char>::empty());
            let st1 = parse_seq(st, head);
            assert(st1 == parse_char(st, pc));
            lemma_rank_round_trip(g, r, c + 1, 0, st1);
            assert(parse_valid(st, head));
        }
    }
}

/// Scanning the serialized board field from rank `r` down reproduces the
/// grid from that rank on.
pub proof fn lemma_board_round_trip(g: Seq<Piece>, r: int, st: ParseSt)
    requires
        g.len() == 64,
        canonical_empties(g),
        0 <= r < 8,
        st.row == r,
        st.col == 0,
        st.grid.len() == 64,
        forall|i: int| 0 <= i < sq(r, 0) ==> st.grid[i] == g[i],
        forall|i: int| sq(r, 0) <= i < 64 ==> st.grid[i] == empty_piece(),
    ensures
        ({
            let st2 = parse_seq(st, ranks_text(g, r));
            &&& st2.grid.len() == 64
            &&& forall|i: int| 0 <= i < 64 ==> st2.grid[i] == g[i]
            &&& parse_valid(st, ranks_text(g, r))
        }),
    decreases 8 - r,
{
    reveal_with_fuel(parse_seq, 4);
    reveal_with_fuel(parse_valid, 4);
    lemma_rank_round_trip(g, r, 0, 0, st);
    if r == 7 {
        assert forall|i: int| 0 <= i < 64 implies parse_seq(st, ranks_text(g, 7)).grid[i] == g[i] by {
            assert(sq(7, 8) == 64);
        }
    } else {
        let a = rank_tail(g, r, 0, 0);
        let rest = seq!['/'] + ranks_text(g, r + 1);
        assert(ranks_text(g, r) == a + rest);
        lemma_parse_split(st, a, rest);
        let st1 = parse_seq(st, a);
        lemma_parse_split(st1, seq!['/'], ranks_text(g, r + 1));
        assert(seq!['/'].subrange(1, 1) =~= Seq::<char>::empty());
        let st1b = parse_seq(st1, seq!['/']);
        assert(st1b == parse_char(st1, '/'));
        assert(st1b.row == r + 1 && st1b.col == 0);
        assert forall|i: int| 0 <= i < sq(r + 1, 0) implies st1b.grid[i] == g[i] by {
            assert(sq(r, 8) == sq(r + 1, 0));
        }
        lemma_board_round_trip(g, r + 1, st1b);
    }
}

/// Loading a text, serializing the loaded board, and loading the result
/// reproduces the identical board occupancy: the codec loses no occupancy
/// information on texts whose board field holds recognized characters only.
/// The castling, en-passant and counter fields are not claimed to round
/// trip: loading discards them.
pub proof fn lemma_load_serialize_round_trip(s: Seq<char>)
    requires
        fen_loadable(s),
        forall|j: int|
            0 <= j < board_field(s).len() ==> recognized_char(#[trigger] board_field(s)[j]),
    ensures
        fen_loadable(fen_text(spec_load(s))),
        spec_load(fen_text(spec_load(s))).grid == spec_load(s).grid,
{
    let v = spec_load(s);
    let g = v.grid;
    lemma_parse_canonical(init_parse_st(), board_field(s));
    assert(canonical_empties(init_parse_st().grid));
    assert(g.len() == 64 && canonical_empties(g));
    let t2 = fen_text(v);
    let rt = ranks_text(g, 0);
    lemma_ranks_chars(g, 0);

    // Field geometry of the serialized text: the board part, then the five
    // space-separated suffix fields.
    let turn_c: char = if v.turn is White { 'w' } else { 'b' };
    assert(t2 =~= rt + seq![' '] + (if v.turn is White { seq!['w'] } else { seq!['b'] })
        + seq![' '] + castling_text(v) + seq![' '] + ep_text(v) + seq![' ']
        + dec_text(v.halfmove) + seq![' '] + dec_text(v.fullmove));
    let bl = rt.len() as int;
    assert(t2[bl] == ' ');
    assert(t2[bl + 1] == turn_c);
    assert(t2[bl + 2] == ' ');
    assert forall|j: int| 0 <= j < bl implies t2[j] != ' ' by {
        assert(t2[j] == rt[j]);
    }
    lemma_idx_at(t2, 0, bl, ' ');
    assert(idx_of(t2, 0, ' ') == bl);
    assert(board_field(t2) =~= rt);
    lemma_idx_at(t2, bl + 1, bl + 2, ' ');
    assert(idx_of(t2, bl + 1, ' ') == bl + 2);
    assert(turn_field(t2) =~= seq![turn_c]);

    // At least five spaces: the five separators.
    let cl = castling_text(v).len() as int;
    let el = ep_text(v).len() as int;
    let dl = dec_text(v.halfmove).len() as int;
    assert(t2[bl + 3 + cl] == ' ');
    assert(t2[bl + 4 + cl + el] == ' ');
    assert(t2[bl + 5 + cl + el + dl] == ' ');
    lemma_count_nonneg(t2, bl + 6 + cl + el + dl, ' ');
    lemma_count_pos(t2, bl + 5 + cl + el, bl + 5 + cl + el + dl, ' ');
    lemma_count_pos(t2, bl + 4 + cl, bl + 4 + cl + el, ' ');
    lemma_count_pos(t2, bl + 3, bl + 3 + cl, ' ');
    lemma_count_pos(t2, bl + 1, bl + 2, ' ');
    lemma_count_pos(t2, 0, bl, ' ');
    assert(count_from(t2, 0, ' ') >= 5);

    // The reloaded grid.
    lemma_board_round_trip(g, 0, init_parse_st());
    assert(parse_valid(init_parse_st(), board_field(t2)));
    assert(fen_loadable(t2));
    assert(spec_load(t2).grid =~= g);
}

} // verus!
