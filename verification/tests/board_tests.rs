use chess_engine::board::Board;
use chess_engine::pieces::{Color, Coordinate, Piece, Pieces};

fn sq(row: usize, col: usize) -> usize {
    row * 8 + col
}

#[test]
fn new_board_is_empty_with_castling_rights() {
    let b = Board::new();
    for i in 0..64 {
        assert_eq!(b.board[i].breed, Pieces::Empty);
        assert!(b.white_pieces[i].is_none());
        assert!(b.black_pieces[i].is_none());
    }
    assert_eq!(b.turn, Color::White);
    assert!(b.castling_white_king_side);
    assert!(b.castling_white_queen_side);
    assert!(b.castling_black_king_side);
    assert!(b.castling_black_queen_side);
    assert!(b.last_2_moves_pawn.is_none());
    assert_eq!(b.get_fen(), "8/8/8/8/8/8/8/8 w KQkq - 0 1");
}

#[test]
fn clear_resets_castling_to_none() {
    let mut b = Board::new();
    b.place_piece(
        Piece { breed: Pieces::Queen, color: Color::Black },
        4,
        4,
    );
    b.clear();
    assert_eq!(b.board[sq(4, 4)].breed, Pieces::Empty);
    assert!(!b.castling_white_king_side);
    assert!(!b.castling_white_queen_side);
    assert!(!b.castling_black_king_side);
    assert!(!b.castling_black_queen_side);
    assert_eq!(b.get_fen(), "8/8/8/8/8/8/8/8 w  - 0 1");
}

#[test]
fn default_serializes_loaded_start_position() {
    // Loading discards the castling field, so the default board serializes
    // with an empty castling field, not with the rights of the canonical
    // starting text.
    let b = Board::default();
    assert_eq!(
        b.get_fen(),
        "rnbqkbnr/pppppppp/8/8/8/8/PPPPPPPP/RNBQKBNR w  - 0 1"
    );
}

#[test]
fn default_board_has_start_pieces() {
    let b = Board::default();
    assert_eq!(b.board[sq(0, 0)], Piece { breed: Pieces::Rook, color: Color::Black });
    assert_eq!(b.board[sq(0, 4)], Piece { breed: Pieces::King, color: Color::Black });
    assert_eq!(b.board[sq(1, 3)], Piece { breed: Pieces::Pawn, color: Color::Black });
    assert_eq!(b.board[sq(6, 7)], Piece { breed: Pieces::Pawn, color: Color::White });
    assert_eq!(b.board[sq(7, 3)], Piece { breed: Pieces::Queen, color: Color::White });
    assert_eq!(b.board[sq(4, 4)].breed, Pieces::Empty);
    assert_eq!(b.turn, Color::White);
}

#[test]
fn load_then_serialize_keeps_board_field() {
    let mut b = Board::new();
    let text = "8/2k5/8/8/4Q3/8/8/4K3 b - - 0 1";
    b.load_fen(text);
    let out = b.get_fen();
    let board_field: &str = out.split(' ').next().unwrap();
    assert_eq!(board_field, "8/2k5/8/8/4Q3/8/8/4K3");
    assert_eq!(out, "8/2k5/8/8/4Q3/8/8/4K3 b  - 0 1");

    // Reloading the serialized text reproduces the identical occupancy.
    let mut b2 = Board::new();
    b2.load_fen(&out);
    assert_eq!(b2.board, b.board);
    assert_eq!(b2.white_pieces, b.white_pieces);
    assert_eq!(b2.black_pieces, b.black_pieces);
}

#[test]
fn load_fen_sets_turn_and_discards_rest() {
    let mut b = Board::new();
    b.load_fen("8/8/8/8/8/8/8/8 b KQkq e3 42 9");
    assert_eq!(b.turn, Color::Black);
    assert!(!b.castling_white_king_side);
    assert!(b.last_2_moves_pawn.is_none());
    assert_eq!(b.get_fen(), "8/8/8/8/8/8/8/8 b  - 0 1");
}

#[test]
fn load_fen_tolerates_unrecognized_characters() {
    let mut b = Board::new();
    // Unrecognized letters consume one file each as empty placeholders.
    b.load_fen("xyz5/8/8/8/8/8/8/8 w - - 0 1");
    for i in 0..64 {
        assert_eq!(b.board[i].breed, Pieces::Empty);
    }
    // The placeholder placements leave index entries behind, like any other
    // placement.
    assert_eq!(b.white_pieces[0], Some(Piece { breed: Pieces::Empty, color: Color::White }));
    assert_eq!(b.white_pieces[1], Some(Piece { breed: Pieces::Empty, color: Color::White }));
    assert_eq!(b.white_pieces[2], Some(Piece { breed: Pieces::Empty, color: Color::White }));
    assert!(b.white_pieces[3].is_none());
    let out = b.get_fen();
    let board_field: &str = out.split(' ').next().unwrap();
    assert_eq!(board_field, "8/8/8/8/8/8/8/8");
}

#[test]
fn place_piece_keeps_stale_other_color_entry() {
    let mut b = Board::new();
    b.clear();
    b.place_piece(Piece { breed: Pieces::Pawn, color: Color::White }, 4, 4);
    b.place_piece(Piece { breed: Pieces::Pawn, color: Color::Black }, 4, 4);
    // The grid holds the black pawn, the black index gained its entry, and
    // the white index keeps its stale one: the documented gap.
    assert_eq!(b.board[sq(4, 4)], Piece { breed: Pieces::Pawn, color: Color::Black });
    assert_eq!(b.black_pieces[sq(4, 4)], Some(Piece { breed: Pieces::Pawn, color: Color::Black }));
    assert_eq!(b.white_pieces[sq(4, 4)], Some(Piece { breed: Pieces::Pawn, color: Color::White }));
}

#[test]
fn apply_move_returns_captured_piece_and_toggles_turn() {
    let mut b = Board::new();
    b.load_fen("8/8/8/3p4/8/3R4/8/8 w - - 0 1");
    let from = Coordinate { row: 5, col: 3 };
    let to = Coordinate { row: 3, col: 3 };
    let captured = b.apply_move(from, to);
    assert_eq!(captured, Some(Piece { breed: Pieces::Pawn, color: Color::Black }));
    assert_eq!(b.board[sq(3, 3)], Piece { breed: Pieces::Rook, color: Color::White });
    assert_eq!(b.board[sq(5, 3)].breed, Pieces::Empty);
    assert_eq!(b.turn, Color::Black);
    assert!(b.black_pieces[sq(3, 3)].is_none());
    assert_eq!(b.white_pieces[sq(3, 3)], Some(Piece { breed: Pieces::Rook, color: Color::White }));
}

#[test]
fn apply_move_double_push_sets_marker() {
    let mut b = Board::default();
    let captured = b.apply_move(Coordinate { row: 6, col: 4 }, Coordinate { row: 4, col: 4 });
    assert_eq!(captured, None);
    assert_eq!(b.last_2_moves_pawn, Some(Coordinate { row: 4, col: 4 }));
    // A later one-square move leaves the marker untouched.
    b.apply_move(Coordinate { row: 1, col: 0 }, Coordinate { row: 2, col: 0 });
    assert_eq!(b.last_2_moves_pawn, Some(Coordinate { row: 4, col: 4 }));
}

#[test]
fn apply_then_reverse_restores_board_and_indexes() {
    let mut b = Board::new();
    b.load_fen("8/8/8/3p4/8/3R4/8/8 w - - 0 1");
    let grid0 = b.board.clone();
    let white0 = b.white_pieces.clone();
    let black0 = b.black_pieces.clone();
    let from = Coordinate { row: 5, col: 3 };
    let to = Coordinate { row: 3, col: 3 };
    let captured = b.apply_move(from, to);
    b.apply_move(to, from);
    if let Some(p) = captured {
        b.place_piece(p, 3, 3);
    }
    assert_eq!(b.board, grid0);
    assert_eq!(b.white_pieces, white0);
    assert_eq!(b.black_pieces, black0);
}

#[test]
fn apply_then_reverse_restores_without_capture() {
    let mut b = Board::new();
    b.load_fen("8/8/8/8/8/3R4/8/8 w - - 0 1");
    let grid0 = b.board.clone();
    let white0 = b.white_pieces.clone();
    let black0 = b.black_pieces.clone();
    let from = Coordinate { row: 5, col: 3 };
    let to = Coordinate { row: 5, col: 7 };
    let captured = b.apply_move(from, to);
    assert_eq!(captured, None);
    b.apply_move(to, from);
    assert_eq!(b.board, grid0);
    assert_eq!(b.white_pieces, white0);
    assert_eq!(b.black_pieces, black0);
}

#[test]
fn get_king_coord_finds_each_king() {
    let b = Board::default();
    assert_eq!(b.get_king_coord(Color::White), Some(Coordinate { row: 7, col: 4 }));
    assert_eq!(b.get_king_coord(Color::Black), Some(Coordinate { row: 0, col: 4 }));
    let empty = {
        let mut e = Board::new();
        e.clear();
        e
    };
    assert_eq!(empty.get_king_coord(Color::White), None);
    assert_eq!(empty.get_king_coord(Color::Black), None);
}

#[test]
fn coordinate_to_string_is_algebraic() {
    assert_eq!(Coordinate { row: 3, col: 3 }.to_string(), "d5");
    assert_eq!(Coordinate { row: 7, col: 0 }.to_string(), "a1");
    assert_eq!(Coordinate { row: 0, col: 7 }.to_string(), "h8");
}

#[test]
fn serialized_marker_uses_algebraic_text() {
    let mut b = Board::default();
    b.apply_move(Coordinate { row: 6, col: 4 }, Coordinate { row: 4, col: 4 });
    let out = b.get_fen();
    let fields: Vec<&str> = out.split(' ').collect();
    assert_eq!(fields[3], "e4");
    assert_eq!(fields[1], "b");
}

#[test]
fn counters_serialize_in_decimal() {
    let mut b = Board::new();
    b.clear();
    b.halfmove_clock = 42;
    b.fullmove_number = 107;
    assert_eq!(b.get_fen(), "8/8/8/8/8/8/8/8 w  - 42 107");
}

#[test]
fn castling_letters_follow_flags() {
    let mut b = Board::new();
    b.clear();
    b.castling_white_queen_side = true;
    b.castling_black_king_side = true;
    assert_eq!(b.get_fen(), "8/8/8/8/8/8/8/8 w Qk - 0 1");
}
