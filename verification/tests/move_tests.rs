use chess_engine::board::Board;
use chess_engine::pieces::{Color, Coordinate};

fn co(row: i8, col: i8) -> Coordinate {
    Coordinate { row, col }
}

#[test]
fn lone_rook_has_fourteen_destinations() {
    let mut b = Board::new();
    b.load_fen("8/8/8/3R4/8/8/8/8 w - - 0 1");
    let moves = b.get_moves(3, 3);
    assert_eq!(moves.len(), 14);
    for c in 0..8i8 {
        if c != 3 {
            assert!(moves.contains(&co(3, c)));
        }
    }
    for r in 0..8i8 {
        if r != 3 {
            assert!(moves.contains(&co(r, 3)));
        }
    }
}

#[test]
fn lone_bishop_slides_diagonally() {
    let mut b = Board::new();
    b.load_fen("8/8/8/8/8/8/8/B7 w - - 0 1");
    let moves = b.get_moves(7, 0);
    assert_eq!(moves.len(), 7);
    for d in 1..8i8 {
        assert!(moves.contains(&co(7 - d, d)));
    }
}

#[test]
fn rook_ray_stops_at_first_occupant() {
    let mut b = Board::new();
    b.load_fen("8/8/8/1p1R1P2/8/8/8/8 w - - 0 1");
    let moves = b.get_moves(3, 3);
    // Left: squares c5, b5 with the black pawn captured at b5; right: only
    // e5, the friendly pawn at f5 blocks; plus the full file.
    assert!(moves.contains(&co(3, 2)));
    assert!(moves.contains(&co(3, 1)));
    assert!(!moves.contains(&co(3, 0)));
    assert!(moves.contains(&co(3, 4)));
    assert!(!moves.contains(&co(3, 5)));
    assert_eq!(moves.len(), 3 + 7);
}

#[test]
fn knight_in_corner_has_two_jumps() {
    let mut b = Board::new();
    b.load_fen("N7/8/8/8/8/8/8/8 w - - 0 1");
    let moves = b.get_moves(0, 0);
    assert_eq!(moves.len(), 2);
    assert!(moves.contains(&co(1, 2)));
    assert!(moves.contains(&co(2, 1)));
}

#[test]
fn pawn_home_has_single_and_double_step() {
    let mut b = Board::new();
    b.load_fen("8/8/8/8/8/8/4P3/8 w - - 0 1");
    let moves = b.get_moves(6, 4);
    assert_eq!(moves.len(), 2);
    assert!(moves.contains(&co(5, 4)));
    assert!(moves.contains(&co(4, 4)));
}

#[test]
fn pawn_blocked_ahead_has_no_forward_moves() {
    let mut b = Board::new();
    b.load_fen("8/8/8/8/8/4p3/4P3/8 w - - 0 1");
    let moves = b.get_moves(6, 4);
    assert_eq!(moves.len(), 0);
}

#[test]
fn pawn_double_step_blocked_beyond() {
    let mut b = Board::new();
    b.load_fen("8/8/8/8/4p3/8/4P3/8 w - - 0 1");
    let moves = b.get_moves(6, 4);
    assert_eq!(moves.len(), 1);
    assert!(moves.contains(&co(5, 4)));
}

#[test]
fn pawn_captures_diagonally() {
    let mut b = Board::new();
    b.load_fen("8/8/8/8/8/3r1r2/4P3/8 w - - 0 1");
    let moves = b.get_moves(6, 4);
    assert!(moves.contains(&co(5, 3)));
    assert!(moves.contains(&co(5, 5)));
    assert!(moves.contains(&co(5, 4)));
    assert!(moves.contains(&co(4, 4)));
    assert_eq!(moves.len(), 4);
}

#[test]
fn black_pawn_moves_downward() {
    let mut b = Board::new();
    b.load_fen("8/4p3/8/8/8/8/8/8 b - - 0 1");
    let moves = b.get_moves(1, 4);
    assert_eq!(moves.len(), 2);
    assert!(moves.contains(&co(2, 4)));
    assert!(moves.contains(&co(3, 4)));
}

#[test]
fn en_passant_generated_after_double_push() {
    let mut b = Board::new();
    b.load_fen("8/3p4/8/4P3/8/8/8/8 b - - 0 1");
    b.apply_move(co(1, 3), co(3, 3));
    assert_eq!(b.last_2_moves_pawn, Some(co(3, 3)));
    let moves = b.get_moves(3, 4);
    assert!(moves.contains(&co(2, 4)));
    assert!(moves.contains(&co(2, 3)));
    assert_eq!(moves.len(), 2);
}

#[test]
fn queen_attacks_king_gives_check() {
    let mut b = Board::new();
    b.load_fen("8/8/8/8/8/8/8/K1q5 w - - 0 1");
    assert!(b.is_in_check(Color::White));
    assert!(!b.is_in_check(Color::Black));
    let moves = b.get_moves(7, 0);
    // Every square the queen attacks is excluded, the attacked-but-empty
    // b1 and b2 included; only a2 remains.
    assert_eq!(moves.len(), 1);
    assert!(moves.contains(&co(6, 0)));
    assert!(!moves.contains(&co(7, 1)));
    assert!(!moves.contains(&co(6, 1)));
}

#[test]
fn king_without_attackers_is_not_in_check() {
    let mut b = Board::new();
    b.load_fen("8/2k5/8/8/8/8/8/4K3 w - - 0 1");
    assert!(!b.is_in_check(Color::White));
    assert!(!b.is_in_check(Color::Black));
}

#[test]
fn color_without_king_is_never_in_check() {
    let mut b = Board::new();
    b.load_fen("8/8/8/8/8/8/8/2q5 w - - 0 1");
    assert!(!b.is_in_check(Color::White));
}

#[test]
fn checkmate_without_king_is_false() {
    let mut b = Board::new();
    b.load_fen("8/8/8/8/8/8/8/K1q5 w - - 0 1");
    // Black has a queen but no king: never reported checkmated.
    assert!(!b.is_in_checkmate(Color::Black));
}

#[test]
fn back_rank_mate_is_detected() {
    let mut b = Board::new();
    b.load_fen("k7/8/8/8/8/8/R7/1R6 b - - 0 1");
    assert!(b.is_in_check(Color::Black));
    assert!(b.is_in_checkmate(Color::Black));
}

#[test]
fn king_with_escape_square_is_not_checkmated() {
    let mut b = Board::new();
    b.load_fen("8/8/8/8/8/8/8/K1q5 w - - 0 1");
    assert!(!b.is_in_checkmate(Color::White));
}

#[test]
fn stalemate_also_reports_checkmate() {
    // The restricted test equates "no legal moves" with checkmate, so a
    // stalemated color reports true as well.
    let mut b = Board::new();
    b.load_fen("k7/2Q5/8/8/8/8/8/7K b - - 0 1");
    assert!(!b.is_in_check(Color::Black));
    assert!(b.is_in_checkmate(Color::Black));
}

#[test]
fn filter_check_moves_drops_self_checks() {
    // A white rook shielding its king from the black queen may not leave
    // the file.
    let mut b = Board::new();
    b.load_fen("8/8/8/q7/R7/K7/8/8 w - - 0 1");
    let moves = b.get_moves(4, 0);
    // The rook may capture the queen but may not move sideways.
    assert!(moves.contains(&co(3, 0)));
    assert!(!moves.contains(&co(4, 1)));
    assert_eq!(moves.len(), 1);
}

#[test]
fn raw_moves_ignore_king_safety() {
    let mut b = Board::new();
    b.load_fen("8/8/8/q7/R7/K7/8/8 w - - 0 1");
    let raw = b.raw_moves(4, 0);
    assert!(raw.contains(&co(3, 0)));
    assert!(raw.contains(&co(4, 1)));
    assert_eq!(raw.len(), 8);
}

#[test]
fn queen_moves_are_rook_and_bishop_moves_united() {
    let mut b = Board::new();
    b.load_fen("8/8/8/3Q4/8/8/8/8 w - - 0 1");
    let queen = b.get_moves(3, 3);
    assert_eq!(queen.len(), 27);
    let mut rook_board = Board::new();
    rook_board.load_fen("8/8/8/3R4/8/8/8/8 w - - 0 1");
    for m in rook_board.get_moves(3, 3) {
        assert!(queen.contains(&m));
    }
    let mut bishop_board = Board::new();
    bishop_board.load_fen("8/8/8/3B4/8/8/8/8 w - - 0 1");
    for m in bishop_board.get_moves(3, 3) {
        assert!(queen.contains(&m));
    }
}

#[test]
fn empty_square_has_no_moves() {
    let mut b = Board::new();
    b.load_fen("8/8/8/8/8/8/8/8 w - - 0 1");
    assert_eq!(b.get_moves(4, 4).len(), 0);
}
