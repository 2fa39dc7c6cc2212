use chess_core::board::{Board, Color};
use chess_core::chess_move::Move;

#[test]
fn test_fen_to_positions_for_one_pawn() {
    // White pawn on e2
    let fen = "8/8/8/8/8/8/4P3/8 w - - 0 1";
    let board = Board::fen_to_board(fen).unwrap();
    // e2 => rank=1, file=4 => index = 1*8 + 4 = 12
    assert_eq!(board.bitboards[0], 1 << 12); // White Pawns are bitboards[0]
}

#[test]
fn test_fen_to_position_for_two_pawns() {
    // White pawns on d2, e2 => (rank=1, file=3) and (rank=1, file=4)
    let fen = "8/8/8/8/8/8/3PP3/8 w - - 0 1";
    let board = Board::fen_to_board(fen).unwrap();

    let expected_bitboard: u64 = (1 << 11) | (1 << 12);
    assert_eq!(board.bitboards[0], expected_bitboard);
}

#[test]
fn test_fen_to_position_for_many_random_pawns() {
    let fen = "P6P/8/3pp3/8/8/8/3PP3/P6P w - - 0 1";
    let board = Board::fen_to_board(fen).unwrap();

    let expected_white_bitboard: u64 =
        (1 << 11) | (1 << 12) | 1 << 0 | 1 << 7 | 1 << 56 | 1 << 63;
    let expected_black_bitboard: u64 = (1 << 44) | (1 << 43);
    assert_eq!(board.bitboards[0], expected_white_bitboard);
    assert_eq!(board.bitboards[6], expected_black_bitboard);
}

#[test]

fn test_pawn_capture() {
    let fen = "8/8/8/8/8/5p2/4P3/8 w - - 0 1".to_string();

    let mut board = Board::fen_to_board(&fen).unwrap();

    let m = Move {
        from: 12,
        to: 21,
        promotion: None,
    };

    assert!(board.move_peice(m));

    let expected_white_bitboard: u64 = 1 << 21;
    let expected_black_bitboard: u64 = 0;

    assert_eq!(board.bitboards[0], expected_white_bitboard);
    assert_eq!(board.bitboards[6], expected_black_bitboard);
}

#[test]
fn test_pawn_promotion() {
    let fen = "8/4P3/8/8/8/8/8/8 w - - 0 1".to_string();

    let mut board = Board::fen_to_board(&fen).unwrap();

    let m = Move::new("e7e8q".to_string()).unwrap();

    assert!(board.move_peice(m));

    let expected_white_bitboard: u64 = 1 << 60;
    assert_eq!(board.bitboards[4], expected_white_bitboard);
    assert_eq!(board.bitboards[0], 0);
}

#[test]
fn test_pawn_promotion_and_capture() {
    let fen = "5p2/4P3/8/8/8/8/8/8 w - - 0 1".to_string();

    let mut board = Board::fen_to_board(&fen).unwrap();

    let m = Move::new("e7f8q".to_string()).unwrap();

    assert!(board.move_peice(m));

    let expected_white_bitboard: u64 = 1 << 61;
    assert_eq!(board.bitboards[4], expected_white_bitboard);
    assert_eq!(board.bitboards[0], 0);
    assert_eq!(board.bitboards[6], 0);
}

#[test]
fn test_all_bitboard_matches_combination_of_bitboards() {
    let fen = "rnbqkbnr/pppppppp/8/8/8/8/PPPPPPPP/RNBQKBNR w KQkq - 0 1";

    let board = Board::fen_to_board(&fen).unwrap();

    let folded_white_bitboard = board.bitboards[0..6].iter().fold(0, |acc, &bb| acc | bb);
    let folded_black_bitboard = board.bitboards[6..12].iter().fold(0, |acc, &bb| acc | bb);

    assert_eq!(board.all_white_bitboard, folded_white_bitboard);
    assert_eq!(board.all_black_bitboard, folded_black_bitboard);
}

#[test]
fn test_bitboards_matching_after_moves() {
    let fen = "rnbqkbnr/pppp1ppp/8/8/8/4p3/PPPPPPPP/RNBQKBNR w KQkq - 0 1";

    let mut board = Board::fen_to_board(&fen).unwrap();

    let m = Move::new("f2e3".to_string()).unwrap();

    assert!(board.move_peice(m));

    let folded_white_bitboard = board.bitboards[0..6].iter().fold(0, |acc, &bb| acc | bb);
    let folded_black_bitboard = board.bitboards[6..12].iter().fold(0, |acc, &bb| acc | bb);

    assert_eq!(board.all_white_bitboard, folded_white_bitboard);
    assert_eq!(board.all_black_bitboard, folded_black_bitboard);
}

#[test]
fn test_white_bishops_attacking_bitboards() {
    let fen = "7B/8/8/8/8/8/8/8 b - - 0 1";

    let board = Board::fen_to_board(&fen).unwrap();

    let attack_bitboard = board.get_attack_bitboard_by_color(Color::White);

    let expected_attack_bitboard: u64 = 0x40201008040201;

    assert_eq!(attack_bitboard, expected_attack_bitboard);
}

#[test]
fn test_black_bishops_attacking_bitboards() {
    let fen = "7b/8/8/8/8/8/8/8 b - - 0 1";

    let board = Board::fen_to_board(&fen).unwrap();

    let attack_bitboard = board.get_attack_bitboard_by_color(Color::Black);

    let expected_attack_bitboard: u64 = 0x40201008040201;

    assert_eq!(attack_bitboard, expected_attack_bitboard);
}

#[test]
fn test_white_bishop_attacking_bitboards_when_spaces_occupied() {
    let fen = "7B/8/5p2/8/8/8/8/8 w - - 0 1";

    let board = Board::fen_to_board(&fen).unwrap();

    let attack_bitboard = board.get_attack_bitboard_by_color(Color::White);

    let expected_attack_bitboard: u64 = 1 << 54 | 1 << 45;

    assert_eq!(attack_bitboard, expected_attack_bitboard);
}

#[test]
fn test_pawn_attacking_bitboards() {
    let fen = "8/7P/8/8/8/8/8/8 w - - 0 1";

    let board = Board::fen_to_board(&fen).unwrap();

    let attack_bitboard = board.get_attack_bitboard_by_color(Color::White);

    let expected_attack_bitboard: u64 = 1 << 62;

    assert_eq!(attack_bitboard, expected_attack_bitboard);
}

#[test]
fn test_pawn_attacking_bitboards_two_squares() {
    let fen = "8/6P1/8/8/8/8/8/8 b - - 0 1";

    let board = Board::fen_to_board(&fen).unwrap();

    let attack_bitboard = board.get_attack_bitboard_by_color(Color::White);

    let expected_attack_bitboard: u64 = 1 << 61 | 1 << 63;

    assert_eq!(attack_bitboard, expected_attack_bitboard);
}

#[test]
fn test_pawn_attacking_bitboards_two_squares_overlapping() {
    let fen = "8/4P1P1/8/8/8/8/8/8 b - - 0 1";

    let board = Board::fen_to_board(&fen).unwrap();

    let attack_bitboard = board.get_attack_bitboard_by_color(Color::White);

    let expected_attack_bitboard: u64 = 1 << 61 | 1 << 63 | 1 << 59;

    assert_eq!(attack_bitboard, expected_attack_bitboard);
}

#[test]
fn test_if_black_king_in_check() {
    let fen = "7k/8/8/8/8/2B5/8/8 w - - 0 1";

    let board = Board::fen_to_board(&fen).unwrap();

    assert!(board.is_in_check(Color::Black));
}

#[test]
fn test_if_black_king_is_not_in_check_due_to_wrong_diagonal() {
    let fen = "6k1/8/8/8/8/2B5/8/8 w - - 0 1";

    let board = Board::fen_to_board(&fen).unwrap();

    // Assert we are not in check
    assert!(!board.is_in_check(Color::Black));
}

#[test]
fn test_if_white_queen_in_check() {
    let fen = "8/8/8/8/8/5pp1/5pp1/7K w - - 0 1";

    let board = Board::fen_to_board(&fen).unwrap();

    assert!(board.is_in_check(Color::White));
}
