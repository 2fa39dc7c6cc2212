use chess_core::board::{Board, Color, PieceType};
use chess_core::chess_move::{
    convert_bitboards_to_indexs, find_peice_at_from_location, generate_all_moves_for_color,
    generate_bishop_moves, generate_king_moves, generate_knight_moves, generate_pawn_moves,
    generate_queen_moves, generate_rook_moves, generate_sliding_moves, is_in_checkmate,
    validate_move, Move,
};
use chess_core::geometry::{distance_to_edge, step_along};
use chess_core::utils::{convert_board_coordinate_to_idx, edge_distances, is_stalemate};

const START: &str = "rnbqkbnr/pppppppp/8/8/8/8/PPPPPPPP/RNBQKBNR w KQkq - 0 1";

fn board(fen: &str) -> Board {
    Board::fen_to_board(fen).unwrap()
}

fn mv(text: &str) -> Move {
    Move::new(text.to_string()).unwrap()
}

fn same(a: &Board, b: &Board) -> bool {
    a.bitboards == b.bitboards
        && a.all_white_bitboard == b.all_white_bitboard
        && a.all_black_bitboard == b.all_black_bitboard
        && a.active_color == b.active_color
        && a.castling_rights == b.castling_rights
        && a.en_passant == b.en_passant
        && a.halfmove_clock == b.halfmove_clock
        && a.fullmove_number == b.fullmove_number
}

fn union(bitboards: &[u64]) -> u64 {
    bitboards.iter().fold(0, |acc, &bb| acc | bb)
}

// Position text

#[test]
fn test_start_position_text_round_trip() {
    assert_eq!(board(START).board_to_fen(), START);
}

#[test]
fn test_text_round_trip_with_en_passant_and_clocks() {
    let fen = "rnbqkbnr/ppp1pppp/8/3pP3/8/P7/1PPP1PPP/RNBQKBNR w Kq d6 17 109";
    assert_eq!(board(fen).board_to_fen(), fen);
}

#[test]
fn test_text_round_trip_of_every_single_square() {
    for sq in 0..64u8 {
        let mut b = Board::empty();
        b.put(Color::Black, PieceType::Queen, sq);
        let text = b.board_to_fen();
        let back = board(&text);
        assert!(same(&b, &back), "square {}", sq);
        assert_eq!(back.board_to_fen(), text);
    }
}

#[test]
fn test_largest_clocks_round_trip() {
    let fen = "8/8/8/8/8/8/8/8 b - - 4294967295 4294967295";
    let b = board(fen);
    assert_eq!(b.halfmove_clock, u32::MAX);
    assert_eq!(b.fullmove_number, u32::MAX);
    assert_eq!(b.board_to_fen(), fen);
}

#[test]
fn test_start_position_fields() {
    let b = board(START);
    assert_eq!(b.bitboards[0], 0xff00);
    assert_eq!(b.bitboards[5], 1 << 4);
    assert_eq!(b.bitboards[6], 0x00ff_0000_0000_0000);
    assert_eq!(b.bitboards[11], 1 << 60);
    assert_eq!(b.all_white_bitboard, 0xffff);
    assert_eq!(b.all_black_bitboard, 0xffff_0000_0000_0000);
    assert_eq!(b.active_color, Color::White);
    assert_eq!(b.castling_rights, 15);
    assert_eq!(b.en_passant, None);
    assert_eq!(b.halfmove_clock, 0);
    assert_eq!(b.fullmove_number, 1);
    assert!(b.is_consistent());
}

#[test]
fn test_en_passant_field_is_read_as_a_square() {
    let b = board("8/8/8/8/8/8/8/8 w - e3 0 1");
    assert_eq!(b.en_passant, Some(20));
    let b = board("8/8/8/8/8/8/8/8 b - h6 0 1");
    assert_eq!(b.en_passant, Some(47));
}

#[test]
fn test_castling_field_gives_one_bit_per_letter() {
    assert_eq!(board("8/8/8/8/8/8/8/8 w K - 0 1").castling_rights, 1);
    assert_eq!(board("8/8/8/8/8/8/8/8 w Q - 0 1").castling_rights, 2);
    assert_eq!(board("8/8/8/8/8/8/8/8 w k - 0 1").castling_rights, 4);
    assert_eq!(board("8/8/8/8/8/8/8/8 w q - 0 1").castling_rights, 8);
    assert_eq!(board("8/8/8/8/8/8/8/8 w qK - 0 1").castling_rights, 9);
    assert_eq!(board("8/8/8/8/8/8/8/8 w - - 0 1").castling_rights, 0);
}

#[test]
fn test_short_ranks_are_accepted_and_written_in_full() {
    let b = board("3/8/8/8/8/8/8/44 w - - 0 1");
    assert_eq!(b.all_white_bitboard | b.all_black_bitboard, 0);
    assert_eq!(b.board_to_fen(), "8/8/8/8/8/8/8/8 w - - 0 1");
}

#[test]
fn test_malformed_position_texts_are_rejected() {
    let bad = [
        "",
        "8/8/8/8/8/8/8/8",
        "8/8/8/8/8/8/8/8 w - - 0",
        "8/8/8/8/8/8/8/8 w - - 0 1 1",
        "8/8/8/8/8/8/8/8  w - - 0 1",
        " 8/8/8/8/8/8/8/8 w - - 0 1",
        "8/8/8/8/8/8/8/8 w - - 0 1 ",
        "8/8/8/8/8/8/8 w - - 0 1",
        "8/8/8/8/8/8/8/8/8 w - - 0 1",
        "9/8/8/8/8/8/8/8 w - - 0 1",
        "81/8/8/8/8/8/8/8 w - - 0 1",
        "ppppppppp/8/8/8/8/8/8/8 w - - 0 1",
        "8/8/8/8/8/8/8/7x w - - 0 1",
        "8/8/8/8/8/8/8/70 w - - 0 1",
        "8/8/8/8/8/8/8/8 x - - 0 1",
        "8/8/8/8/8/8/8/8 W - - 0 1",
        "8/8/8/8/8/8/8/8 wb - - 0 1",
        "8/8/8/8/8/8/8/8 w KX - 0 1",
        "8/8/8/8/8/8/8/8 w K- - 0 1",
        "8/8/8/8/8/8/8/8 w - e 0 1",
        "8/8/8/8/8/8/8/8 w - e9 0 1",
        "8/8/8/8/8/8/8/8 w - i3 0 1",
        "8/8/8/8/8/8/8/8 w - e3x 0 1",
        "8/8/8/8/8/8/8/8 w - - x 1",
        "8/8/8/8/8/8/8/8 w - - -1 1",
        "8/8/8/8/8/8/8/8 w - - +1 1",
        "8/8/8/8/8/8/8/8 w - - 0 x",
        "8/8/8/8/8/8/8/8 w - - 0 0",
        "8/8/8/8/8/8/8/8 w - - 4294967296 1",
        "8/8/8/8/8/8/8/8 w - - 0 4294967296",
        "8/8/8/8/8/8/8/8 w - - 0 99999999999999999999999",
        "8/8/8/8/8/8/8/8 w - - 0 1\u{e9}",
        "8/8/8/8/8/8/8/\u{2654}7 w - - 0 1",
    ];
    for fen in bad {
        assert!(Board::fen_to_board(fen).is_none(), "accepted {:?}", fen);
    }
}

#[test]
fn test_leading_zeros_in_clocks_are_read() {
    let b = board("8/8/8/8/8/8/8/8 w - - 007 010");
    assert_eq!(b.halfmove_clock, 7);
    assert_eq!(b.fullmove_number, 10);
    assert_eq!(b.board_to_fen(), "8/8/8/8/8/8/8/8 w - - 7 10");
}

// Squares, moves and piece letters in text

#[test]
fn test_square_names() {
    assert_eq!(convert_board_coordinate_to_idx("a1".to_string()), Some(0));
    assert_eq!(convert_board_coordinate_to_idx("h1".to_string()), Some(7));
    assert_eq!(convert_board_coordinate_to_idx("e4".to_string()), Some(28));
    assert_eq!(convert_board_coordinate_to_idx("a8".to_string()), Some(56));
    assert_eq!(convert_board_coordinate_to_idx("h8".to_string()), Some(63));
    assert_eq!(convert_board_coordinate_to_idx("e4e5".to_string()), Some(28));
    assert_eq!(convert_board_coordinate_to_idx("".to_string()), None);
    assert_eq!(convert_board_coordinate_to_idx("e".to_string()), None);
    assert_eq!(convert_board_coordinate_to_idx("i1".to_string()), None);
    assert_eq!(convert_board_coordinate_to_idx("a9".to_string()), None);
    assert_eq!(convert_board_coordinate_to_idx("a0".to_string()), None);
    assert_eq!(convert_board_coordinate_to_idx("A1".to_string()), None);
    assert_eq!(convert_board_coordinate_to_idx("1a".to_string()), None);
    assert_eq!(convert_board_coordinate_to_idx("\u{e9}1".to_string()), None);
}

#[test]
fn test_move_notation() {
    assert_eq!(
        Move::new("e2e4".to_string()),
        Some(Move { from: 12, to: 28, promotion: None })
    );
    assert_eq!(
        Move::new("e7e8q".to_string()),
        Some(Move { from: 52, to: 60, promotion: Some(PieceType::Queen) })
    );
    assert_eq!(
        Move::new("a2a1n".to_string()),
        Some(Move { from: 8, to: 0, promotion: Some(PieceType::Knight) })
    );
    assert_eq!(
        Move::new("h7h8k".to_string()),
        Some(Move { from: 55, to: 63, promotion: Some(PieceType::King) })
    );
    for text in ["", "e2", "e2e", "e2e9", "i2e4", "e2e4x", "e2e4Q", "e2e4qq", "e2 e4", "\u{e9}2e4"] {
        assert_eq!(Move::new(text.to_string()), None, "accepted {:?}", text);
    }
}

#[test]
fn test_piece_letters() {
    assert_eq!(PieceType::from("p".to_string()), Some(PieceType::Pawn));
    assert_eq!(PieceType::from("n".to_string()), Some(PieceType::Knight));
    assert_eq!(PieceType::from("b".to_string()), Some(PieceType::Bishop));
    assert_eq!(PieceType::from("r".to_string()), Some(PieceType::Rook));
    assert_eq!(PieceType::from("q".to_string()), Some(PieceType::Queen));
    assert_eq!(PieceType::from("k".to_string()), Some(PieceType::King));
    assert_eq!(PieceType::from("queen".to_string()), Some(PieceType::Queen));
    assert_eq!(PieceType::from("Q".to_string()), None);
    assert_eq!(PieceType::from("x".to_string()), None);
    assert_eq!(PieceType::from("".to_string()), None);
}

#[test]
fn test_piece_ordinals() {
    let kinds = [
        PieceType::Pawn,
        PieceType::Knight,
        PieceType::Bishop,
        PieceType::Rook,
        PieceType::Queen,
        PieceType::King,
    ];
    for (i, kind) in kinds.iter().enumerate() {
        assert_eq!(kind.index(), i);
        assert_eq!(PieceType::from_index(i), *kind);
    }
    assert_eq!(Color::White.offset(), 0);
    assert_eq!(Color::Black.offset(), 6);
}

#[test]
fn test_opponent_of_a_color() {
    assert_eq!(!Color::White, Color::Black);
    assert_eq!(!Color::Black, Color::White);
}

// Geometry

#[test]
fn test_edge_distances() {
    let table = edge_distances();
    assert_eq!(table.len(), 8);
    for row in &table {
        assert_eq!(row.len(), 64);
    }
    // a1: north 7, south 0, east 7, west 0, and the diagonals
    let a1: Vec<u8> = table.iter().map(|row| row[0]).collect();
    assert_eq!(a1, vec![7, 0, 7, 0, 7, 0, 0, 0]);
    // h8
    let h8: Vec<u8> = table.iter().map(|row| row[63]).collect();
    assert_eq!(h8, vec![0, 7, 0, 7, 0, 0, 0, 7]);
    // d4 (27): rank 3, file 3
    let d4: Vec<u8> = table.iter().map(|row| row[27]).collect();
    assert_eq!(d4, vec![4, 3, 4, 3, 4, 3, 3, 3]);
    for dir in 0..8u8 {
        for sq in 0..64u8 {
            assert_eq!(table[dir as usize][sq as usize], distance_to_edge(dir, sq));
        }
    }
}

#[test]
fn test_steps_along_rays() {
    assert_eq!(step_along(27, 0, 4), 59);
    assert_eq!(step_along(27, 1, 3), 3);
    assert_eq!(step_along(27, 2, 4), 31);
    assert_eq!(step_along(27, 3, 3), 24);
    assert_eq!(step_along(27, 4, 4), 63);
    assert_eq!(step_along(27, 5, 3), 48);
    assert_eq!(step_along(27, 6, 3), 6);
    assert_eq!(step_along(27, 7, 3), 0);
    assert_eq!(step_along(27, 7, 0), 27);
}

// Attack maps

#[test]
fn test_rook_on_empty_board_attacks_fourteen_squares() {
    for sq in 0..64u8 {
        let attacks = Board::get_rook_attack_bitboard(1u64 << sq, 1u64 << sq);
        assert_eq!(attacks.count_ones(), 14, "rook on {}", sq);
        let rank = 0xffu64 << (8 * (sq / 8));
        let file = 0x0101_0101_0101_0101u64 << (sq % 8);
        assert_eq!(attacks, (rank | file) & !(1u64 << sq));
    }
    let b = board("8/8/8/8/3R4/8/8/8 w - - 0 1");
    assert_eq!(b.get_attack_bitboard_by_color(Color::White).count_ones(), 14);
}

#[test]
fn test_rook_ray_includes_first_blocker_of_either_side() {
    // rook d4, own pawn d6, enemy pawn f4
    let b = board("8/8/3P4/8/3R1p2/8/8/8 w - - 0 1");
    let rook = Board::get_rook_attack_bitboard(b.bitboards[3], b.all_white_bitboard | b.all_black_bitboard);
    let expected = (1u64 << 35) | (1 << 43) | (1 << 28) | (1 << 29) | (1 << 26) | (1 << 25)
        | (1 << 24) | (1 << 19) | (1 << 11) | (1 << 3);
    assert_eq!(rook, expected);
}

#[test]
fn test_queen_attacks_are_rook_and_bishop_attacks() {
    for sq in [0u8, 7, 27, 36, 56, 63] {
        let occ = (1u64 << sq) | (1 << 18) | (1 << 45);
        let q = Board::get_queen_attack_bitboard(1u64 << sq, occ);
        let r = Board::get_rook_attack_bitboard(1u64 << sq, occ);
        let b = Board::get_bishop_attack_bitboard(1u64 << sq, occ);
        assert_eq!(q, r | b);
    }
    // queen on d4 on an empty board
    let q = Board::get_queen_attack_bitboard(1 << 27, 1 << 27);
    assert_eq!(q.count_ones(), 27);
}

#[test]
fn test_knight_attacks_do_not_wrap() {
    // knight on h1: f2 and g3
    assert_eq!(Board::get_knight_attack_bitboard(1 << 7), (1 << 13) | (1 << 22));
    // knight on a1: b3 and c2
    assert_eq!(Board::get_knight_attack_bitboard(1 << 0), (1 << 17) | (1 << 10));
    // knight on a8: b6 and c7
    assert_eq!(Board::get_knight_attack_bitboard(1 << 56), (1 << 41) | (1 << 50));
    // knight on h8: g6 and f7
    assert_eq!(Board::get_knight_attack_bitboard(1 << 63), (1 << 46) | (1 << 53));
    // knight on g4 (30): h6, f6, e5, e3, f2, h2
    assert_eq!(
        Board::get_knight_attack_bitboard(1 << 30),
        (1 << 47) | (1 << 45) | (1 << 36) | (1 << 20) | (1 << 13) | (1 << 15)
    );
    // knight on d4: all eight
    assert_eq!(
        Board::get_knight_attack_bitboard(1 << 27),
        (1 << 44) | (1 << 42) | (1 << 37) | (1 << 33) | (1 << 21) | (1 << 17) | (1 << 12)
            | (1 << 10)
    );
}

#[test]
fn test_king_attacks() {
    assert_eq!(Board::get_king_attack_bitboard(1 << 0), (1 << 1) | (1 << 8) | (1 << 9));
    assert_eq!(Board::get_king_attack_bitboard(1 << 7), (1 << 6) | (1 << 14) | (1 << 15));
    assert_eq!(Board::get_king_attack_bitboard(1 << 63), (1 << 62) | (1 << 54) | (1 << 55));
    assert_eq!(
        Board::get_king_attack_bitboard(1 << 27),
        (1 << 34) | (1 << 35) | (1 << 36) | (1 << 26) | (1 << 28) | (1 << 18) | (1 << 19)
            | (1 << 20)
    );
    assert_eq!(Board::get_king_attack_bitboard(0), 0);
}

#[test]
fn test_pawn_attacks_of_both_sides() {
    // white pawns a2, h2
    assert_eq!(
        Board::get_pawn_attack_bitboard((1 << 8) | (1 << 15), Color::White),
        (1 << 17) | (1 << 22)
    );
    // black pawns a7, h7, d5
    assert_eq!(
        Board::get_pawn_attack_bitboard((1 << 48) | (1 << 55) | (1 << 35), Color::Black),
        (1 << 41) | (1 << 46) | (1 << 26) | (1 << 28)
    );
    // pawns on the last rank of their way attack nothing
    assert_eq!(Board::get_pawn_attack_bitboard(1 << 60, Color::White), 0);
    assert_eq!(Board::get_pawn_attack_bitboard(1 << 4, Color::Black), 0);
}

#[test]
fn test_check_by_knight_and_by_pawn() {
    assert!(board("4k3/8/3N4/8/8/8/8/4K3 b - - 0 1").is_in_check(Color::Black));
    assert!(!board("4k3/8/4N3/8/8/8/8/4K3 b - - 0 1").is_in_check(Color::Black));
    assert!(board("4k3/3P4/8/8/8/8/8/4K3 b - - 0 1").is_in_check(Color::Black));
    assert!(!board("4k3/4P3/8/8/8/8/8/4K3 b - - 0 1").is_in_check(Color::Black));
    assert!(!board(START).is_in_check(Color::White));
    assert!(!board(START).is_in_check(Color::Black));
}

// Applying moves

#[test]
fn test_first_move_of_the_king_pawn() {
    let mut b = board(START);
    assert!(validate_move(&b, &mv("e2e4")));
    assert!(b.move_peice(mv("e2e4")));
    assert_eq!(b.bitboards[0] & (1 << 12), 0);
    assert_ne!(b.bitboards[0] & (1 << 28), 0);
    assert_eq!(b.bitboards[0], 0xff00 & !(1u64 << 12) | (1 << 28));
    assert_eq!(b.active_color, Color::Black);
    // the pawn skipped e3: that square is the target for the one move that follows
    assert_eq!(b.en_passant, Some(20));
    assert_eq!(b.halfmove_clock, 0);
    assert_eq!(b.fullmove_number, 1);
    assert_eq!(b.castling_rights, 15);
    assert_eq!(b.board_to_fen(), "rnbqkbnr/pppppppp/8/8/4P3/8/PPPP1PPP/RNBQKBNR b KQkq e3 0 1");
    assert!(b.move_peice(mv("g8f6")));
    assert_eq!(b.en_passant, None);
    assert_eq!(b.halfmove_clock, 1);
    assert_eq!(b.fullmove_number, 2);
    assert_eq!(b.active_color, Color::White);
    assert_eq!(b.board_to_fen(), "rnbqkb1r/pppppppp/5n2/8/4P3/8/PPPP1PPP/RNBQKBNR w KQkq - 1 2");
}

#[test]
fn test_black_two_square_advance_sets_target() {
    let mut b = board("4k3/3p4/8/8/8/8/8/4K3 b - - 5 9");
    assert!(b.move_peice(mv("d7d5")));
    assert_eq!(b.en_passant, Some(43));
    assert_eq!(b.halfmove_clock, 0);
    assert_eq!(b.fullmove_number, 10);
}

#[test]
fn test_occupancy_matches_pieces_after_a_game_opening() {
    let mut b = board(START);
    let moves = [
        "e2e4", "d7d5", "e4d5", "d8d5", "b1c3", "d5a5", "d2d4", "g8f6", "g1f3", "c8g4", "f1e2",
        "b8c6", "e1g1", "e8c8",
    ];
    for text in moves {
        assert!(b.move_peice(mv(text)), "move {}", text);
        assert_eq!(b.all_white_bitboard, union(&b.bitboards[0..6]));
        assert_eq!(b.all_black_bitboard, union(&b.bitboards[6..12]));
        assert_eq!(b.all_white_bitboard | b.all_black_bitboard, union(&b.bitboards));
        assert_eq!(b.all_white_bitboard & b.all_black_bitboard, 0);
        assert!(b.is_consistent());
    }
    // castling moves the king two squares; both sides have lost their rights
    assert_eq!(b.bitboards[5], 1 << 6);
    assert_eq!(b.bitboards[11], 1 << 58);
    assert_eq!(b.castling_rights, 0);
}

#[test]
fn test_illegal_moves_leave_the_board_untouched() {
    let fens = [
        START,
        "rnbqkbnr/1pp1pppp/8/p2pP3/8/8/PPPP1PPP/RNBQKBNR w KQkq d6 3 4",
        "4k3/8/8/8/8/8/4r3/4K2R w K - 7 30",
    ];
    let moves = [
        "e2e5", "e1e2", "a1a3", "e1g1", "d1d3", "b1b3", "e5e7", "e7e8q", "a7a6", "h1h8", "e1d1",
        "e5d6q", "h1h2",
    ];
    for fen in fens {
        for text in moves {
            let before = board(fen);
            let mut b = before;
            let m = mv(text);
            if !b.move_peice(m) {
                assert!(same(&before, &b), "{} on {}", text, fen);
            }
            let mut probe = before;
            assert_eq!(probe.relocate(m).is_some(), before.is_legal(m));
        }
    }
    // out-of-range squares are no move
    let before = board(START);
    let mut b = before;
    assert!(!b.move_peice(Move { from: 64, to: 12, promotion: None }));
    assert!(!b.move_peice(Move { from: 12, to: 200, promotion: None }));
    assert!(same(&before, &b));
}

#[test]
fn test_move_that_exposes_own_king_is_refused() {
    // the white rook on e2 is pinned by the black rook on e8
    let before = board("4r1k1/8/8/8/8/8/4R3/4K3 w - - 0 1");
    let mut b = before;
    assert!(validate_move(&b, &mv("e2a2")));
    assert!(!b.is_legal(mv("e2a2")));
    assert!(!b.move_peice(mv("e2a2")));
    assert!(same(&before, &b));
    // along the pin the rook may move
    assert!(b.move_peice(mv("e2e5")));
    // a king may not step onto an attacked square
    let mut b = board("4r1k1/8/8/8/8/8/8/3K4 w - - 0 1");
    assert!(validate_move(&b, &mv("d1e1")));
    assert!(!b.move_peice(mv("d1e1")));
    assert!(b.move_peice(mv("d1d2")));
}

#[test]
fn test_capture_of_a_piece_of_another_kind() {
    let mut b = board("4k3/8/8/8/8/5n2/4P3/4K3 w - - 4 1");
    assert!(b.move_peice(mv("e2f3")));
    assert_eq!(b.bitboards[0], 1 << 21);
    assert_eq!(b.bitboards[7], 0);
    assert_eq!(b.all_black_bitboard, 1 << 60);
    assert_eq!(b.all_white_bitboard, (1 << 21) | (1 << 4));
    assert_eq!(b.halfmove_clock, 0);
    // a capture by a piece resets the clock too
    let mut b = board("4k3/8/8/8/8/5n2/8/4KB2 b - - 4 1");
    assert!(b.move_peice(mv("f3e1")) == false);
    let mut b = board("4k3/8/8/8/8/8/3n4/4KB2 b - - 4 1");
    assert!(b.move_peice(mv("d2f1")));
    assert_eq!(b.bitboards[2], 0);
    assert_eq!(b.bitboards[7], 1 << 5);
    assert_eq!(b.halfmove_clock, 0);
    assert_eq!(b.fullmove_number, 2);
}

#[test]
fn test_en_passant_capture_by_white_removes_the_pawn_behind_the_target() {
    let mut b = board("rnbqkbnr/1pp1pppp/8/p2pP3/8/8/PPPP1PPP/RNBQKBNR w KQkq d6 0 3");
    assert!(b.move_peice(mv("e5d6")));
    assert_eq!(b.bitboards[0] & (1 << 43), 1 << 43);
    assert_eq!(b.bitboards[0] & (1 << 36), 0);
    assert_eq!(b.bitboards[6] & (1 << 35), 0);
    assert_eq!(b.all_black_bitboard & (1 << 35), 0);
    assert_eq!(b.en_passant, None);
    assert_eq!(b.board_to_fen(), "rnbqkbnr/1pp1pppp/3P4/p7/8/8/PPPP1PPP/RNBQKBNR b KQkq - 0 3");
    assert!(b.is_consistent());
}

#[test]
fn test_en_passant_capture_by_black_removes_the_pawn_behind_the_target() {
    let mut b = board("4k3/8/8/8/3pP3/8/8/4K3 b - e3 0 7");
    assert!(validate_move(&b, &mv("d4e3")));
    assert!(b.move_peice(mv("d4e3")));
    assert_eq!(b.bitboards[6], 1 << 20);
    assert_eq!(b.bitboards[0], 0);
    assert_eq!(b.all_white_bitboard, 1 << 4);
    assert_eq!(b.board_to_fen(), "4k3/8/8/8/8/4p3/8/4K3 w - - 0 8");
    assert!(b.is_consistent());
}

#[test]
fn test_promotion_puts_the_chosen_kind_on_the_board() {
    for (letter, slot) in [("n", 1usize), ("b", 2), ("r", 3), ("q", 4)] {
        let mut b = board("8/4P3/8/8/8/8/8/8 w - - 0 1");
        assert!(b.move_peice(mv(&format!("e7e8{}", letter))));
        assert_eq!(b.bitboards[slot], 1 << 60);
        assert_eq!(b.bitboards[0], 0);
        assert_eq!(b.all_white_bitboard, 1 << 60);
    }
    let mut b = board("8/8/8/8/8/8/p7/8 b - - 0 1");
    assert!(b.move_peice(mv("a2a1r")));
    assert_eq!(b.bitboards[9], 1);
    assert_eq!(b.bitboards[6], 0);
    // without a promotion the last rank cannot be entered
    let mut b = board("8/4P3/8/8/8/8/8/8 w - - 0 1");
    assert!(!b.move_peice(mv("e7e8")));
}

#[test]
fn test_castling_rights_follow_king_and_rook_moves() {
    let fen = "r3k2r/8/8/8/8/8/8/R3K2R w KQkq - 0 1";
    let mut b = board(fen);
    assert!(b.move_peice(mv("a1a2")));
    assert_eq!(b.castling_rights, 15 & !2);
    let mut b = board(fen);
    assert!(b.move_peice(mv("h1h2")));
    assert_eq!(b.castling_rights, 15 & !1);
    let mut b = board(fen);
    assert!(b.move_peice(mv("e1e2")));
    assert_eq!(b.castling_rights, 12);
    let mut b = board("r3k2r/8/8/8/8/8/8/R3K2R b KQkq - 0 1");
    assert!(b.move_peice(mv("a8a7")));
    assert_eq!(b.castling_rights, 15 & !8);
    let mut b = board("r3k2r/8/8/8/8/8/8/R3K2R b KQkq - 0 1");
    assert!(b.move_peice(mv("h8h7")));
    assert_eq!(b.castling_rights, 15 & !4);
    let mut b = board("r3k2r/8/8/8/8/8/8/R3K2R b KQkq - 0 1");
    assert!(b.move_peice(mv("e8d8")));
    assert_eq!(b.castling_rights, 3);
    // other moves leave the rights alone
    let mut b = board("r3k2r/8/8/8/8/8/P7/R3K2R w KQkq - 0 1");
    assert!(b.move_peice(mv("a2a3")));
    assert_eq!(b.castling_rights, 15);
    // so does a king that leaves the other side's home square
    let mut b = board("4K3/8/8/8/8/8/8/4k3 w KQkq - 0 1");
    assert!(b.move_peice(mv("e8d8")));
    assert_eq!(b.castling_rights, 15);
    assert!(b.move_peice(mv("e1d1")));
    assert_eq!(b.castling_rights, 15);
}

#[test]
fn test_castling_starts_from_the_own_home_square_only() {
    // a black king on e1 does not castle with anybody's right
    let b = board("4K3/8/8/8/8/8/8/4k3 b KQkq - 0 1");
    assert!(!validate_move(&b, &mv("e1g1")));
    assert!(!validate_move(&b, &mv("e1c1")));
    let b = board("4K3/8/8/8/8/8/8/4k3 w KQkq - 0 1");
    assert!(!validate_move(&b, &mv("e8g8")));
    assert!(!validate_move(&b, &mv("e8c8")));
    // another piece on e1 goes to g1 by its own rule
    let b = board("4k3/8/8/8/8/8/8/K3R3 w - - 0 1");
    assert!(validate_move(&b, &mv("e1g1")));
}

#[test]
fn test_castling_needs_the_right_and_empty_squares() {
    let with = board("r3k2r/8/8/8/8/8/8/R3K2R w KQkq - 0 1");
    assert!(validate_move(&with, &mv("e1g1")));
    assert!(validate_move(&with, &mv("e1c1")));
    let mut without = with;
    without.castling_rights &= !1;
    assert!(!validate_move(&without, &mv("e1g1")));
    assert!(validate_move(&without, &mv("e1c1")));
    let mut without = with;
    without.castling_rights &= !2;
    assert!(validate_move(&without, &mv("e1g1")));
    assert!(!validate_move(&without, &mv("e1c1")));
    // a piece of either side in between
    assert!(!validate_move(&board("r3k2r/8/8/8/8/8/8/R3KB1R w KQkq - 0 1"), &mv("e1g1")));
    assert!(!validate_move(&board("r3k2r/8/8/8/8/8/8/R3K1nR w KQkq - 0 1"), &mv("e1g1")));
    assert!(!validate_move(&board("r3k2r/8/8/8/8/8/8/Rn2K2R w KQkq - 0 1"), &mv("e1c1")));
    assert!(!validate_move(&board("r3k2r/8/8/8/8/8/8/R2QK2R w KQkq - 0 1"), &mv("e1c1")));
    let black = board("r3k2r/8/8/8/8/8/8/R3K2R b KQkq - 0 1");
    assert!(validate_move(&black, &mv("e8g8")));
    assert!(validate_move(&black, &mv("e8c8")));
    let mut without = black;
    without.castling_rights &= !4;
    assert!(!validate_move(&without, &mv("e8g8")));
    let mut without = black;
    without.castling_rights &= !8;
    assert!(!validate_move(&without, &mv("e8c8")));
}

#[test]
fn test_pawn_rules() {
    // a pawn does not capture straight ahead
    assert!(!validate_move(&board("4k3/8/8/8/8/4p3/4P3/4K3 w - - 0 1"), &mv("e2e3")));
    // nor jump over a piece, nor land on one, with its double step
    assert!(!validate_move(&board("4k3/8/8/8/8/4n3/4P3/4K3 w - - 0 1"), &mv("e2e4")));
    assert!(!validate_move(&board("4k3/8/8/8/4n3/8/4P3/4K3 w - - 0 1"), &mv("e2e4")));
    // a capture goes one rank ahead only
    assert!(!validate_move(&board("4k3/8/8/8/5n2/8/4P3/4K3 w - - 0 1"), &mv("e2f4")));
    // a pawn does not wrap round the edge of the board
    assert!(!validate_move(&board("4k3/8/8/8/8/n7/7P/4K3 w - - 0 1"), &mv("h2a3")));
    assert!(!validate_move(&board("4k3/8/8/8/8/8/7P/4K3 w - - 0 1"), &mv("h2a4")));
    // black pawns move down the board
    assert!(validate_move(&board("4k3/4p3/8/8/8/8/8/4K3 b - - 0 1"), &mv("e7e6")));
    assert!(validate_move(&board("4k3/4p3/8/8/8/8/8/4K3 b - - 0 1"), &mv("e7e5")));
    assert!(!validate_move(&board("4k3/8/4p3/8/8/8/8/4K3 b - - 0 1"), &mv("e6e4")));
    assert!(!validate_move(&board("4k3/8/4p3/8/8/8/8/4K3 b - - 0 1"), &mv("e6e7")));
    // a king is never captured
    assert!(!validate_move(&board("8/8/8/8/8/5k2/4P3/4K3 w - - 0 1"), &mv("e2f3")));
}

#[test]
fn test_only_the_side_to_move_moves() {
    let b = board(START);
    assert!(!validate_move(&b, &mv("e7e5")));
    assert!(!validate_move(&b, &mv("e4e5")));
    assert_eq!(find_peice_at_from_location(&b, 12), Some(PieceType::Pawn));
    assert_eq!(find_peice_at_from_location(&b, 1), Some(PieceType::Knight));
    assert_eq!(find_peice_at_from_location(&b, 4), Some(PieceType::King));
    assert_eq!(find_peice_at_from_location(&b, 52), None);
    assert_eq!(find_peice_at_from_location(&b, 28), None);
    assert_eq!(find_peice_at_from_location(&b, 64), None);
}

#[test]
fn test_only_pawns_promote() {
    assert!(!validate_move(&board("8/8/8/8/8/8/8/R7 w - - 0 1"), &mv("a1a8q")));
    assert!(validate_move(&board("8/8/8/8/8/8/8/R7 w - - 0 1"), &mv("a1a8")));
}

#[test]
fn test_knight_and_king_steps() {
    let b = board("8/8/8/8/3N4/8/8/K7 w - - 0 1");
    for (text, ok) in [
        ("d4e6", true), ("d4c6", true), ("d4f5", true), ("d4b5", true), ("d4f3", true),
        ("d4b3", true), ("d4e2", true), ("d4c2", true), ("d4d6", false), ("d4e5", false),
        ("d4d4", false), ("d4f6", false),
    ] {
        assert_eq!(validate_move(&b, &mv(text)), ok, "{}", text);
    }
    for (text, ok) in [("a1a2", true), ("a1b1", true), ("a1b2", true), ("a1a3", false), ("a1c1", false), ("a1a1", false)] {
        assert_eq!(validate_move(&b, &mv(text)), ok, "{}", text);
    }
    // no wrap from the a-file to the h-file
    assert!(!validate_move(&board("8/8/8/8/8/8/8/K7 w - - 0 1"), &mv("a1h1")));
    assert!(!validate_move(&board("8/8/8/8/8/8/K7/8 w - - 0 1"), &mv("a2h1")));
}

// Move generation

#[test]
fn test_sliding_destinations() {
    let b = board("8/8/8/3p4/8/8/8/3R3K w - - 0 1");
    let rook = generate_sliding_moves(&b, PieceType::Rook, 3);
    // the file up to the pawn, which is taken; the rank up to the own king
    let expected = (1u64 << 11) | (1 << 19) | (1 << 27) | (1 << 35) | (1 << 0) | (1 << 1)
        | (1 << 2) | (1 << 4) | (1 << 5) | (1 << 6);
    assert_eq!(rook, expected);
    // a ray stops before the other side's king
    let b = board("3k4/8/8/8/8/8/8/3R4 w - - 0 1");
    assert_eq!(generate_sliding_moves(&b, PieceType::Rook, 3) & (1u64 << 59), 0);
    assert_ne!(generate_sliding_moves(&b, PieceType::Rook, 3) & (1u64 << 51), 0);
    // the queen goes where rook and bishop go
    let b = board("8/8/2p5/8/3Q4/8/5P2/8 w - - 0 1");
    assert_eq!(
        generate_sliding_moves(&b, PieceType::Queen, 27),
        generate_sliding_moves(&b, PieceType::Rook, 27)
            | generate_sliding_moves(&b, PieceType::Bishop, 27)
    );
    // kinds that do not slide, and squares off the board
    assert_eq!(generate_sliding_moves(&b, PieceType::Knight, 27), 0);
    assert_eq!(generate_sliding_moves(&b, PieceType::Pawn, 27), 0);
    assert_eq!(generate_sliding_moves(&b, PieceType::King, 27), 0);
    assert_eq!(generate_sliding_moves(&b, PieceType::Queen, 64), 0);
}

#[test]
fn test_generated_moves_are_the_valid_ones() {
    let fens = [
        START,
        "r3k2r/pppq1ppp/2npbn2/2b1p3/2B1P3/2NPBN2/PPPQ1PPP/R3K2R w KQkq - 4 8",
        "r3k2r/pppq1ppp/2npbn2/2b1p3/2B1P3/2NPBN2/PPPQ1PPP/R3K2R b KQkq - 4 8",
        "rnbqkbnr/1pp1pppp/8/p2pP3/8/8/PPPP1PPP/RNBQKBNR w KQkq d6 0 3",
        "4k3/P6P/8/8/8/8/p6p/4K3 w - - 0 1",
        "4k3/P6P/8/8/8/8/p6p/4K3 b - - 0 1",
        "1n2k1n1/P6P/8/8/8/8/8/4K3 w - - 0 1",
    ];
    let promotions = [
        None,
        Some(PieceType::Pawn),
        Some(PieceType::Knight),
        Some(PieceType::Bishop),
        Some(PieceType::Rook),
        Some(PieceType::Queen),
        Some(PieceType::King),
    ];
    for fen in fens {
        let b = board(fen);
        let all = generate_all_moves_for_color(&b);
        for from in 0..64u8 {
            let piece = find_peice_at_from_location(&b, from);
            let listed = match piece {
                Some(PieceType::Pawn) => generate_pawn_moves(&b, from),
                Some(PieceType::Knight) => generate_knight_moves(&b, from),
                Some(PieceType::Bishop) => generate_bishop_moves(&b, from),
                Some(PieceType::Rook) => generate_rook_moves(&b, from),
                Some(PieceType::Queen) => generate_queen_moves(&b, from),
                Some(PieceType::King) => generate_king_moves(&b, from),
                None => Vec::new(),
            };
            for to in 0..64u8 {
                for promotion in promotions {
                    let m = Move { from, to, promotion };
                    let valid = validate_move(&b, &m);
                    let legal = b.is_legal(m);
                    assert!(!legal || valid);
                    let expected = if piece == Some(PieceType::King) { legal } else { valid };
                    assert_eq!(listed.contains(&m), expected, "{:?} on {}", m, fen);
                    assert_eq!(all.contains(&m), legal, "{:?} on {}", m, fen);
                }
            }
        }
    }
}

#[test]
fn test_start_position_has_twenty_moves() {
    let b = board(START);
    assert_eq!(generate_all_moves_for_color(&b).len(), 20);
    let mut after = b;
    assert!(after.move_peice(mv("e2e4")));
    assert_eq!(generate_all_moves_for_color(&after).len(), 20);
}

#[test]
fn test_promotions_fan_out() {
    let b = board("8/4P3/8/8/8/8/8/8 w - - 0 1");
    let moves = generate_pawn_moves(&b, 52);
    assert_eq!(
        moves,
        vec![
            Move { from: 52, to: 60, promotion: Some(PieceType::Queen) },
            Move { from: 52, to: 60, promotion: Some(PieceType::Rook) },
            Move { from: 52, to: 60, promotion: Some(PieceType::Bishop) },
            Move { from: 52, to: 60, promotion: Some(PieceType::Knight) },
        ]
    );
    // captures onto the last rank fan out as well
    let b = board("3n1n2/4P3/8/8/8/8/8/8 w - - 0 1");
    assert_eq!(generate_pawn_moves(&b, 52).len(), 12);
    assert!(generate_pawn_moves(&b, 64).is_empty());
}

#[test]
fn test_king_moves_keep_the_king_safe() {
    // the rook on b8 guards the b-file, the rook on h2 the second rank
    let b = board("1r5k/8/8/8/8/8/7r/K7 w - - 0 1");
    assert!(generate_king_moves(&b, 0).is_empty());
    let b = board("7k/8/8/8/8/8/7r/K7 w - - 0 1");
    assert_eq!(generate_king_moves(&b, 0), vec![Move { from: 0, to: 1, promotion: None }]);
    // castling is offered with the steps
    let b = board("4k3/8/8/8/8/8/8/R3K2R w KQ - 0 1");
    let moves = generate_king_moves(&b, 4);
    assert!(moves.contains(&mv("e1g1")));
    assert!(moves.contains(&mv("e1c1")));
    assert_eq!(moves.len(), 7);
    // no king on the square: no moves
    assert!(generate_king_moves(&b, 0).is_empty());
    assert!(generate_king_moves(&b, 64).is_empty());
}

#[test]
fn test_squares_of_a_bitboard() {
    assert_eq!(convert_bitboards_to_indexs(0), Vec::<u8>::new());
    assert_eq!(convert_bitboards_to_indexs(1), vec![0]);
    assert_eq!(convert_bitboards_to_indexs(1 << 63), vec![63]);
    assert_eq!(convert_bitboards_to_indexs(0x8000_0000_0000_1081), vec![0, 7, 12, 63]);
    assert_eq!(convert_bitboards_to_indexs(u64::MAX).len(), 64);
}

// The end of the game

#[test]
fn test_checkmate_positions() {
    // back-rank mate
    assert!(is_in_checkmate(&board("4R1k1/5ppp/8/8/8/8/8/4K3 b - - 0 1")));
    // the king can take the checking piece
    assert!(!is_in_checkmate(&board("5Rk1/6pp/8/8/8/8/8/4K3 b - - 0 1")));
    // a piece can interpose
    assert!(!is_in_checkmate(&board("4R1k1/5ppp/8/8/8/8/8/3bK3 w - - 0 1")));
    assert!(!is_in_checkmate(&board("3R2k1/5ppp/1b6/8/8/8/8/4K3 b - - 0 1")));
    assert!(!is_in_checkmate(&board(START)));
    // fool's mate
    let mut b = board(START);
    for text in ["f2f3", "e7e5", "g2g4", "d8h4"] {
        assert!(b.move_peice(mv(text)));
    }
    assert!(b.is_in_check(Color::White));
    assert!(is_in_checkmate(&b));
    assert!(!is_stalemate(&b, Color::White));
}

#[test]
fn test_stalemate_positions() {
    // black to move, not in check, no legal move
    let b = board("7k/5Q2/6K1/8/8/8/8/8 b - - 0 1");
    assert!(!b.is_in_check(Color::Black));
    assert!(generate_all_moves_for_color(&b).is_empty());
    assert!(is_stalemate(&b, Color::Black));
    // a position with moves, material and a young clock is no draw
    assert!(!is_stalemate(&board(START), Color::White));
    assert!(!is_stalemate(&board("7k/8/5Q2/6K1/8/8/8/8 b - - 0 1"), Color::Black));
    // the side asked about is in check
    assert!(!is_stalemate(&board("7k/6Q1/5K2/8/8/8/8/8 b - - 0 1"), Color::Black));
}

#[test]
fn test_draw_by_material() {
    assert!(board("4k3/8/8/8/8/8/8/4K3 w - - 0 1").is_insufficient_material());
    assert!(board("4k3/8/8/8/8/8/8/4KB2 w - - 0 1").is_insufficient_material());
    assert!(board("4k3/8/8/8/8/8/8/4KN2 w - - 0 1").is_insufficient_material());
    assert!(board("4kb2/8/8/8/8/8/8/4K3 w - - 0 1").is_insufficient_material());
    assert!(board("4kn2/8/8/8/8/8/8/4K3 w - - 0 1").is_insufficient_material());
    assert!(!board("4k3/8/8/8/8/8/8/4KR2 w - - 0 1").is_insufficient_material());
    assert!(!board("4k3/8/8/8/8/8/4P3/4K3 w - - 0 1").is_insufficient_material());
    assert!(!board("4k3/8/8/8/8/8/8/3NKB2 w - - 0 1").is_insufficient_material());
    assert!(!board("4kb2/8/8/8/8/8/8/4KB2 w - - 0 1").is_insufficient_material());
    assert!(!board(START).is_insufficient_material());
    // without kings there is no king against king
    assert!(!board("8/8/8/8/8/8/8/P6p w - - 0 1").is_insufficient_material());
    assert!(!board("7n/8/8/8/8/8/8/KB6 w - - 0 1").is_insufficient_material());
    assert!(is_stalemate(&board("4k3/8/8/8/8/8/8/4KB2 w - - 0 1"), Color::White));
}

#[test]
fn test_draw_by_fifty_moves() {
    assert!(!board("4k3/8/8/8/8/8/8/R3K3 w - - 49 80").is_50_move_rule());
    assert!(board("4k3/8/8/8/8/8/8/R3K3 w - - 50 80").is_50_move_rule());
    assert!(board("4k3/8/8/8/8/8/8/R3K3 w - - 51 80").is_50_move_rule());
    assert!(!is_stalemate(&board("4k3/8/8/8/8/8/8/R3K3 w - - 49 80"), Color::White));
    assert!(is_stalemate(&board("4k3/8/8/8/8/8/8/R3K3 w - - 50 80"), Color::White));
    let mut b = board("4k3/8/8/8/8/8/8/R3K3 w - - 49 80");
    assert!(b.move_peice(mv("a1a2")));
    assert_eq!(b.halfmove_clock, 50);
    assert!(b.is_50_move_rule());
}

#[test]
fn test_repetition_is_never_reported() {
    assert!(!board(START).is_3_fold_repetition());
}

// Consistency

#[test]
fn test_inconsistent_positions_are_recognised() {
    let good = board(START);
    assert!(good.is_consistent());
    assert!(Board::empty().is_consistent());
    let mut b = good;
    b.bitboards[1] |= 1 << 8; // a knight on a pawn's square
    assert!(!b.is_consistent());
    let mut b = good;
    b.bitboards[6] |= 1 << 8; // a black pawn on a white pawn's square
    assert!(!b.is_consistent());
    let mut b = good;
    b.all_white_bitboard |= 1 << 30;
    assert!(!b.is_consistent());
    let mut b = good;
    b.all_black_bitboard &= !(1u64 << 60);
    assert!(!b.is_consistent());
    let mut b = good;
    b.castling_rights = 16;
    assert!(!b.is_consistent());
    let mut b = good;
    b.en_passant = Some(64);
    assert!(!b.is_consistent());
    let mut b = good;
    b.en_passant = Some(63);
    b.halfmove_clock = u32::MAX;
    assert!(b.is_consistent());
}

#[test]
fn test_pieces_on_squares() {
    let b = board(START);
    let e1 = b.piece_on(4).unwrap();
    assert_eq!((e1.color, e1.piece_type), (Color::White, PieceType::King));
    let d8 = b.piece_on(59).unwrap();
    assert_eq!((d8.color, d8.piece_type), (Color::Black, PieceType::Queen));
    assert!(b.piece_on(28).is_none());
    assert_eq!(b.piece_mask(Color::Black, PieceType::Rook), (1 << 56) | (1 << 63));
    assert_eq!(b.side_occupancy(Color::White), 0xffff);
    assert!(b.is_occupied(0));
    assert!(!b.is_occupied(35));
}

#[test]
fn test_lift_and_put() {
    let mut b = Board::empty();
    b.put(Color::White, PieceType::Rook, 9);
    assert_eq!(b.bitboards[3], 1 << 9);
    assert_eq!(b.all_white_bitboard, 1 << 9);
    // lifting a piece that is not there changes nothing
    b.lift(Color::White, PieceType::Queen, 9);
    b.lift(Color::Black, PieceType::Rook, 9);
    assert_eq!(b.bitboards[3], 1 << 9);
    assert_eq!(b.all_white_bitboard, 1 << 9);
    b.lift(Color::White, PieceType::Rook, 9);
    assert!(same(&b, &Board::empty()));
}

// The picture of a position

#[test]
fn test_picture_of_the_start_position() {
    let expected = "\
♜ ♞ ♝ ♛ ♚ ♝ ♞ ♜ \n\
♟ ♟ ♟ ♟ ♟ ♟ ♟ ♟ \n\
* * * * * * * * \n\
* * * * * * * * \n\
* * * * * * * * \n\
* * * * * * * * \n\
♙ ♙ ♙ ♙ ♙ ♙ ♙ ♙ \n\
♖ ♘ ♗ ♕ ♔ ♗ ♘ ♖ \n\
Active Color: White\n\
Castling Rights: KQkq\n\
En Passant Target: None\n\
Halfmove Clock: 0\n\
Fullmove Number: 1\n";
    assert_eq!(board(START).display_text(), expected);
}

#[test]
fn test_picture_shows_target_rights_and_clocks() {
    let text = board("4k3/8/8/8/3pP3/8/8/4K3 b Kq e3 12 345").display_text();
    let lines: Vec<&str> = text.lines().collect();
    assert_eq!(lines.len(), 13);
    assert_eq!(lines[0], "* * * * ♚ * * * ");
    assert_eq!(lines[4], "* * * ♟ ♙ * * * ");
    assert_eq!(lines[7], "* * * * ♔ * * * ");
    assert_eq!(lines[8], "Active Color: Black");
    assert_eq!(lines[9], "Castling Rights: Kq");
    assert_eq!(lines[10], "En Passant Target: e3");
    assert_eq!(lines[11], "Halfmove Clock: 12");
    assert_eq!(lines[12], "Fullmove Number: 345");
    let text = Board::empty().display_text();
    let lines: Vec<&str> = text.lines().collect();
    assert_eq!(lines[9], "Castling Rights: ");
}
