//! Moves: their notation, the rules that decide whether a move is allowed, and
//! the generation of the moves that a position offers.

use vstd::prelude::*;
use vstd::string::*;
use core::ops::Not;
use crate::attack::{
    king_attacks, knight_attacks, lemma_king_shape, lemma_knight_shape, pawn_direction, rays_from,
    slides_to,
};
use crate::bits::{bit_set, has_square, lemma_and, lemma_not, lemma_zero};
use crate::board::{Board, Color, PieceType};
use crate::apply::legal_move;
use crate::geometry::{file_of, on_board, rank_of};
use crate::utils::{square_from_chars, square_named};

verus! {

/// A move: the square a piece leaves, the square it goes to, and the kind that a
/// pawn turns into on the last rank.
#[derive(Debug, Clone, Copy, PartialEq, Eq)]
pub struct Move {
    pub from: u8,
    pub to: u8,
    pub promotion: Option<PieceType>,
}

/// The move that a text in move notation names: the name of the square the
/// piece leaves, the name of the square it goes to, and, as an optional fifth
/// character, the lower-case letter of the kind that a pawn turns into. A text
/// of another length, or with another character in one of these places, names
/// no move.
pub open spec fn parse_move(s: Seq<char>) -> Option<Move> {
    if s.len() != 4 && s.len() != 5 {
        None
    } else {
        match (square_named(s[0], s[1]), square_named(s[2], s[3])) {
            (Some(from), Some(to)) => {
                if s.len() == 4 {
                    Some(Move { from: from, to: to, promotion: None })
                } else {
                    match PieceType::of_letter(s[4]) {
                        Some(kind) => Some(Move { from: from, to: to, promotion: Some(kind) }),
                        None => None,
                    }
                }
            },
            _ => None,
        }
    }
}

impl Move {
    /// Reads a move from move notation, such as `e2e4` or `e7e8q`.
    pub fn new(uci_string: String) -> (r: Option<Move>)
        ensures
            r == parse_move(uci_string@),
            r.is_some() ==> r.unwrap().from < 64 && r.unwrap().to < 64,
    {
        let s: &str = uci_string.as_str();
        let len: usize = s.unicode_len();
        if len != 4 && len != 5 {
            return None;
        }
        let from: u8 = match square_from_chars(s.get_char(0), s.get_char(1)) {
            Some(sq) => sq,
            None => {
                return None;
            },
        };
        let to: u8 = match square_from_chars(s.get_char(2), s.get_char(3)) {
            Some(sq) => sq,
            None => {
                return None;
            },
        };
        if len == 4 {
            return Some(Move { from: from, to: to, promotion: None });
        }
        let c: char = s.get_char(4);
        let kind: PieceType = match c {
            'p' => PieceType::Pawn,
            'n' => PieceType::Knight,
            'b' => PieceType::Bishop,
            'r' => PieceType::Rook,
            'q' => PieceType::Queen,
            'k' => PieceType::King,
            _ => {
                return None;
            },
        };
        Some(Move { from: from, to: to, promotion: Some(kind) })
    }
}

/// The kind of the piece of the given side that stands on `sq`: the first of
/// that side's six bitboards, pawns to king, that holds the square.
pub open spec fn piece_of(board: Board, color: Color, sq: int) -> Option<PieceType> {
    if board.holds(color, PieceType::Pawn, sq) {
        Some(PieceType::Pawn)
    } else if board.holds(color, PieceType::Knight, sq) {
        Some(PieceType::Knight)
    } else if board.holds(color, PieceType::Bishop, sq) {
        Some(PieceType::Bishop)
    } else if board.holds(color, PieceType::Rook, sq) {
        Some(PieceType::Rook)
    } else if board.holds(color, PieceType::Queen, sq) {
        Some(PieceType::Queen)
    } else if board.holds(color, PieceType::King, sq) {
        Some(PieceType::King)
    } else {
        None
    }
}

/// The kind of the piece of the side to move that stands on `sq`.
pub open spec fn own_piece_at(board: Board, sq: int) -> Option<PieceType> {
    piece_of(board, board.active_color, sq)
}

/// A piece may land on `to`: no piece of the side to move stands there, and the
/// other side's king does not. A king is never captured.
pub open spec fn landing_ok(board: Board, to: int) -> bool {
    &&& on_board(to)
    &&& !board.occupied_by(board.active_color, to)
    &&& !board.holds(board.active_color.opposite(), PieceType::King, to)
}

/// The rank on which a side's pawns start.
pub open spec fn pawn_start_rank(color: Color) -> int {
    match color {
        Color::White => 1,
        Color::Black => 6,
    }
}

/// What a move's promotion must be for a pawn that lands on `to`: on the first
/// or last rank a kind other than pawn and king, elsewhere none.
pub open spec fn promotion_ok(to: int, promotion: Option<PieceType>) -> bool {
    let last = rank_of(to) == 0 || rank_of(to) == 7;
    match promotion {
        Some(p) => last && p != PieceType::Pawn && p != PieceType::King,
        None => !last,
    }
}

/// The pawn rule. One square straight ahead onto an empty square; two squares
/// straight ahead from the starting rank over an empty square onto an empty
/// square; or one square diagonally ahead onto a piece of the other side or onto
/// the en-passant target.
pub open spec fn pawn_move_ok(board: Board, m: Move) -> bool {
    let from = m.from as int;
    let to = m.to as int;
    let me = board.active_color;
    let dir = pawn_direction(me);
    let dr = rank_of(to) - rank_of(from);
    let df = file_of(to) - file_of(from);
    &&& on_board(from)
    &&& landing_ok(board, to)
    &&& promotion_ok(to, m.promotion)
    &&& {
        ||| df == 0 && dr == dir && !board.occupied(to)
        ||| df == 0 && dr == 2 * dir && rank_of(from) == pawn_start_rank(me) && !board.occupied(
            from + 8 * dir,
        ) && !board.occupied(to)
        ||| (df == 1 || df == -1) && dr == dir && (board.occupied_by(me.opposite(), to)
            || board.en_passant == Some(m.to))
    }
}

/// The knight rule.
pub open spec fn knight_move_ok(board: Board, m: Move) -> bool {
    landing_ok(board, m.to as int) && knight_attacks(m.from as int, m.to as int)
}

/// The first and one past the last direction in which a sliding kind moves; an
/// empty range for the other kinds.
pub open spec fn slide_directions(piece: PieceType) -> (int, int) {
    match piece {
        PieceType::Bishop => (4, 8),
        PieceType::Rook => (0, 4),
        PieceType::Queen => (0, 8),
        _ => (0, 0),
    }
}

/// A slider of the given kind on `from` can go to `to`: along one of its rays,
/// over empty squares only, onto a square where it may land.
pub open spec fn slide_ok(board: Board, piece: PieceType, from: int, to: int) -> bool {
    let (lo, hi) = slide_directions(piece);
    &&& on_board(from)
    &&& landing_ok(board, to)
    &&& slides_to(board.all_occupancy(), from, lo, hi, to)
}

/// A castling right is there and the squares between king and rook are empty.
pub open spec fn castle_ok(board: Board, right: u8, a: int, b: int, c: int) -> bool {
    &&& board.castling_rights & right != 0
    &&& !board.occupied(a)
    &&& !board.occupied(b)
    &&& !board.occupied(c)
}

/// Castling on the king's side of the given side's home rank is open: the
/// right is there, and f1 and g1 (for Black f8 and g8) are empty.
pub open spec fn king_side_castle_ok(board: Board, color: Color) -> bool {
    match color {
        Color::White => castle_ok(board, 1, 5, 6, 6),
        Color::Black => castle_ok(board, 4, 61, 62, 62),
    }
}

/// Castling on the queen's side of the given side's home rank is open: the
/// right is there, and d1, c1 and b1 (for Black d8, c8 and b8) are empty.
pub open spec fn queen_side_castle_ok(board: Board, color: Color) -> bool {
    match color {
        Color::White => castle_ok(board, 2, 3, 2, 1),
        Color::Black => castle_ok(board, 8, 59, 58, 57),
    }
}

/// The square on which a side's king starts: e1 for White, e8 for Black.
pub open spec fn king_home(color: Color) -> int {
    match color {
        Color::White => 4,
        Color::Black => 60,
    }
}

/// The king rule. Two squares aside from the home square of the side to move
/// (e1 to g1 or c1 for White, e8 to g8 or c8 for Black) the move is a castling
/// move: it needs that corner's right and empty squares between king and
/// rook. Any other move is one step to a neighbouring square where the king
/// may land.
pub open spec fn king_move_ok(board: Board, m: Move) -> bool {
    let me = board.active_color;
    if m.from == king_home(me) && m.to == m.from + 2 {
        king_side_castle_ok(board, me)
    } else if m.from == king_home(me) && m.to == m.from - 2 {
        queen_side_castle_ok(board, me)
    } else {
        landing_ok(board, m.to as int) && king_attacks(m.from as int, m.to as int)
    }
}

/// The rule of the kind of piece that moves.
pub open spec fn piece_move_ok(board: Board, piece: PieceType, m: Move) -> bool {
    match piece {
        PieceType::Pawn => pawn_move_ok(board, m),
        PieceType::Knight => knight_move_ok(board, m),
        PieceType::King => king_move_ok(board, m),
        _ => slide_ok(board, piece, m.from as int, m.to as int),
    }
}

/// The move follows the rules of movement: a piece of the side to move stands
/// on `from`, only a pawn promotes, and the piece's own rule allows the move.
/// Whether the move leaves the mover's king attacked is not part of this.
pub open spec fn valid_move(board: Board, m: Move) -> bool {
    &&& m.from < 64
    &&& m.to < 64
    &&& match own_piece_at(board, m.from as int) {
        Some(piece) => (piece != PieceType::Pawn ==> m.promotion.is_none()) && piece_move_ok(
            board,
            piece,
            m,
        ),
        None => false,
    }
}

/// The kind of the piece of the given side on `sq`, if one stands there.
pub fn find_piece_of(board: &Board, color: Color, sq: u8) -> (r: Option<PieceType>)
    ensures
        r == piece_of(*board, color, sq as int),
{
    if sq >= 64 {
        return None;
    }
    let mut i: usize = 0;
    while i < 6
        invariant
            sq < 64,
            i <= 6,
            forall|j: int|
                0 <= j < i ==> !bit_set(#[trigger] board.bitboards[color.base() + j], sq as int),
        decreases 6 - i,
    {
        if has_square(board.bitboards[color.offset() + i], sq) {
            return Some(PieceType::from_index(i));
        }
        i = i + 1;
    }
    proof {
        assert(!bit_set(board.bitboards[color.base() + 0], sq as int));
        assert(!bit_set(board.bitboards[color.base() + 1], sq as int));
        assert(!bit_set(board.bitboards[color.base() + 2], sq as int));
        assert(!bit_set(board.bitboards[color.base() + 3], sq as int));
        assert(!bit_set(board.bitboards[color.base() + 4], sq as int));
        assert(!bit_set(board.bitboards[color.base() + 5], sq as int));
    }
    None
}

/// The kind of the piece of the side to move on `from`, if one stands there.
pub fn find_peice_at_from_location(board: &Board, from: u8) -> (r: Option<PieceType>)
    ensures
        r == own_piece_at(*board, from as int),
{
    find_piece_of(board, board.active_color, from)
}

/// Whether a piece may land on the destination of a move.
fn validate_to_location(board: &Board, m: &Move) -> (r: bool)
    requires
        m.to < 64,
    ensures
        r == landing_ok(*board, m.to as int),
{
    let friendly_piece_at_to: bool = has_square(board.side_occupancy(board.active_color), m.to);
    let enemy_king_at_to: bool = has_square(
        board.piece_mask(board.active_color.not(), PieceType::King),
        m.to,
    );
    !friendly_piece_at_to && !enemy_king_at_to
}

/// The pawn rule, for a move whose squares are on the board.
fn validate_pawn_move(board: &Board, m: &Move) -> (r: bool)
    requires
        m.from < 64,
        m.to < 64,
    ensures
        r == pawn_move_ok(*board, *m),
{
    if !validate_to_location(board, m) {
        return false;
    }
    let me: Color = board.active_color;
    let from_rank: u8 = m.from / 8;
    let to_rank: u8 = m.to / 8;
    let from_file: u8 = m.from % 8;
    let to_file: u8 = m.to % 8;
    let last: bool = to_rank == 0 || to_rank == 7;
    match m.promotion {
        Some(p) => {
            if !last || p == PieceType::Pawn || p == PieceType::King {
                return false;
            }
        },
        None => {
            if last {
                return false;
            }
        },
    }
    let one_ahead: bool = match me {
        Color::White => to_rank == from_rank + 1,
        Color::Black => from_rank == to_rank + 1,
    };
    let two_ahead: bool = match me {
        Color::White => to_rank == from_rank + 2,
        Color::Black => from_rank == to_rank + 2,
    };
    if to_file == from_file {
        if one_ahead {
            return !board.is_occupied(m.to);
        }
        if two_ahead {
            let start: u8 = match me {
                Color::White => 1,
                Color::Black => 6,
            };
            if from_rank != start {
                return false;
            }
            let between: u8 = match me {
                Color::White => m.from + 8,
                Color::Black => m.from - 8,
            };
            return !board.is_occupied(between) && !board.is_occupied(m.to);
        }
        return false;
    }
    if (to_file == from_file + 1 || from_file == to_file + 1) && one_ahead {
        let enemy_at_to: bool = has_square(board.side_occupancy(me.not()), m.to);
        let en_passant: bool = match board.en_passant {
            Some(sq) => sq == m.to,
            None => false,
        };
        return enemy_at_to || en_passant;
    }
    false
}

/// The knight rule, for a move whose squares are on the board.
fn validate_knight_move(board: &Board, m: &Move) -> (r: bool)
    requires
        m.from < 64,
        m.to < 64,
    ensures
        r == knight_move_ok(*board, *m),
{
    if !validate_to_location(board, m) {
        return false;
    }
    let from_rank: u8 = m.from / 8;
    let to_rank: u8 = m.to / 8;
    let from_file: u8 = m.from % 8;
    let to_file: u8 = m.to % 8;
    let rank_diff: u8 = if to_rank >= from_rank {
        to_rank - from_rank
    } else {
        from_rank - to_rank
    };
    let file_diff: u8 = if to_file >= from_file {
        to_file - from_file
    } else {
        from_file - to_file
    };
    (rank_diff == 2 && file_diff == 1) || (rank_diff == 1 && file_diff == 2)
}

/// The squares that a sliding piece of the given kind on `from` can go to, for
/// the side to move. Its rays stop before a piece of its own side and before
/// the other side's king, and end on any other piece of the other side. For a
/// kind that does not slide, and for a `from` outside the board, the result is
/// empty.
pub fn generate_sliding_moves(board: &Board, piece_type: PieceType, from: u8) -> (moves: u64)
    ensures
        forall|t: int| #[trigger] bit_set(moves, t) == slide_ok(*board, piece_type, from as int, t),
{
    proof {
        lemma_zero();
    }
    if from >= 64 {
        return 0;
    }
    let (lo, hi): (u8, u8) = match piece_type {
        PieceType::Bishop => (4, 8),
        PieceType::Rook => (0, 4),
        PieceType::Queen => (0, 8),
        _ => (0, 0),
    };
    let occ: u64 = board.all_white_bitboard | board.all_black_bitboard;
    let rays: u64 = rays_from(occ, from, lo, hi);
    let friendly_bitboard: u64 = board.side_occupancy(board.active_color);
    let enemy_king_bitboard: u64 = board.piece_mask(board.active_color.not(), PieceType::King);
    proof {
        lemma_not(friendly_bitboard);
        lemma_not(enemy_king_bitboard);
        lemma_and(rays, !friendly_bitboard);
        lemma_and(rays & !friendly_bitboard, !enemy_king_bitboard);
    }
    rays & !friendly_bitboard & !enemy_king_bitboard
}

/// The rule of a sliding kind, for a move whose squares are on the board.
fn validate_sliding_move(board: &Board, piece_type: PieceType, m: &Move) -> (r: bool)
    requires
        m.from < 64,
        m.to < 64,
    ensures
        r == slide_ok(*board, piece_type, m.from as int, m.to as int),
{
    if !validate_to_location(board, m) {
        return false;
    }
    let moves: u64 = generate_sliding_moves(board, piece_type, m.from);
    has_square(moves, m.to)
}

/// The bishop rule.
fn validate_bishop_move(board: &Board, m: &Move) -> (r: bool)
    requires
        m.from < 64,
        m.to < 64,
    ensures
        r == slide_ok(*board, PieceType::Bishop, m.from as int, m.to as int),
{
    validate_sliding_move(board, PieceType::Bishop, m)
}

/// The rook rule.
fn validate_rook_move(board: &Board, m: &Move) -> (r: bool)
    requires
        m.from < 64,
        m.to < 64,
    ensures
        r == slide_ok(*board, PieceType::Rook, m.from as int, m.to as int),
{
    validate_sliding_move(board, PieceType::Rook, m)
}

/// The queen rule.
fn validate_queen_move(board: &Board, m: &Move) -> (r: bool)
    requires
        m.from < 64,
        m.to < 64,
    ensures
        r == slide_ok(*board, PieceType::Queen, m.from as int, m.to as int),
{
    validate_sliding_move(board, PieceType::Queen, m)
}

/// Whether a castling right is there and three squares, which may repeat, are empty.
fn castle_open(board: &Board, right: u8, a: u8, b: u8, c: u8) -> (r: bool)
    requires
        a < 64,
        b < 64,
        c < 64,
    ensures
        r == castle_ok(*board, right, a as int, b as int, c as int),
{
    board.castling_rights & right != 0 && !board.is_occupied(a) && !board.is_occupied(b)
        && !board.is_occupied(c)
}

/// Whether castling on the king's side of the given side's home rank is open.
fn validate_king_side_castle(board: &Board, color: Color) -> (r: bool)
    ensures
        r == king_side_castle_ok(*board, color),
{
    match color {
        Color::White => castle_open(board, 1, 5, 6, 6),
        Color::Black => castle_open(board, 4, 61, 62, 62),
    }
}

/// Whether castling on the queen's side of the given side's home rank is open.
fn validate_queen_side_castle(board: &Board, color: Color) -> (r: bool)
    ensures
        r == queen_side_castle_ok(*board, color),
{
    match color {
        Color::White => castle_open(board, 2, 3, 2, 1),
        Color::Black => castle_open(board, 8, 59, 58, 57),
    }
}

/// The king rule, for a move whose squares are on the board.
fn validate_king_move(board: &Board, m: &Move) -> (r: bool)
    requires
        m.from < 64,
        m.to < 64,
    ensures
        r == king_move_ok(*board, *m),
{
    let home: u8 = match board.active_color {
        Color::White => 4,
        Color::Black => 60,
    };
    if m.from == home && m.to == home + 2 {
        return validate_king_side_castle(board, board.active_color);
    }
    if m.from == home && m.to == home - 2 {
        return validate_queen_side_castle(board, board.active_color);
    }
    if !validate_to_location(board, m) {
        return false;
    }
    let from_rank: u8 = m.from / 8;
    let to_rank: u8 = m.to / 8;
    let from_file: u8 = m.from % 8;
    let to_file: u8 = m.to % 8;
    let rank_diff: u8 = if to_rank >= from_rank {
        to_rank - from_rank
    } else {
        from_rank - to_rank
    };
    let file_diff: u8 = if to_file >= from_file {
        to_file - from_file
    } else {
        from_file - to_file
    };
    m.from != m.to && rank_diff <= 1 && file_diff <= 1
}

/// Decides whether a move follows the rules of movement in a position.
/// The position is not changed. Whether the move would leave the mover's own
/// king attacked is decided when the move is applied.
pub fn validate_move(board: &Board, m: &Move) -> (r: bool)
    ensures
        r == valid_move(*board, *m),
{
    if m.from >= 64 || m.to >= 64 {
        return false;
    }
    let piece_type: PieceType = match find_peice_at_from_location(board, m.from) {
        Some(pt) => pt,
        None => {
            return false;
        },
    };
    if piece_type != PieceType::Pawn {
        if m.promotion.is_some() {
            return false;
        }
    }
    match piece_type {
        PieceType::Pawn => validate_pawn_move(board, m),
        PieceType::Knight => validate_knight_move(board, m),
        PieceType::Bishop => validate_bishop_move(board, m),
        PieceType::Rook => validate_rook_move(board, m),
        PieceType::Queen => validate_queen_move(board, m),
        PieceType::King => validate_king_move(board, m),
    }
}

/// What a piece generator for the given kind on `from` offers: the moves from
/// `from` that the kind's rule allows, without promotion unless the kind is a
/// pawn. For a king the moves are legal moves as well: a king stands on `from`
/// and the move does not leave it attacked.
pub open spec fn offered(board: Board, piece: PieceType, from: u8, m: Move) -> bool {
    &&& m.from == from
    &&& m.from < 64
    &&& m.to < 64
    &&& match piece {
        PieceType::Pawn => pawn_move_ok(board, m),
        PieceType::Knight => m.promotion.is_none() && knight_move_ok(board, m),
        PieceType::King => m.promotion.is_none() && own_piece_at(board, from as int) == Some(
            PieceType::King,
        ) && legal_move(board, m),
        _ => m.promotion.is_none() && slide_ok(board, piece, m.from as int, m.to as int),
    }
}

/// Decides whether a generator for the given kind offers a move.
fn offers(board: &Board, piece: PieceType, m: &Move) -> (r: bool)
    requires
        m.from < 64,
        m.to < 64,
    ensures
        r == offered(*board, piece, m.from, *m),
{
    match piece {
        PieceType::Pawn => validate_pawn_move(board, m),
        PieceType::Knight => m.promotion.is_none() && validate_knight_move(board, m),
        PieceType::King => {
            if m.promotion.is_some() {
                return false;
            }
            match find_peice_at_from_location(board, m.from) {
                Some(PieceType::King) => board.is_legal(*m),
                _ => false,
            }
        },
        _ => m.promotion.is_none() && validate_sliding_move(board, piece, m),
    }
}

/// The move goes from `from` by one of the first `n` offsets.
pub open spec fn reaches(deltas: Seq<i8>, n: int, from: u8, m: Move) -> bool {
    exists|a: int| 0 <= a < n && m.to as int == from as int + #[trigger] deltas[a] as int
}

/// The move's promotion is one of the first `n` choices.
pub open spec fn promotes(choices: Seq<Option<PieceType>>, n: int, m: Move) -> bool {
    exists|b: int| 0 <= b < n && m.promotion == #[trigger] choices[b]
}

/// Appends a move to a list.
fn push_move(moves: &mut Vec<Move>, m: Move)
    ensures
        final(moves)@ == old(moves)@.push(m),
        forall|x: Move| final(moves)@.contains(x) <==> (old(moves)@.contains(x) || x == m),
        old(moves)@.no_duplicates() && !old(moves)@.contains(m) ==> final(moves)@.no_duplicates(),
{
    moves.push(m);
    proof {
        assert forall|x: Move| moves@.contains(x) <==> (old(moves)@.contains(x) || x == m) by {
            vstd::seq_lib::lemma_seq_contains_after_push(old(moves)@, m, x);
        }
        if old(moves)@.no_duplicates() && !old(moves)@.contains(m) {
            assert forall|i: int, j: int|
                0 <= i < moves@.len() && 0 <= j < moves@.len() && i != j implies moves@[i]
                != moves@[j] by {
                if i < old(moves)@.len() {
                    assert(old(moves)@.contains(moves@[i]));
                }
                if j < old(moves)@.len() {
                    assert(old(moves)@.contains(moves@[j]));
                }
            }
        }
    }
}

/// Tries, in order, every offset from `from` with every promotion choice, and
/// lists the moves that the generator for the given kind offers.
fn explore(
    board: &Board,
    piece: PieceType,
    from: u8,
    deltas: &Vec<i8>,
    choices: &Vec<Option<PieceType>>,
) -> (moves: Vec<Move>)
    requires
        from < 64,
        deltas@.no_duplicates(),
        choices@.no_duplicates(),
    ensures
        forall|x: Move|
            moves@.contains(x) <==> (offered(*board, piece, from, x) && reaches(
                deltas@,
                deltas@.len() as int,
                from,
                x,
            ) && promotes(choices@, choices@.len() as int, x)),
        moves@.no_duplicates(),
{
    let mut moves: Vec<Move> = Vec::new();
    let mut i: usize = 0;
    while i < deltas.len()
        invariant
            from < 64,
            i <= deltas.len(),
            deltas@.no_duplicates(),
            choices@.no_duplicates(),
            moves@.no_duplicates(),
            forall|x: Move|
                moves@.contains(x) <==> (offered(*board, piece, from, x) && reaches(
                    deltas@,
                    i as int,
                    from,
                    x,
                ) && promotes(choices@, choices@.len() as int, x)),
        decreases deltas.len() - i,
    {
        let target: i16 = from as i16 + deltas[i] as i16;
        if 0 <= target && target < 64 {
            let to: u8 = target as u8;
            let mut j: usize = 0;
            while j < choices.len()
                invariant
                    from < 64,
                    to < 64,
                    i < deltas.len(),
                    to as int == from as int + deltas@[i as int] as int,
                    j <= choices.len(),
                    deltas@.no_duplicates(),
                    choices@.no_duplicates(),
                    moves@.no_duplicates(),
                    forall|x: Move|
                        moves@.contains(x) <==> (offered(*board, piece, from, x) && ((reaches(
                            deltas@,
                            i as int,
                            from,
                            x,
                        ) && promotes(choices@, choices@.len() as int, x)) || (x.to == to
                            && promotes(choices@, j as int, x)))),
                decreases choices.len() - j,
            {
                let m: Move = Move { from: from, to: to, promotion: choices[j] };
                proof {
                    if reaches(deltas@, i as int, from, m) {
                        let a = choose|a: int|
                            0 <= a < i && m.to as int == from as int + #[trigger] deltas@[a] as int;
                        assert(deltas@[a] == deltas@[i as int]);
                    }
                    if promotes(choices@, j as int, m) {
                        let b = choose|b: int|
                            0 <= b < j && m.promotion == #[trigger] choices@[b];
                        assert(choices@[b] == choices@[j as int]);
                    }
                    assert(!moves@.contains(m));
                }
                if offers(board, piece, &m) {
                    push_move(&mut moves, m);
                }
                proof {
                    assert forall|x: Move| promotes(choices@, j + 1, x) <==> (promotes(
                        choices@,
                        j as int,
                        x,
                    ) || x.promotion == choices@[j as int]) by {
                        if promotes(choices@, j + 1, x) {
                            let b = choose|b: int|
                                0 <= b < j + 1 && x.promotion == #[trigger] choices@[b];
                            if b < j {
                                assert(promotes(choices@, j as int, x));
                            }
                        }
                        if x.promotion == choices@[j as int] {
                            assert(promotes(choices@, j + 1, x));
                        }
                    }
                }
                j = j + 1;
            }
        }
        proof {
            assert forall|x: Move| reaches(deltas@, i + 1, from, x) <==> (reaches(
                deltas@,
                i as int,
                from,
                x,
            ) || x.to as int == from as int + deltas@[i as int] as int) by {
                if reaches(deltas@, i + 1, from, x) {
                    let a = choose|a: int|
                        0 <= a < i + 1 && x.to as int == from as int + #[trigger] deltas@[a] as int;
                    if a < i {
                        assert(reaches(deltas@, i as int, from, x));
                    }
                }
                if x.to as int == from as int + deltas@[i as int] as int {
                    assert(reaches(deltas@, i + 1, from, x));
                }
            }
        }
        i = i + 1;
    }
    moves
}

/// The kinds that a move may name as its promotion, none among them, in the
/// order in which the pawn generator tries them.
fn promotion_choices() -> (r: Vec<Option<PieceType>>)
    ensures
        r@ == seq![
            None,
            Some(PieceType::Queen),
            Some(PieceType::Rook),
            Some(PieceType::Bishop),
            Some(PieceType::Knight),
        ],
        r@.no_duplicates(),
{
    vec![
        None,
        Some(PieceType::Queen),
        Some(PieceType::Rook),
        Some(PieceType::Bishop),
        Some(PieceType::Knight),
    ]
}

/// The one choice of a piece that does not promote.
fn no_promotion() -> (r: Vec<Option<PieceType>>)
    ensures
        r@ == seq![None::<PieceType>],
        r@.no_duplicates(),
{
    vec![None]
}

/// The moves that the pawn rule allows from `from` for the side to move: one
/// and two squares ahead, the two captures, and an en-passant capture, each
/// move onto the last rank once for every kind a pawn can turn into.
pub fn generate_pawn_moves(board: &Board, from: u8) -> (moves: Vec<Move>)
    ensures
        forall|x: Move| moves@.contains(x) <==> offered(*board, PieceType::Pawn, from, x),
        moves@.no_duplicates(),
{
    if from >= 64 {
        return Vec::new();
    }
    let deltas: Vec<i8> = match board.active_color {
        Color::White => vec![8i8, 16i8, 7i8, 9i8],
        Color::Black => vec![-8i8, -16i8, -9i8, -7i8],
    };
    let choices: Vec<Option<PieceType>> = promotion_choices();
    proof {
        assert(deltas@.len() == 4);
        assert(deltas@[0] != deltas@[1] && deltas@[0] != deltas@[2] && deltas@[0] != deltas@[3]
            && deltas@[1] != deltas@[2] && deltas@[1] != deltas@[3] && deltas@[2] != deltas@[3]);
    }
    let moves: Vec<Move> = explore(board, PieceType::Pawn, from, &deltas, &choices);
    proof {
        assert forall|x: Move| offered(*board, PieceType::Pawn, from, x) implies reaches(
            deltas@,
            deltas@.len() as int,
            from,
            x,
        ) && promotes(choices@, choices@.len() as int, x) by {
            let d = x.to as int - from as int;
            match board.active_color {
                Color::White => {
                    assert(d == 8 || d == 16 || d == 7 || d == 9);
                    assert(deltas@[0] == 8 && deltas@[1] == 16 && deltas@[2] == 7 && deltas@[3]
                        == 9);
                },
                Color::Black => {
                    assert(d == -8 || d == -16 || d == -9 || d == -7);
                    assert(deltas@[0] == -8 && deltas@[1] == -16 && deltas@[2] == -9 && deltas@[3]
                        == -7);
                },
            }
            match x.promotion {
                None => {
                    assert(x.promotion == choices@[0]);
                },
                Some(PieceType::Queen) => {
                    assert(x.promotion == choices@[1]);
                },
                Some(PieceType::Rook) => {
                    assert(x.promotion == choices@[2]);
                },
                Some(PieceType::Bishop) => {
                    assert(x.promotion == choices@[3]);
                },
                Some(PieceType::Knight) => {
                    assert(x.promotion == choices@[4]);
                },
                _ => {},
            }
        }
    }
    moves
}

/// The moves that the knight rule allows from `from` for the side to move.
pub fn generate_knight_moves(board: &Board, from: u8) -> (moves: Vec<Move>)
    ensures
        forall|x: Move| moves@.contains(x) <==> offered(*board, PieceType::Knight, from, x),
        moves@.no_duplicates(),
{
    if from >= 64 {
        return Vec::new();
    }
    let deltas: Vec<i8> = vec![17i8, 10i8, -6i8, -15i8, -17i8, -10i8, 6i8, 15i8];
    let choices: Vec<Option<PieceType>> = no_promotion();
    proof {
        assert(deltas@.len() == 8);
        assert(deltas@[0] == 17 && deltas@[1] == 10 && deltas@[2] == -6 && deltas@[3] == -15
            && deltas@[4] == -17 && deltas@[5] == -10 && deltas@[6] == 6 && deltas@[7] == 15);
    }
    let moves: Vec<Move> = explore(board, PieceType::Knight, from, &deltas, &choices);
    proof {
        assert forall|x: Move| offered(*board, PieceType::Knight, from, x) implies reaches(
            deltas@,
            deltas@.len() as int,
            from,
            x,
        ) && promotes(choices@, choices@.len() as int, x) by {
            lemma_knight_shape(from as int, x.to as int);
            assert(deltas@[0] == 17 && deltas@[1] == 10 && deltas@[2] == -6 && deltas@[3] == -15
                && deltas@[4] == -17 && deltas@[5] == -10 && deltas@[6] == 6 && deltas@[7] == 15);
            assert(x.promotion == choices@[0]);
        }
    }
    moves
}

/// The moves that a king on `from` has for the side to move: its steps and
/// its castling moves, those left out that would leave the king attacked.
/// Where no king of the side to move stands on `from`, there are none.
pub fn generate_king_moves(board: &Board, from: u8) -> (moves: Vec<Move>)
    ensures
        forall|x: Move| moves@.contains(x) <==> offered(*board, PieceType::King, from, x),
        moves@.no_duplicates(),
{
    if from >= 64 {
        return Vec::new();
    }
    let deltas: Vec<i8> = vec![-9i8, -8i8, -7i8, -1i8, 1i8, 7i8, 8i8, 9i8, 2i8, -2i8];
    let choices: Vec<Option<PieceType>> = no_promotion();
    proof {
        assert(deltas@.len() == 10);
        assert(deltas@[0] == -9 && deltas@[1] == -8 && deltas@[2] == -7 && deltas@[3] == -1
            && deltas@[4] == 1 && deltas@[5] == 7 && deltas@[6] == 8 && deltas@[7] == 9
            && deltas@[8] == 2 && deltas@[9] == -2);
    }
    let moves: Vec<Move> = explore(board, PieceType::King, from, &deltas, &choices);
    proof {
        assert forall|x: Move| offered(*board, PieceType::King, from, x) implies reaches(
            deltas@,
            deltas@.len() as int,
            from,
            x,
        ) && promotes(choices@, choices@.len() as int, x) by {
            lemma_king_shape(from as int, x.to as int);
            assert(king_move_ok(*board, x));
            assert(deltas@[0] == -9 && deltas@[1] == -8 && deltas@[2] == -7 && deltas@[3] == -1
                && deltas@[4] == 1 && deltas@[5] == 7 && deltas@[6] == 8 && deltas@[7] == 9
                && deltas@[8] == 2 && deltas@[9] == -2);
            assert(x.promotion == choices@[0]);
        }
    }
    moves
}

/// The moves from `from` to each square of a bitboard, lowest square first.
fn moves_to_squares(from: u8, targets: u64) -> (moves: Vec<Move>)
    ensures
        forall|x: Move|
            moves@.contains(x) <==> (x.from == from && x.promotion.is_none() && bit_set(
                targets,
                x.to as int,
            )),
        moves@.no_duplicates(),
{
    let mut moves: Vec<Move> = Vec::new();
    let mut to: u8 = 0;
    while to < 64
        invariant
            to <= 64,
            moves@.no_duplicates(),
            forall|x: Move|
                moves@.contains(x) <==> (x.from == from && x.promotion.is_none() && bit_set(
                    targets,
                    x.to as int,
                ) && x.to < to),
        decreases 64 - to,
    {
        if has_square(targets, to) {
            push_move(&mut moves, Move { from: from, to: to, promotion: None });
        }
        to = to + 1;
    }
    moves
}

/// The moves that the bishop rule allows from `from` for the side to move.
pub fn generate_bishop_moves(board: &Board, from: u8) -> (moves: Vec<Move>)
    ensures
        forall|x: Move| moves@.contains(x) <==> offered(*board, PieceType::Bishop, from, x),
        moves@.no_duplicates(),
{
    moves_to_squares(from, generate_sliding_moves(board, PieceType::Bishop, from))
}

/// The moves that the rook rule allows from `from` for the side to move.
pub fn generate_rook_moves(board: &Board, from: u8) -> (moves: Vec<Move>)
    ensures
        forall|x: Move| moves@.contains(x) <==> offered(*board, PieceType::Rook, from, x),
        moves@.no_duplicates(),
{
    moves_to_squares(from, generate_sliding_moves(board, PieceType::Rook, from))
}

/// The moves that the queen rule allows from `from` for the side to move.
pub fn generate_queen_moves(board: &Board, from: u8) -> (moves: Vec<Move>)
    ensures
        forall|x: Move| moves@.contains(x) <==> offered(*board, PieceType::Queen, from, x),
        moves@.no_duplicates(),
{
    moves_to_squares(from, generate_sliding_moves(board, PieceType::Queen, from))
}

/// The squares of a bitboard, in rising order.
pub fn convert_bitboards_to_indexs(bitboard: u64) -> (indexes: Vec<u8>)
    ensures
        forall|i: int| 0 <= i < indexes@.len() ==> bit_set(bitboard, #[trigger] indexes@[i] as int),
        forall|sq: u8| bit_set(bitboard, sq as int) ==> indexes@.contains(sq),
        forall|i: int, j: int| 0 <= i < j < indexes@.len() ==> indexes@[i] < indexes@[j],
{
    let mut indexes: Vec<u8> = Vec::new();
    let mut sq: u8 = 0;
    while sq < 64
        invariant
            sq <= 64,
            forall|i: int|
                0 <= i < indexes@.len() ==> bit_set(bitboard, #[trigger] indexes@[i] as int)
                    && indexes@[i] < sq,
            forall|s: u8| s < sq && bit_set(bitboard, s as int) ==> indexes@.contains(s),
            forall|i: int, j: int| 0 <= i < j < indexes@.len() ==> indexes@[i] < indexes@[j],
        decreases 64 - sq,
    {
        if has_square(bitboard, sq) {
            let ghost before = indexes@;
            indexes.push(sq);
            proof {
                assert forall|s: u8| s < sq + 1 && bit_set(bitboard, s as int) implies indexes@.contains(
                    s,
                ) by {
                    vstd::seq_lib::lemma_seq_contains_after_push(before, sq, s);
                }
            }
        }
        sq = sq + 1;
    }
    indexes
}

/// The side to move has no legal move.
pub open spec fn no_legal_move(board: Board) -> bool {
    forall|m: Move| !legal_move(board, m)
}

/// In a consistent position every piece that can move stands on a square that
/// its side's occupancy marks.
proof fn lemma_mover_is_marked(board: Board, m: Move)
    requires
        board.wf(),
        m.from < 64,
        own_piece_at(board, m.from as int).is_some(),
    ensures
        board.occupied_by(board.active_color, m.from as int),
{
    let me = board.active_color;
    let piece = own_piece_at(board, m.from as int).unwrap();
    assert(bit_set(board.bitboards[me.base() + piece.ordinal()], m.from as int));
    assert(board.any_in(me.base(), me.base() + 6, m.from as int));
}

/// The value is one of the first `n` items of a list.
pub open spec fn among<T>(list: Seq<T>, n: int, x: T) -> bool {
    exists|k: int| 0 <= k < n && #[trigger] list[k] == x
}

/// One more item of a list is looked at.
proof fn lemma_among_next<T>(list: Seq<T>, n: int, x: T)
    requires
        0 <= n < list.len(),
    ensures
        among(list, n + 1, x) <==> (among(list, n, x) || list[n] == x),
{
    if among(list, n + 1, x) {
        let k = choose|k: int| 0 <= k < n + 1 && #[trigger] list[k] == x;
        if k < n {
            assert(among(list, n, x));
        }
    }
    if list[n] == x {
        assert(among(list, n + 1, x));
    }
}

/// To be in a list is to be among all its items.
proof fn lemma_among_all<T>(list: Seq<T>, x: T)
    ensures
        among(list, list.len() as int, x) <==> list.contains(x),
{
    if list.contains(x) {
        let k = choose|k: int| 0 <= k < list.len() && list[k] == x;
        assert(list[k] == x);
    }
}

/// All legal moves of the side to move: for every piece of that side the moves
/// that its rule allows, less those that would leave the side's own king
/// attacked. The order of the list carries no meaning.
pub fn generate_all_moves_for_color(board: &Board) -> (all_moves: Vec<Move>)
    requires
        board.wf(),
    ensures
        forall|x: Move| all_moves@.contains(x) <==> legal_move(*board, x),
        all_moves@.no_duplicates(),
{
    let mut all_moves: Vec<Move> = Vec::new();
    let friendly: u64 = board.side_occupancy(board.active_color);
    let indexs_of_all_friendly_pieces: Vec<u8> = convert_bitboards_to_indexs(friendly);
    let ghost squares = indexs_of_all_friendly_pieces@;
    let mut i: usize = 0;
    while i < indexs_of_all_friendly_pieces.len()
        invariant
            board.wf(),
            friendly == board.occupancy(board.active_color),
            squares == indexs_of_all_friendly_pieces@,
            i <= squares.len(),
            all_moves@.no_duplicates(),
            forall|a: int, b: int| 0 <= a < b < squares.len() ==> squares[a] < squares[b],
            forall|sq: u8| bit_set(friendly, sq as int) ==> squares.contains(sq),
            forall|x: Move|
                #![trigger all_moves@.contains(x)]
                #![trigger legal_move(*board, x)]
                all_moves@.contains(x) <==> (legal_move(*board, x) && among(
                    squares,
                    i as int,
                    x.from,
                )),
        decreases squares.len() - i,
    {
        let from: u8 = indexs_of_all_friendly_pieces[i];
        let ghost before = all_moves@;
        match find_peice_at_from_location(board, from) {
            Some(piece_type) => {
                let moves: Vec<Move> = match piece_type {
                    PieceType::Pawn => generate_pawn_moves(board, from),
                    PieceType::Knight => generate_knight_moves(board, from),
                    PieceType::Bishop => generate_bishop_moves(board, from),
                    PieceType::Rook => generate_rook_moves(board, from),
                    PieceType::Queen => generate_queen_moves(board, from),
                    PieceType::King => generate_king_moves(board, from),
                };
                let mut j: usize = 0;
                while j < moves.len()
                    invariant
                        j <= moves.len(),
                        i < squares.len(),
                        from == squares[i as int],
                        moves@.no_duplicates(),
                        all_moves@.no_duplicates(),
                        forall|a: int, b: int|
                            0 <= a < b < squares.len() ==> squares[a] < squares[b],
                        forall|x: Move| moves@.contains(x) ==> x.from == from,
                        forall|x: Move| before.contains(x) ==> among(squares, i as int, x.from),
                        forall|x: Move|
                            all_moves@.contains(x) <==> (before.contains(x) || (legal_move(
                                *board,
                                x,
                            ) && among(moves@, j as int, x))),
                    decreases moves.len() - j,
                {
                    let m: Move = moves[j];
                    proof {
                        assert(moves@.contains(m));
                        if before.contains(m) {
                            let k = choose|k: int| 0 <= k < i && #[trigger] squares[k] == m.from;
                            assert(squares[k] < squares[i as int]);
                        }
                        if among(moves@, j as int, m) {
                            let n = choose|n: int| 0 <= n < j && #[trigger] moves@[n] == m;
                            assert(moves@[n] == moves@[j as int]);
                        }
                        assert(!all_moves@.contains(m));
                        assert forall|x: Move| among(moves@, j + 1, x) <==> (among(
                            moves@,
                            j as int,
                            x,
                        ) || m == x) by {
                            lemma_among_next(moves@, j as int, x);
                        }
                    }
                    if board.is_legal(m) {
                        push_move(&mut all_moves, m);
                    }
                    j = j + 1;
                }
                proof {
                    assert(j == moves@.len());
                    assert forall|x: Move| all_moves@.contains(x) <==> (before.contains(x) || (
                    legal_move(*board, x) && x.from == from)) by {
                        lemma_among_all(moves@, x);
                        if legal_move(*board, x) && x.from == from {
                            assert(valid_move(*board, x));
                            assert(own_piece_at(*board, x.from as int) == Some(piece_type));
                            assert(offered(*board, piece_type, from, x));
                            assert(moves@.contains(x));
                        }
                        if among(moves@, moves@.len() as int, x) {
                            assert(offered(*board, piece_type, from, x));
                            assert(x.from == from);
                        }
                    }
                }
            },
            None => {},
        }
        proof {
            assert(from == squares[i as int]);
            assert forall|x: Move|
                #![trigger all_moves@.contains(x)]
                #![trigger legal_move(*board, x)]
                all_moves@.contains(x) <==> (legal_move(*board, x) && among(
                    squares,
                    i + 1,
                    x.from,
                )) by {
                lemma_among_next(squares, i as int, x.from);
                assert(before.contains(x) <==> (legal_move(*board, x) && among(
                    squares,
                    i as int,
                    x.from,
                )));
            }
        }
        i = i + 1;
    }
    proof {
        assert forall|x: Move| legal_move(*board, x) implies among(
            squares,
            squares.len() as int,
            x.from,
        ) by {
            lemma_mover_is_marked(*board, x);
            lemma_among_all(squares, x.from);
        }
    }
    all_moves
}

/// Whether the side to move has no legal move. Where that side's king is
/// attacked, this is checkmate.
pub fn is_in_checkmate(board: &Board) -> (r: bool)
    requires
        board.wf(),
    ensures
        r == no_legal_move(*board),
{
    let all_moves: Vec<Move> = generate_all_moves_for_color(board);
    let mut i: usize = 0;
    while i < all_moves.len()
        invariant
            i <= all_moves.len(),
            forall|x: Move| all_moves@.contains(x) <==> legal_move(*board, x),
            forall|x: Move| among(all_moves@, i as int, x) ==> !legal_move(*board, x),
        decreases all_moves.len() - i,
    {
        let m: Move = all_moves[i];
        let mut board_clone: Board = *board;
        let did_move_work: bool = board_clone.relocate(m).is_some();
        if did_move_work {
            return false;
        }
        proof {
            assert forall|x: Move| among(all_moves@, i + 1, x) implies !legal_move(*board, x) by {
                lemma_among_next(all_moves@, i as int, x);
            }
        }
        i = i + 1;
    }
    proof {
        assert forall|m: Move| !legal_move(*board, m) by {
            lemma_among_all(all_moves@, m);
        }
    }
    true
}

proof fn lemma_right_cleared(rights: u8, right: u8)
    by (bit_vector)
    ensures
        (rights & !right) & right == 0,
{
}

/// With a king on e1, the move from e1 to g1 is allowed exactly when White is
/// to move, White's king-side right is there, and f1 and g1 are empty. Taking
/// the right away, with nothing else changed, makes the move invalid.
pub proof fn lemma_white_king_side_castle(board: Board)
    requires
        own_piece_at(board, 4) == Some(PieceType::King),
    ensures
        valid_move(board, Move { from: 4, to: 6, promotion: None }) == (board.active_color
            == Color::White && board.castling_rights & 1 != 0 && !board.occupied(5)
            && !board.occupied(6)),
        !valid_move(
            Board { castling_rights: board.castling_rights & !1u8, ..board },
            Move { from: 4, to: 6, promotion: None },
        ),
{
    lemma_right_cleared(board.castling_rights, 1u8);
    let without = Board { castling_rights: board.castling_rights & !1u8, ..board };
    assert(own_piece_at(without, 4) == own_piece_at(board, 4));
    lemma_king_shape(4, 6);
}

/// A king's move two squares aside from its home square is allowed exactly
/// when the right of that corner is there and the squares between king and
/// rook are empty.
pub proof fn lemma_castle_needs_right(board: Board, m: Move)
    requires
        own_piece_at(board, m.from as int) == Some(PieceType::King),
        m.promotion.is_none(),
        m.from == king_home(board.active_color),
        m.to == m.from + 2 || m.to == m.from - 2,
    ensures
        valid_move(board, m) == (if m.to == 6 {
            castle_ok(board, 1, 5, 6, 6)
        } else if m.to == 2 {
            castle_ok(board, 2, 3, 2, 1)
        } else if m.to == 62 {
            castle_ok(board, 4, 61, 62, 62)
        } else {
            castle_ok(board, 8, 59, 58, 57)
        }),
{
}

} // verus!
