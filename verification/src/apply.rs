//! Applying a move: the one operation that changes a position.

use vstd::prelude::*;
use core::ops::Not;
use crate::attack::{pawn_direction, ray_hits};
use crate::bits::{bit_set, lemma_disjoint, lemma_or, lemma_same_squares};
use crate::board::{Board, Color, Piece, PieceType};
use crate::chess_move::{
    find_peice_at_from_location, find_piece_of, own_piece_at, piece_of, slide_directions,
    valid_move, validate_move, Move,
};
use crate::geometry::{edge_distance, ray_square};

verus! {

/// The square of the pawn that an en-passant capture onto `to` removes: one
/// rank behind `to`, seen from the side that captures.
pub open spec fn en_passant_victim(me: Color, to: int) -> int {
    to - 8 * pawn_direction(me)
}

/// The move puts a pawn on the en-passant target.
pub open spec fn takes_en_passant(board: Board, m: Move) -> bool {
    own_piece_at(board, m.from as int) == Some(PieceType::Pawn) && board.en_passant == Some(m.to)
}

/// The position once an en-passant capture, if the move is one, has removed the
/// other side's pawn behind the target.
pub open spec fn after_en_passant(board: Board, m: Move) -> Board {
    if takes_en_passant(board, m) {
        board.lifted(
            board.active_color.opposite(),
            PieceType::Pawn,
            en_passant_victim(board.active_color, m.to as int),
        )
    } else {
        board
    }
}

/// The kind of the piece of the other side that the move captures on `to`, if any.
pub open spec fn captured_kind(board: Board, m: Move) -> Option<PieceType> {
    piece_of(after_en_passant(board, m), board.active_color.opposite(), m.to as int)
}

/// The kind of piece that stands on `to` after the move: the promotion kind
/// where the move names one, else the kind that moved.
pub open spec fn landing_kind(board: Board, m: Move) -> PieceType {
    match m.promotion {
        Some(p) => p,
        None => own_piece_at(board, m.from as int).unwrap(),
    }
}

/// The position with the pieces where the move puts them, and everything else
/// (side to move, castling rights, en-passant target, clocks) as before.
pub open spec fn relocated(board: Board, m: Move) -> Board {
    let me = board.active_color;
    let foe = me.opposite();
    let b1 = after_en_passant(board, m);
    let b2 = match captured_kind(board, m) {
        Some(t) => b1.lifted(foe, t, m.to as int),
        None => b1,
    };
    b2.lifted(me, own_piece_at(board, m.from as int).unwrap(), m.from as int).set_down(
        me,
        landing_kind(board, m),
        m.to as int,
    )
}

/// The move is legal: it follows the rules of movement and does not leave the
/// mover's own king attacked.
pub open spec fn legal_move(board: Board, m: Move) -> bool {
    valid_move(board, m) && !relocated(board, m).in_check(board.active_color)
}

/// The castling rights after a piece of the given side and kind has left
/// `from`: a king that leaves its home square takes both rights of its side
/// with it, a rook that leaves a corner takes that corner's right.
pub open spec fn rights_after(rights: u8, me: Color, piece: PieceType, from: u8) -> u8 {
    if piece == PieceType::King {
        if from == 4 && me == Color::White {
            rights & !3u8
        } else if from == 60 && me == Color::Black {
            rights & !12u8
        } else {
            rights
        }
    } else if piece == PieceType::Rook {
        if from == 0 {
            rights & !2u8
        } else if from == 7 {
            rights & !1u8
        } else if from == 56 {
            rights & !8u8
        } else if from == 63 {
            rights & !4u8
        } else {
            rights
        }
    } else {
        rights
    }
}

/// The en-passant target after the move: the square that a pawn has skipped
/// with a two-square advance, and none after any other move.
pub open spec fn en_passant_after(piece: PieceType, m: Move) -> Option<u8> {
    if piece == PieceType::Pawn && (m.to == m.from + 16 || m.from == m.to + 16) {
        Some(((m.from + m.to) / 2) as u8)
    } else {
        None
    }
}

/// The position after a legal move.
pub open spec fn advanced(board: Board, m: Move) -> Board {
    let piece = own_piece_at(board, m.from as int).unwrap();
    let capture = captured_kind(board, m).is_some();
    Board {
        active_color: board.active_color.opposite(),
        castling_rights: rights_after(board.castling_rights, board.active_color, piece, m.from),
        en_passant: en_passant_after(piece, m),
        halfmove_clock: if piece == PieceType::Pawn || capture {
            0
        } else {
            (board.halfmove_clock + 1) as u32
        },
        fullmove_number: if board.active_color == Color::Black {
            (board.fullmove_number + 1) as u32
        } else {
            board.fullmove_number
        },
        ..relocated(board, m)
    }
}

/// A valid move goes to another square than it leaves, and where it puts a pawn
/// on the en-passant target, the square behind the target is on the board.
pub proof fn lemma_valid_move_squares(board: Board, m: Move)
    requires
        valid_move(board, m),
    ensures
        m.from != m.to,
        takes_en_passant(board, m) ==> 0 <= en_passant_victim(board.active_color, m.to as int)
            < 64,
{
    let piece = own_piece_at(board, m.from as int).unwrap();
    if piece == PieceType::Bishop || piece == PieceType::Rook || piece == PieceType::Queen {
        let (lo, hi) = slide_directions(piece);
        let occ = board.all_occupancy();
        let dir = choose|dir: int|
            lo <= dir < hi && #[trigger] ray_hits(occ, m.from as int, dir, m.to as int);
        let k = choose|k: int|
            1 <= k < 8 && k <= edge_distance(dir, m.from as int) && m.to as int
                == #[trigger] ray_square(m.from as int, dir, k);
    }
}

/// What a valid move does to the pieces of a consistent position.
///
/// The position stays consistent. The piece that moved, or the kind it is
/// promoted to, stands on `to`; `from` is empty; where the move puts a pawn on
/// the en-passant target, a pawn of the other side on the square behind the
/// target is gone; every other square holds what it held.
pub proof fn lemma_relocated(board: Board, m: Move)
    requires
        board.wf(),
        valid_move(board, m),
    ensures
        relocated(board, m).wf(),
        relocated(board, m).piece_at(m.to as int) == Some(
            Piece { color: board.active_color, piece_type: landing_kind(board, m) },
        ),
        relocated(board, m).piece_at(m.from as int).is_none(),
        forall|x: int|
            x != m.from && x != m.to ==> #[trigger] relocated(board, m).piece_at(x) == (if
                takes_en_passant(board, m) && x == en_passant_victim(
                board.active_color,
                m.to as int,
            ) && board.holds(board.active_color.opposite(), PieceType::Pawn, x) {
                None
            } else {
                board.piece_at(x)
            }),
        relocated(board, m).active_color == board.active_color,
        relocated(board, m).castling_rights == board.castling_rights,
        relocated(board, m).en_passant == board.en_passant,
        relocated(board, m).halfmove_clock == board.halfmove_clock,
        relocated(board, m).fullmove_number == board.fullmove_number,
{
    lemma_valid_move_squares(board, m);
    let me = board.active_color;
    let foe = me.opposite();
    let from = m.from as int;
    let to = m.to as int;
    let piece = own_piece_at(board, from).unwrap();
    let victim = en_passant_victim(me, to);
    let b1 = after_en_passant(board, m);
    if takes_en_passant(board, m) {
        board.lemma_lifted(foe, PieceType::Pawn, victim);
    }
    assert(b1.wf());
    let b2 = match captured_kind(board, m) {
        Some(t) => b1.lifted(foe, t, to),
        None => b1,
    };
    match captured_kind(board, m) {
        Some(t) => {
            b1.lemma_lifted(foe, t, to);
        },
        None => {},
    }
    assert(b2.wf());
    assert(b2.vacant(to)) by {
        match captured_kind(board, m) {
            Some(t) => {},
            None => {
                assert(!b1.any_in(foe.base(), foe.base() + 6, to)) by {
                    assert(!bit_set(b1.bitboards[foe.base() + 0], to));
                    assert(!bit_set(b1.bitboards[foe.base() + 1], to));
                    assert(!bit_set(b1.bitboards[foe.base() + 2], to));
                    assert(!bit_set(b1.bitboards[foe.base() + 3], to));
                    assert(!bit_set(b1.bitboards[foe.base() + 4], to));
                    assert(!bit_set(b1.bitboards[foe.base() + 5], to));
                }
                lemma_own_square_free(board, m);
                assert forall|i: int| 0 <= i < 12 implies !#[trigger] bit_set(
                    b2.bitboards[i],
                    to,
                ) by {
                    if me.base() <= i < me.base() + 6 {
                        assert(!bit_set(board.bitboards[i], to));
                    }
                }
            },
        }
    }
    let b3 = b2.lifted(me, piece, from);
    b2.lemma_lifted(me, piece, from);
    assert(b3.vacant(to));
    assert(b3.vacant(from)) by {
        assert(b2.holds(me, piece, from));
    }
    b3.lemma_set_down(me, landing_kind(board, m), to);
    let r = relocated(board, m);
    assert(r == b3.set_down(me, landing_kind(board, m), to));
    assert forall|x: int| x != m.from && x != m.to implies #[trigger] r.piece_at(x) == (if
        takes_en_passant(board, m) && x == victim && board.holds(foe, PieceType::Pawn, x) {
        None
    } else {
        board.piece_at(x)
    }) by {
        assert(r.piece_at(x) == b1.piece_at(x));
        if takes_en_passant(board, m) && x == victim {
            if board.holds(foe, PieceType::Pawn, x) {
                assert(b1.vacant(x));
            } else {
                assert(b1 == board);
            }
        }
    }
}

/// Where a valid move may land, no piece of the side to move stands.
proof fn lemma_own_square_free(board: Board, m: Move)
    requires
        board.wf(),
        valid_move(board, m),
    ensures
        forall|i: int|
            board.active_color.base() <= i < board.active_color.base() + 6 ==> !#[trigger] bit_set(
                board.bitboards[i],
                m.to as int,
            ),
{
    let me = board.active_color;
    let to = m.to as int;
    crate::bits::lemma_or(board.all_white_bitboard, board.all_black_bitboard);
    assert(!board.occupied_by(me, to));
    assert(!board.any_in(me.base(), me.base() + 6, to));
}

proof fn lemma_rights_stay_in_range(rights: u8, keep: u8)
    by (bit_vector)
    requires
        rights < 16,
    ensures
        rights & keep < 16,
{
}

proof fn lemma_kept_right_was_there(rights: u8, keep: u8, right: u8)
    by (bit_vector)
    requires
        (rights & keep) & right != 0,
    ensures
        rights & right != 0,
{
}

/// Castling rights are only ever lost: a right that is there after a move was
/// there before it.
pub proof fn lemma_rights_only_shrink(board: Board, m: Move, right: u8)
    requires
        advanced(board, m).castling_rights & right != 0,
    ensures
        board.castling_rights & right != 0,
{
    let rights = board.castling_rights;
    if advanced(board, m).castling_rights != rights {
        if advanced(board, m).castling_rights == rights & !3u8 {
            lemma_kept_right_was_there(rights, !3u8, right);
        } else if advanced(board, m).castling_rights == rights & !12u8 {
            lemma_kept_right_was_there(rights, !12u8, right);
        } else if advanced(board, m).castling_rights == rights & !1u8 {
            lemma_kept_right_was_there(rights, !1u8, right);
        } else if advanced(board, m).castling_rights == rights & !2u8 {
            lemma_kept_right_was_there(rights, !2u8, right);
        } else if advanced(board, m).castling_rights == rights & !4u8 {
            lemma_kept_right_was_there(rights, !4u8, right);
        } else {
            lemma_kept_right_was_there(rights, !8u8, right);
        }
    }
}

/// A legal move keeps a consistent position consistent.
pub proof fn lemma_advanced_wf(board: Board, m: Move)
    requires
        board.wf(),
        valid_move(board, m),
    ensures
        advanced(board, m).wf(),
{
    lemma_relocated(board, m);
    let r = relocated(board, m);
    let a = advanced(board, m);
    assert(a.bitboards == r.bitboards);
    lemma_rights_stay_in_range(board.castling_rights, !3u8);
    lemma_rights_stay_in_range(board.castling_rights, !12u8);
    lemma_rights_stay_in_range(board.castling_rights, !1u8);
    lemma_rights_stay_in_range(board.castling_rights, !2u8);
    lemma_rights_stay_in_range(board.castling_rights, !4u8);
    lemma_rights_stay_in_range(board.castling_rights, !8u8);
    assert forall|sq: int| #[trigger] bit_set(a.all_white_bitboard, sq) == a.any_in(0, 6, sq) by {
        assert(r.any_in(0, 6, sq) == a.any_in(0, 6, sq));
    }
    assert forall|sq: int| #[trigger] bit_set(a.all_black_bitboard, sq) == a.any_in(6, 12, sq) by {
        assert(r.any_in(6, 12, sq) == a.any_in(6, 12, sq));
    }
}

impl Board {
    /// Puts the pieces where a move takes them, if the move is legal.
    ///
    /// For a legal move the result is the kind of the piece that moved and
    /// whether a piece was captured on `to`; side to move, castling rights,
    /// en-passant target and clocks are left as they were. For any other move
    /// the result is `None` and the position is unchanged.
    pub fn relocate(&mut self, m: Move) -> (r: Option<(PieceType, bool)>)
        ensures
            r.is_some() == legal_move(*old(self), m),
            r.is_none() ==> *final(self) == *old(self),
            r.is_some() ==> *final(self) == relocated(*old(self), m) && r == Some(
                (own_piece_at(*old(self), m.from as int).unwrap(), captured_kind(
                    *old(self),
                    m,
                ).is_some()),
            ),
            old(self).wf() ==> final(self).wf(),
    {
        let prev_board_state: Board = *self;
        if !validate_move(&prev_board_state, &m) {
            return None;
        }
        let peice_type: PieceType = match find_peice_at_from_location(&prev_board_state, m.from) {
            Some(peice_type) => peice_type,
            None => {
                return None;
            },
        };
        proof {
            lemma_valid_move_squares(prev_board_state, m);
            if prev_board_state.wf() {
                lemma_relocated(prev_board_state, m);
            }
        }
        let me: Color = self.active_color;
        let foe: Color = me.not();
        let en_passant: bool = match self.en_passant {
            Some(target) => target == m.to,
            None => false,
        };
        if peice_type == PieceType::Pawn && en_passant {
            let victim: u8 = match me {
                Color::White => m.to - 8,
                Color::Black => m.to + 8,
            };
            self.lift(foe, PieceType::Pawn, victim);
        }
        assert(*self == after_en_passant(prev_board_state, m));
        let taken: Option<PieceType> = find_piece_of(self, foe, m.to);
        let capture: bool = match taken {
            Some(taken_peice_type) => {
                self.lift(foe, taken_peice_type, m.to);
                true
            },
            None => false,
        };
        self.lift(me, peice_type, m.from);
        let landing: PieceType = match m.promotion {
            Some(p) => p,
            None => peice_type,
        };
        self.put(me, landing, m.to);
        assert(*self == relocated(prev_board_state, m));
        if self.is_in_check(me) {
            *self = prev_board_state;
            return None;
        }
        Some((peice_type, capture))
    }

    /// Whether a move is legal in this position. The position is not changed.
    pub fn is_legal(&self, m: Move) -> (r: bool)
        ensures
            r == legal_move(*self, m),
    {
        let mut trial: Board = *self;
        trial.relocate(m).is_some()
    }

    /// Applies a move to the position.
    ///
    /// A legal move is carried out in full: the pieces are moved, a captured
    /// piece is removed, and castling rights, en-passant target, clocks and
    /// side to move are brought up to date; the result is `true`. Any other
    /// move leaves the position exactly as it was; the result is `false`.
    /// A consistent position stays consistent either way.
    pub fn move_peice(&mut self, m: Move) -> (ok: bool)
        requires
            old(self).halfmove_clock < u32::MAX,
            old(self).fullmove_number < u32::MAX,
        ensures
            ok == legal_move(*old(self), m),
            ok ==> *final(self) == advanced(*old(self), m),
            !ok ==> *final(self) == *old(self),
            old(self).wf() ==> final(self).wf(),
    {
        proof {
            if old(self).wf() && valid_move(*old(self), m) {
                lemma_advanced_wf(*old(self), m);
            }
        }
        let (peice_type, capture): (PieceType, bool) = match self.relocate(m) {
            Some(done) => done,
            None => {
                return false;
            },
        };
        if peice_type == PieceType::King {
            if m.from == 4 && self.active_color == Color::White {
                self.castling_rights = self.castling_rights & !3u8;
            } else if m.from == 60 && self.active_color == Color::Black {
                self.castling_rights = self.castling_rights & !12u8;
            }
        } else if peice_type == PieceType::Rook {
            if m.from == 0 {
                self.castling_rights = self.castling_rights & !2u8;
            } else if m.from == 7 {
                self.castling_rights = self.castling_rights & !1u8;
            } else if m.from == 56 {
                self.castling_rights = self.castling_rights & !8u8;
            } else if m.from == 63 {
                self.castling_rights = self.castling_rights & !4u8;
            }
        }
        if peice_type == PieceType::Pawn && (m.to == m.from + 16 || m.from == m.to + 16) {
            self.en_passant = Some((m.from + m.to) / 2);
        } else {
            self.en_passant = None;
        }
        if peice_type == PieceType::Pawn || capture {
            self.halfmove_clock = 0;
        } else {
            self.halfmove_clock = self.halfmove_clock + 1;
        }
        if self.active_color == Color::Black {
            self.fullmove_number = self.fullmove_number + 1;
        }
        self.active_color = match self.active_color {
            Color::White => Color::Black,
            Color::Black => Color::White,
        };
        true
    }
}

/// The position after a list of moves is tried in turn, each on the position
/// that the moves before it have left: a legal move is applied, any other move
/// changes nothing.
pub open spec fn after_moves(board: Board, moves: Seq<Move>) -> Board
    decreases moves.len(),
{
    if moves.len() == 0 {
        board
    } else {
        let before = after_moves(board, moves.drop_last());
        if legal_move(before, moves.last()) {
            advanced(before, moves.last())
        } else {
            before
        }
    }
}

/// In a consistent position each occupancy bitboard is the union of its side's
/// six piece bitboards, the two together are the union of all twelve, and the
/// two share no square.
pub proof fn lemma_occupancy(board: Board)
    requires
        board.wf(),
    ensures
        board.all_white_bitboard == board.bitboards[0] | board.bitboards[1] | board.bitboards[2]
            | board.bitboards[3] | board.bitboards[4] | board.bitboards[5],
        board.all_black_bitboard == board.bitboards[6] | board.bitboards[7] | board.bitboards[8]
            | board.bitboards[9] | board.bitboards[10] | board.bitboards[11],
        board.all_white_bitboard | board.all_black_bitboard == board.bitboards[0]
            | board.bitboards[1] | board.bitboards[2] | board.bitboards[3] | board.bitboards[4]
            | board.bitboards[5] | board.bitboards[6] | board.bitboards[7] | board.bitboards[8]
            | board.bitboards[9] | board.bitboards[10] | board.bitboards[11],
        board.all_white_bitboard & board.all_black_bitboard == 0,
{
    let b = board.bitboards;
    let w1 = b[0] | b[1];
    let w2 = w1 | b[2];
    let w3 = w2 | b[3];
    let w4 = w3 | b[4];
    let w5 = w4 | b[5];
    lemma_or(b[0], b[1]);
    lemma_or(w1, b[2]);
    lemma_or(w2, b[3]);
    lemma_or(w3, b[4]);
    lemma_or(w4, b[5]);
    assert forall|sq: int| 0 <= sq < 64 implies bit_set(board.all_white_bitboard, sq) == bit_set(
        w5,
        sq,
    ) by {
        if board.any_in(0, 6, sq) {
            let i = choose|i: int| 0 <= i < 6 && #[trigger] bit_set(board.bitboards[i], sq);
        }
        if bit_set(w5, sq) {
            assert(bit_set(b[0], sq) || bit_set(b[1], sq) || bit_set(b[2], sq) || bit_set(
                b[3],
                sq,
            ) || bit_set(b[4], sq) || bit_set(b[5], sq));
        }
    }
    lemma_same_squares(board.all_white_bitboard, w5);
    let k1 = b[6] | b[7];
    let k2 = k1 | b[8];
    let k3 = k2 | b[9];
    let k4 = k3 | b[10];
    let k5 = k4 | b[11];
    lemma_or(b[6], b[7]);
    lemma_or(k1, b[8]);
    lemma_or(k2, b[9]);
    lemma_or(k3, b[10]);
    lemma_or(k4, b[11]);
    assert forall|sq: int| 0 <= sq < 64 implies bit_set(board.all_black_bitboard, sq) == bit_set(
        k5,
        sq,
    ) by {
        if board.any_in(6, 12, sq) {
            let i = choose|i: int| 6 <= i < 12 && #[trigger] bit_set(board.bitboards[i], sq);
        }
        if bit_set(k5, sq) {
            assert(bit_set(b[6], sq) || bit_set(b[7], sq) || bit_set(b[8], sq) || bit_set(
                b[9],
                sq,
            ) || bit_set(b[10], sq) || bit_set(b[11], sq));
        }
    }
    lemma_same_squares(board.all_black_bitboard, k5);
    let all = w5 | b[6] | b[7] | b[8] | b[9] | b[10] | b[11];
    lemma_or(w5, k5);
    lemma_or(w5, b[6]);
    lemma_or(w5 | b[6], b[7]);
    lemma_or(w5 | b[6] | b[7], b[8]);
    lemma_or(w5 | b[6] | b[7] | b[8], b[9]);
    lemma_or(w5 | b[6] | b[7] | b[8] | b[9], b[10]);
    lemma_or(w5 | b[6] | b[7] | b[8] | b[9] | b[10], b[11]);
    lemma_same_squares(w5 | k5, all);
    lemma_disjoint(board.all_white_bitboard, board.all_black_bitboard);
    assert forall|sq: int| 0 <= sq < 64 implies !(bit_set(board.all_white_bitboard, sq) && bit_set(
        board.all_black_bitboard,
        sq,
    )) by {
        if board.any_in(0, 6, sq) && board.any_in(6, 12, sq) {
            let i = choose|i: int| 0 <= i < 6 && #[trigger] bit_set(board.bitboards[i], sq);
            let j = choose|j: int| 6 <= j < 12 && #[trigger] bit_set(board.bitboards[j], sq);
        }
    }
}

/// Whatever moves are tried on a consistent position, in whatever order, the
/// position stays consistent: the occupancy bitboards stay the unions of the
/// piece bitboards and never share a square.
pub proof fn lemma_moves_keep_consistency(board: Board, moves: Seq<Move>)
    requires
        board.wf(),
    ensures
        after_moves(board, moves).wf(),
        after_moves(board, moves).all_white_bitboard | after_moves(board, moves).all_black_bitboard
            == after_moves(board, moves).bitboards[0] | after_moves(board, moves).bitboards[1]
            | after_moves(board, moves).bitboards[2] | after_moves(board, moves).bitboards[3]
            | after_moves(board, moves).bitboards[4] | after_moves(board, moves).bitboards[5]
            | after_moves(board, moves).bitboards[6] | after_moves(board, moves).bitboards[7]
            | after_moves(board, moves).bitboards[8] | after_moves(board, moves).bitboards[9]
            | after_moves(board, moves).bitboards[10] | after_moves(board, moves).bitboards[11],
        after_moves(board, moves).all_white_bitboard & after_moves(board, moves).all_black_bitboard
            == 0,
    decreases moves.len(),
{
    if moves.len() > 0 {
        lemma_moves_keep_consistency(board, moves.drop_last());
        let before = after_moves(board, moves.drop_last());
        if legal_move(before, moves.last()) {
            lemma_advanced_wf(before, moves.last());
        }
    }
    lemma_occupancy(after_moves(board, moves));
}

} // verus!
