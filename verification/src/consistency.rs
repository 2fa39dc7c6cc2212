//! Testing whether a position is consistent.

use vstd::prelude::*;
use crate::bits::{bit_set, lemma_disjoint, lemma_or, lemma_same_squares, lemma_zero};
use crate::board::{Board, Piece};

verus! {

impl Board {
    /// Whether the position is consistent: no square holds two pieces, each
    /// occupancy bitboard is the union of its side's piece bitboards, the
    /// castling rights use their four bits only, and an en-passant target is
    /// a square of the board.
    pub fn is_consistent(&self) -> (r: bool)
        ensures
            r == self.wf(),
    {
        let mut seen: u64 = 0;
        let mut white: u64 = 0;
        let mut black: u64 = 0;
        let mut k: usize = 0;
        proof {
            lemma_zero();
        }
        while k < 12
            invariant
                k <= 12,
                forall|sq: int, i: int, j: int|
                    0 <= i < j < k ==> !(#[trigger] bit_set(self.bitboards[i], sq)
                        && #[trigger] bit_set(self.bitboards[j], sq)),
                forall|sq: int| #[trigger] bit_set(seen, sq) == self.any_in(0, k as int, sq),
                forall|sq: int| #[trigger]
                    bit_set(white, sq) == self.any_in(0, if k < 6 {
                        k as int
                    } else {
                        6
                    }, sq),
                forall|sq: int| #[trigger]
                    bit_set(black, sq) == self.any_in(6, if k < 6 {
                        6
                    } else {
                        k as int
                    }, sq),
            decreases 12 - k,
        {
            let bb: u64 = self.bitboards[k];
            proof {
                lemma_disjoint(seen, bb);
            }
            if seen & bb != 0 {
                proof {
                    let sq = choose|sq: int|
                        0 <= sq < 64 && bit_set(seen, sq) && bit_set(bb, sq);
                    assert(self.any_in(0, k as int, sq));
                    let i = choose|i: int| 0 <= i < k && #[trigger] bit_set(self.bitboards[i], sq);
                    assert(bit_set(self.bitboards[i], sq) && bit_set(self.bitboards[k as int], sq));
                }
                return false;
            }
            proof {
                lemma_or(seen, bb);
                lemma_or(white, bb);
                lemma_or(black, bb);
                assert forall|sq: int| #[trigger]
                    bit_set(seen | bb, sq) == self.any_in(0, k + 1, sq) by {
                    if self.any_in(0, k + 1, sq) {
                        let i = choose|i: int|
                            0 <= i < k + 1 && #[trigger] bit_set(self.bitboards[i], sq);
                        if i < k {
                            assert(self.any_in(0, k as int, sq));
                        }
                    }
                    if self.any_in(0, k as int, sq) {
                        let i = choose|i: int|
                            0 <= i < k && #[trigger] bit_set(self.bitboards[i], sq);
                        assert(bit_set(self.bitboards[i], sq));
                    }
                    if bit_set(bb, sq) {
                        assert(bit_set(self.bitboards[k as int], sq));
                    }
                }
                if k < 6 {
                    assert forall|sq: int| #[trigger]
                        bit_set(white | bb, sq) == self.any_in(0, k + 1, sq) by {
                        if self.any_in(0, k + 1, sq) {
                            let i = choose|i: int|
                                0 <= i < k + 1 && #[trigger] bit_set(self.bitboards[i], sq);
                            if i < k {
                                assert(self.any_in(0, k as int, sq));
                            }
                        }
                        if self.any_in(0, k as int, sq) {
                            let i = choose|i: int|
                                0 <= i < k && #[trigger] bit_set(self.bitboards[i], sq);
                            assert(bit_set(self.bitboards[i], sq));
                        }
                        if bit_set(bb, sq) {
                            assert(bit_set(self.bitboards[k as int], sq));
                        }
                    }
                } else {
                    assert forall|sq: int| #[trigger]
                        bit_set(black | bb, sq) == self.any_in(6, k + 1, sq) by {
                        if self.any_in(6, k + 1, sq) {
                            let i = choose|i: int|
                                6 <= i < k + 1 && #[trigger] bit_set(self.bitboards[i], sq);
                            if i < k {
                                assert(self.any_in(6, k as int, sq));
                            }
                        }
                        if self.any_in(6, k as int, sq) {
                            let i = choose|i: int|
                                6 <= i < k && #[trigger] bit_set(self.bitboards[i], sq);
                            assert(bit_set(self.bitboards[i], sq));
                        }
                        if bit_set(bb, sq) {
                            assert(bit_set(self.bitboards[k as int], sq));
                        }
                    }
                }
            }
            seen = seen | bb;
            if k < 6 {
                white = white | bb;
            } else {
                black = black | bb;
            }
            k = k + 1;
        }
        if white != self.all_white_bitboard {
            proof {
                if self.wf() {
                    lemma_same_squares(white, self.all_white_bitboard);
                }
            }
            return false;
        }
        if black != self.all_black_bitboard {
            proof {
                if self.wf() {
                    lemma_same_squares(black, self.all_black_bitboard);
                }
            }
            return false;
        }
        if self.castling_rights >= 16 {
            return false;
        }
        match self.en_passant {
            Some(sq) => sq < 64,
            None => true,
        }
    }
}

/// In a consistent position a bitboard holds a square exactly when the piece
/// on that square is the bitboard's piece.
pub proof fn lemma_bit_is_piece(board: Board, i: int, sq: int)
    requires
        board.wf(),
        0 <= i < 12,
    ensures
        bit_set(board.bitboards[i], sq) == (board.piece_at(sq) == Some(Piece::of_slot(i))),
{
    if bit_set(board.bitboards[i], sq) {
        assert(board.slot_at(sq) == Some(i));
    }
    if board.piece_at(sq) == Some(Piece::of_slot(i)) {
        let j = board.slot_at(sq).unwrap();
        assert(Piece::of_slot(j) == Piece::of_slot(i));
        assert(j == i);
    }
}

/// A consistent position is determined by what it is: two consistent
/// positions with the same pieces on the same squares and the same scalar
/// fields have the same bitboards.
pub proof fn lemma_view_determines_board(a: Board, b: Board)
    requires
        a.wf(),
        b.wf(),
        a@ == b@,
    ensures
        a == b,
{
    assert forall|sq: int| 0 <= sq < 64 implies a.piece_at(sq) == b.piece_at(sq) by {
        assert(a@.squares[sq] == a.piece_at(sq));
        assert(b@.squares[sq] == b.piece_at(sq));
    }
    assert forall|i: int| 0 <= i < 12 implies a.bitboards[i] == b.bitboards[i] by {
        assert forall|sq: int| 0 <= sq < 64 implies bit_set(a.bitboards[i], sq) == bit_set(
            b.bitboards[i],
            sq,
        ) by {
            lemma_bit_is_piece(a, i, sq);
            lemma_bit_is_piece(b, i, sq);
        }
        lemma_same_squares(a.bitboards[i], b.bitboards[i]);
    }
    assert(a.bitboards =~= b.bitboards);
    assert forall|sq: int| 0 <= sq < 64 implies bit_set(a.all_white_bitboard, sq) == bit_set(
        b.all_white_bitboard,
        sq,
    ) by {
        assert(a.any_in(0, 6, sq) == b.any_in(0, 6, sq));
    }
    lemma_same_squares(a.all_white_bitboard, b.all_white_bitboard);
    assert forall|sq: int| 0 <= sq < 64 implies bit_set(a.all_black_bitboard, sq) == bit_set(
        b.all_black_bitboard,
        sq,
    ) by {
        assert(a.any_in(6, 12, sq) == b.any_in(6, 12, sq));
    }
    lemma_same_squares(a.all_black_bitboard, b.all_black_bitboard);
}

} // verus!
