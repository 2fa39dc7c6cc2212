//! Taking a piece off a square and setting one down: the two edits that every
//! move is made of, and what they do to a consistent position.

use vstd::prelude::*;
use crate::bits::{
    bit_set, has_square, lemma_and, lemma_not, lemma_or, lemma_single, with_square,
    without_square,
};
use crate::board::{Board, Color, Piece, PieceType};

verus! {

impl Board {
    /// The position with the bitboard at index `slot` replaced by `bb`.
    pub open spec fn with_mask(self, slot: int, bb: u64) -> Board {
        Board {
            bitboards: [
                if slot == 0 { bb } else { self.bitboards[0] },
                if slot == 1 { bb } else { self.bitboards[1] },
                if slot == 2 { bb } else { self.bitboards[2] },
                if slot == 3 { bb } else { self.bitboards[3] },
                if slot == 4 { bb } else { self.bitboards[4] },
                if slot == 5 { bb } else { self.bitboards[5] },
                if slot == 6 { bb } else { self.bitboards[6] },
                if slot == 7 { bb } else { self.bitboards[7] },
                if slot == 8 { bb } else { self.bitboards[8] },
                if slot == 9 { bb } else { self.bitboards[9] },
                if slot == 10 { bb } else { self.bitboards[10] },
                if slot == 11 { bb } else { self.bitboards[11] },
            ],
            ..self
        }
    }

    /// The position with one side's occupancy bitboard replaced by `bb`.
    pub open spec fn with_occupancy(self, color: Color, bb: u64) -> Board {
        match color {
            Color::White => Board { all_white_bitboard: bb, ..self },
            Color::Black => Board { all_black_bitboard: bb, ..self },
        }
    }

    /// The position after a piece of the given side and kind is taken off `sq`.
    /// Where no such piece stands on `sq`, nothing changes.
    pub open spec fn lifted(self, color: Color, piece: PieceType, sq: int) -> Board {
        if self.holds(color, piece, sq) {
            self.with_mask(
                color.base() + piece.ordinal(),
                self.mask(color, piece) & !(1u64 << (sq as u64)),
            ).with_occupancy(color, self.occupancy(color) & !(1u64 << (sq as u64)))
        } else {
            self
        }
    }

    /// The position after a piece of the given side and kind is set down on `sq`.
    pub open spec fn set_down(self, color: Color, piece: PieceType, sq: int) -> Board {
        self.with_mask(
            color.base() + piece.ordinal(),
            self.mask(color, piece) | (1u64 << (sq as u64)),
        ).with_occupancy(color, self.occupancy(color) | (1u64 << (sq as u64)))
    }

    /// No bitboard holds the square.
    pub open spec fn vacant(&self, sq: int) -> bool {
        forall|i: int| 0 <= i < 12 ==> !#[trigger] bit_set(self.bitboards[i], sq)
    }

    /// Taking a piece off a square keeps a position consistent, empties that
    /// square and leaves every other square as it was.
    pub proof fn lemma_lifted(self, color: Color, piece: PieceType, sq: int)
        requires
            self.wf(),
            0 <= sq < 64,
        ensures
            self.lifted(color, piece, sq).wf(),
            self.holds(color, piece, sq) ==> self.lifted(color, piece, sq).vacant(sq),
            forall|i: int, x: int|
                0 <= i < 12 ==> #[trigger] bit_set(self.lifted(color, piece, sq).bitboards[i], x)
                    == (bit_set(self.bitboards[i], x) && !(i == color.base() + piece.ordinal() && x
                    == sq)),
            forall|x: int|
                x != sq ==> #[trigger] self.lifted(color, piece, sq).piece_at(x) == self.piece_at(
                    x,
                ),
            self.lifted(color, piece, sq).active_color == self.active_color,
            self.lifted(color, piece, sq).castling_rights == self.castling_rights,
            self.lifted(color, piece, sq).en_passant == self.en_passant,
            self.lifted(color, piece, sq).halfmove_clock == self.halfmove_clock,
            self.lifted(color, piece, sq).fullmove_number == self.fullmove_number,
    {
        let n = self.lifted(color, piece, sq);
        let slot = color.base() + piece.ordinal();
        let m = 1u64 << (sq as u64);
        if self.holds(color, piece, sq) {
            lemma_single(sq as u64);
            lemma_not(m);
            lemma_and(self.mask(color, piece), !m);
            lemma_and(self.occupancy(color), !m);
            assert forall|i: int, x: int| 0 <= i < 12 implies #[trigger] bit_set(
                n.bitboards[i],
                x,
            ) == (bit_set(self.bitboards[i], x) && !(i == slot && x == sq)) by {}
            assert forall|x: int| #[trigger]
                bit_set(n.all_white_bitboard, x) == n.any_in(0, 6, x) by {
                if self.any_in(0, 6, x) {
                    let i = choose|i: int| 0 <= i < 6 && #[trigger] bit_set(self.bitboards[i], x);
                    if !(color == Color::White && x == sq) {
                        assert(bit_set(n.bitboards[i], x));
                    }
                }
                if n.any_in(0, 6, x) {
                    let i = choose|i: int| 0 <= i < 6 && #[trigger] bit_set(n.bitboards[i], x);
                    assert(bit_set(self.bitboards[i], x));
                }
                if color == Color::White && x == sq {
                    assert(bit_set(self.bitboards[slot], x));
                }
            }
            assert forall|x: int| #[trigger]
                bit_set(n.all_black_bitboard, x) == n.any_in(6, 12, x) by {
                if self.any_in(6, 12, x) {
                    let i = choose|i: int| 6 <= i < 12 && #[trigger] bit_set(self.bitboards[i], x);
                    if !(color == Color::Black && x == sq) {
                        assert(bit_set(n.bitboards[i], x));
                    }
                }
                if n.any_in(6, 12, x) {
                    let i = choose|i: int| 6 <= i < 12 && #[trigger] bit_set(n.bitboards[i], x);
                    assert(bit_set(self.bitboards[i], x));
                }
                if color == Color::Black && x == sq {
                    assert(bit_set(self.bitboards[slot], x));
                }
            }
            assert forall|i: int| 0 <= i < 12 implies !#[trigger] bit_set(n.bitboards[i], sq) by {
                assert(bit_set(self.bitboards[slot], sq));
            }
        }
    }

    /// Setting a piece down on a square that no piece stands on keeps a position
    /// consistent, puts the piece there and leaves every other square as it was.
    pub proof fn lemma_set_down(self, color: Color, piece: PieceType, sq: int)
        requires
            self.wf(),
            0 <= sq < 64,
            self.vacant(sq),
        ensures
            self.set_down(color, piece, sq).wf(),
            self.set_down(color, piece, sq).piece_at(sq) == Some(
                Piece { color: color, piece_type: piece },
            ),
            forall|i: int, x: int|
                0 <= i < 12 ==> #[trigger] bit_set(self.set_down(color, piece, sq).bitboards[i], x)
                    == (bit_set(self.bitboards[i], x) || (i == color.base() + piece.ordinal() && x
                    == sq)),
            forall|x: int|
                x != sq ==> #[trigger] self.set_down(color, piece, sq).piece_at(x)
                    == self.piece_at(x),
            self.set_down(color, piece, sq).active_color == self.active_color,
            self.set_down(color, piece, sq).castling_rights == self.castling_rights,
            self.set_down(color, piece, sq).en_passant == self.en_passant,
            self.set_down(color, piece, sq).halfmove_clock == self.halfmove_clock,
            self.set_down(color, piece, sq).fullmove_number == self.fullmove_number,
    {
        let n = self.set_down(color, piece, sq);
        let slot = color.base() + piece.ordinal();
        let m = 1u64 << (sq as u64);
        lemma_single(sq as u64);
        lemma_or(self.mask(color, piece), m);
        lemma_or(self.occupancy(color), m);
        assert forall|i: int, x: int| 0 <= i < 12 implies #[trigger] bit_set(n.bitboards[i], x)
            == (bit_set(self.bitboards[i], x) || (i == slot && x == sq)) by {}
        assert forall|x: int| #[trigger] bit_set(n.all_white_bitboard, x) == n.any_in(0, 6, x) by {
            if self.any_in(0, 6, x) {
                let i = choose|i: int| 0 <= i < 6 && #[trigger] bit_set(self.bitboards[i], x);
                assert(bit_set(n.bitboards[i], x));
            }
            if n.any_in(0, 6, x) {
                let i = choose|i: int| 0 <= i < 6 && #[trigger] bit_set(n.bitboards[i], x);
                if !(i == slot && x == sq) {
                    assert(bit_set(self.bitboards[i], x));
                }
            }
            if color == Color::White && x == sq {
                assert(bit_set(n.bitboards[slot], x));
            }
        }
        assert forall|x: int| #[trigger]
            bit_set(n.all_black_bitboard, x) == n.any_in(6, 12, x) by {
            if self.any_in(6, 12, x) {
                let i = choose|i: int| 6 <= i < 12 && #[trigger] bit_set(self.bitboards[i], x);
                assert(bit_set(n.bitboards[i], x));
            }
            if n.any_in(6, 12, x) {
                let i = choose|i: int| 6 <= i < 12 && #[trigger] bit_set(n.bitboards[i], x);
                if !(i == slot && x == sq) {
                    assert(bit_set(self.bitboards[i], x));
                }
            }
            if color == Color::Black && x == sq {
                assert(bit_set(n.bitboards[slot], x));
            }
        }
        assert(bit_set(n.bitboards[slot], sq));
    }

    /// Takes a piece of the given side and kind off `sq`, if one stands there.
    pub fn lift(&mut self, color: Color, piece: PieceType, sq: u8)
        requires
            sq < 64,
        ensures
            *final(self) == old(self).lifted(color, piece, sq as int),
    {
        let slot: usize = color.offset() + piece.index();
        let bb: u64 = self.bitboards[slot];
        if has_square(bb, sq) {
            self.bitboards[slot] = without_square(bb, sq);
            match color {
                Color::White => {
                    self.all_white_bitboard = without_square(self.all_white_bitboard, sq);
                },
                Color::Black => {
                    self.all_black_bitboard = without_square(self.all_black_bitboard, sq);
                },
            }
            assert(self.bitboards =~= old(self).lifted(color, piece, sq as int).bitboards);
        }
    }

    /// Sets a piece of the given side and kind down on `sq`.
    pub fn put(&mut self, color: Color, piece: PieceType, sq: u8)
        requires
            sq < 64,
        ensures
            *final(self) == old(self).set_down(color, piece, sq as int),
    {
        let slot: usize = color.offset() + piece.index();
        let bb: u64 = self.bitboards[slot];
        self.bitboards[slot] = with_square(bb, sq);
        match color {
            Color::White => {
                self.all_white_bitboard = with_square(self.all_white_bitboard, sq);
            },
            Color::Black => {
                self.all_black_bitboard = with_square(self.all_black_bitboard, sq);
            },
        }
        assert(self.bitboards =~= old(self).set_down(color, piece, sq as int).bitboards);
    }
}

} // verus!
