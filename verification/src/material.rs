//! Draw predicates that look at the material and at the clocks.

use vstd::prelude::*;
use crate::bits::{bit_set, has_square};
use crate::board::{Board, Color, PieceType};

verus! {

/// The number of squares below `n` that a bitboard holds.
pub open spec fn count_below(bb: u64, n: int) -> int
    decreases n,
{
    if n <= 0 {
        0
    } else {
        count_below(bb, n - 1) + if bit_set(bb, n - 1) {
            1int
        } else {
            0int
        }
    }
}

/// The number of squares that a bitboard holds.
pub open spec fn square_count(bb: u64) -> int {
    count_below(bb, 64)
}

/// Counts the squares of a bitboard.
pub fn count_squares(bb: u64) -> (r: u32)
    ensures
        r == square_count(bb),
        r <= 64,
{
    let mut r: u32 = 0;
    let mut sq: u8 = 0;
    while sq < 64
        invariant
            sq <= 64,
            r == count_below(bb, sq as int),
            r <= sq,
        decreases 64 - sq,
    {
        if has_square(bb, sq) {
            r = r + 1;
        }
        sq = sq + 1;
    }
    r
}

impl Board {
    /// The side's only piece is a king.
    pub open spec fn bare_king(&self, color: Color) -> bool {
        square_count(self.occupancy(color)) == 1 && square_count(self.mask(color, PieceType::King))
            == 1
    }

    /// The side's only pieces are a king and one bishop or knight.
    pub open spec fn king_and_minor(&self, color: Color) -> bool {
        &&& square_count(self.occupancy(color)) == 2
        &&& square_count(self.mask(color, PieceType::King)) == 1
        &&& square_count(
            self.mask(color, PieceType::Bishop) | self.mask(color, PieceType::Knight),
        ) == 1
    }

    /// Neither side can mate: king against king, or king and one bishop or
    /// knight against king.
    pub open spec fn insufficient_material(&self) -> bool {
        ||| self.bare_king(Color::White) && self.bare_king(Color::Black)
        ||| self.king_and_minor(Color::White) && self.bare_king(Color::Black)
        ||| self.bare_king(Color::White) && self.king_and_minor(Color::Black)
    }

    /// Whether a side's only piece is a king.
    fn has_bare_king(&self, color: Color) -> (r: bool)
        ensures
            r == self.bare_king(color),
    {
        count_squares(self.side_occupancy(color)) == 1 && count_squares(
            self.piece_mask(color, PieceType::King),
        ) == 1
    }

    /// Whether a side's only pieces are a king and one bishop or knight.
    fn has_king_and_minor(&self, color: Color) -> (r: bool)
        ensures
            r == self.king_and_minor(color),
    {
        let minor_pieces: u64 = self.piece_mask(color, PieceType::Bishop) | self.piece_mask(
            color,
            PieceType::Knight,
        );
        count_squares(self.side_occupancy(color)) == 2 && count_squares(
            self.piece_mask(color, PieceType::King),
        ) == 1 && count_squares(minor_pieces) == 1
    }

    /// Whether the material left on the board cannot give mate: king against
    /// king, or king and one bishop or knight against king.
    pub fn is_insufficient_material(&self) -> (r: bool)
        ensures
            r == self.insufficient_material(),
    {
        let white_bare: bool = self.has_bare_king(Color::White);
        let black_bare: bool = self.has_bare_king(Color::Black);
        if white_bare && black_bare {
            return true;
        }
        if black_bare && self.has_king_and_minor(Color::White) {
            return true;
        }
        if white_bare && self.has_king_and_minor(Color::Black) {
            return true;
        }
        false
    }

    /// Whether fifty moves have passed without a pawn move or a capture.
    pub fn is_50_move_rule(&self) -> (r: bool)
        ensures
            r == (self.halfmove_clock >= 50),
    {
        self.halfmove_clock >= 50
    }

    /// Whether the position has occurred three times. No history of positions
    /// is kept, so the answer is always no.
    pub fn is_3_fold_repetition(&self) -> (r: bool)
        ensures
            !r,
    {
        false
    }
}

} // verus!
