//! Board state: twelve piece bitboards, two occupancy bitboards and the scalar
//! fields that a position carries from ply to ply.

use vstd::prelude::*;
use crate::bits::{bit_set, has_square, lemma_or};

verus! {

/// The side that owns a piece, or whose turn it is.
#[derive(Copy, Clone, Debug, PartialEq, Eq, Structural)]
pub enum Color {
    White,
    Black,
}

impl Color {
    /// The other side.
    pub open spec fn opposite(self) -> Color {
        match self {
            Color::White => Color::Black,
            Color::Black => Color::White,
        }
    }

    /// Where this side's six bitboards start in the array of twelve.
    pub open spec fn base(self) -> int {
        match self {
            Color::White => 0,
            Color::Black => 6,
        }
    }

    /// Where this side's six bitboards start in the array of twelve.
    pub fn offset(self) -> (r: usize)
        ensures
            r == self.base(),
    {
        match self {
            Color::White => 0,
            Color::Black => 6,
        }
    }
}

impl core::ops::Not for Color {
    type Output = Color;

    fn not(self) -> (r: Color) {
        match self {
            Color::White => Color::Black,
            Color::Black => Color::White,
        }
    }
}

impl vstd::std_specs::ops::NotSpecImpl for Color {
    open spec fn obeys_not_spec() -> bool {
        true
    }

    open spec fn not_req(self) -> bool {
        true
    }

    open spec fn not_spec(self) -> Color {
        self.opposite()
    }
}

/// The kind of a piece. The order of the variants is the order of a side's bitboards.
#[derive(Copy, Clone, Debug, PartialEq, Eq, Structural)]
pub enum PieceType {
    Pawn,
    Knight,
    Bishop,
    Rook,
    Queen,
    King,
}

impl PieceType {
    /// The ordinal of the kind, 0 for a pawn to 5 for a king.
    pub open spec fn ordinal(self) -> int {
        match self {
            PieceType::Pawn => 0,
            PieceType::Knight => 1,
            PieceType::Bishop => 2,
            PieceType::Rook => 3,
            PieceType::Queen => 4,
            PieceType::King => 5,
        }
    }

    /// The kind with a given ordinal.
    pub open spec fn of_ordinal(i: int) -> PieceType {
        if i == 0 {
            PieceType::Pawn
        } else if i == 1 {
            PieceType::Knight
        } else if i == 2 {
            PieceType::Bishop
        } else if i == 3 {
            PieceType::Rook
        } else if i == 4 {
            PieceType::Queen
        } else {
            PieceType::King
        }
    }

    /// The kind that a lower-case letter stands for.
    pub open spec fn of_letter(c: char) -> Option<PieceType> {
        if c == 'p' {
            Some(PieceType::Pawn)
        } else if c == 'n' {
            Some(PieceType::Knight)
        } else if c == 'b' {
            Some(PieceType::Bishop)
        } else if c == 'r' {
            Some(PieceType::Rook)
        } else if c == 'q' {
            Some(PieceType::Queen)
        } else if c == 'k' {
            Some(PieceType::King)
        } else {
            None
        }
    }

    /// The ordinal of the kind, 0 for a pawn to 5 for a king.
    pub fn index(self) -> (r: usize)
        ensures
            r == self.ordinal(),
            r < 6,
    {
        match self {
            PieceType::Pawn => 0,
            PieceType::Knight => 1,
            PieceType::Bishop => 2,
            PieceType::Rook => 3,
            PieceType::Queen => 4,
            PieceType::King => 5,
        }
    }

    /// The kind with a given ordinal.
    pub fn from_index(i: usize) -> (r: PieceType)
        requires
            i < 6,
        ensures
            r == PieceType::of_ordinal(i as int),
            r.ordinal() == i,
    {
        if i == 0 {
            PieceType::Pawn
        } else if i == 1 {
            PieceType::Knight
        } else if i == 2 {
            PieceType::Bishop
        } else if i == 3 {
            PieceType::Rook
        } else if i == 4 {
            PieceType::Queen
        } else {
            PieceType::King
        }
    }

    /// Reads a piece kind from the first character of a string: one of the
    /// lower-case letters `p`, `n`, `b`, `r`, `q`, `k`. An empty string, or
    /// another first character, gives `None`.
    pub fn from(piece_type_str: String) -> (r: Option<PieceType>)
        ensures
            r == (if piece_type_str@.len() == 0 {
                None
            } else {
                PieceType::of_letter(piece_type_str@[0])
            }),
    {
        let s: &str = piece_type_str.as_str();
        if s.unicode_len() == 0 {
            return None;
        }
        let c: char = s.get_char(0);
        match c {
            'p' => Some(PieceType::Pawn),
            'n' => Some(PieceType::Knight),
            'b' => Some(PieceType::Bishop),
            'r' => Some(PieceType::Rook),
            'q' => Some(PieceType::Queen),
            'k' => Some(PieceType::King),
            _ => None,
        }
    }
}

/// A piece: its side and its kind.
#[derive(Copy, Clone, Debug, PartialEq, Eq, Structural)]
pub struct Piece {
    pub color: Color,
    pub piece_type: PieceType,
}

impl Piece {
    /// The piece whose bitboard has a given index.
    pub open spec fn of_slot(i: int) -> Piece {
        if i < 6 {
            Piece { color: Color::White, piece_type: PieceType::of_ordinal(i) }
        } else {
            Piece { color: Color::Black, piece_type: PieceType::of_ordinal(i - 6) }
        }
    }
}

/// What a position is, apart from how the bitboards encode it: the piece on
/// each of the 64 squares and the scalar fields.
pub struct Position {
    pub squares: Seq<Option<Piece>>,
    pub active_color: Color,
    pub castling_rights: u8,
    pub en_passant: Option<u8>,
    pub halfmove_clock: u32,
    pub fullmove_number: u32,
}

/// A position.
///
/// `bitboards[c * 6 + p]` holds the squares of the pieces of side `c` (0 white,
/// 6 black) and kind `p`. Bit 0 of `castling_rights` is White's king-side right,
/// bit 1 White's queen-side, bit 2 Black's king-side, bit 3 Black's queen-side.
#[derive(Debug, Clone, Copy)]
pub struct Board {
    pub bitboards: [u64; 12],
    pub all_white_bitboard: u64,
    pub all_black_bitboard: u64,
    pub active_color: Color,
    pub castling_rights: u8,
    pub en_passant: Option<u8>,
    pub halfmove_clock: u32,
    pub fullmove_number: u32,
}

impl View for Board {
    type V = Position;

    open spec fn view(&self) -> Position {
        Position {
            squares: Seq::new(64, |sq: int| self.piece_at(sq)),
            active_color: self.active_color,
            castling_rights: self.castling_rights,
            en_passant: self.en_passant,
            halfmove_clock: self.halfmove_clock,
            fullmove_number: self.fullmove_number,
        }
    }
}

impl Board {
    /// The bitboard of one side's pieces of one kind.
    pub open spec fn mask(&self, color: Color, piece: PieceType) -> u64 {
        self.bitboards[color.base() + piece.ordinal()]
    }

    /// A piece of that side and kind stands on the square.
    pub open spec fn holds(&self, color: Color, piece: PieceType, sq: int) -> bool {
        bit_set(self.mask(color, piece), sq)
    }

    /// The occupancy bitboard of a side.
    pub open spec fn occupancy(&self, color: Color) -> u64 {
        match color {
            Color::White => self.all_white_bitboard,
            Color::Black => self.all_black_bitboard,
        }
    }

    /// The side's occupancy marks the square.
    pub open spec fn occupied_by(&self, color: Color, sq: int) -> bool {
        bit_set(self.occupancy(color), sq)
    }

    /// The squares that both sides' pieces stand on.
    pub open spec fn all_occupancy(&self) -> u64 {
        self.all_white_bitboard | self.all_black_bitboard
    }

    /// Either side's occupancy marks the square.
    pub open spec fn occupied(&self, sq: int) -> bool {
        bit_set(self.all_occupancy(), sq)
    }

    /// Some bitboard with an index in `lo..hi` holds the square.
    pub open spec fn any_in(&self, lo: int, hi: int, sq: int) -> bool {
        exists|i: int| lo <= i < hi && #[trigger] bit_set(self.bitboards[i], sq)
    }

    /// The index of the first of the twelve bitboards that holds the square, if one does.
    pub open spec fn slot_at(&self, sq: int) -> Option<int> {
        if bit_set(self.bitboards[0], sq) {
            Some(0)
        } else if bit_set(self.bitboards[1], sq) {
            Some(1)
        } else if bit_set(self.bitboards[2], sq) {
            Some(2)
        } else if bit_set(self.bitboards[3], sq) {
            Some(3)
        } else if bit_set(self.bitboards[4], sq) {
            Some(4)
        } else if bit_set(self.bitboards[5], sq) {
            Some(5)
        } else if bit_set(self.bitboards[6], sq) {
            Some(6)
        } else if bit_set(self.bitboards[7], sq) {
            Some(7)
        } else if bit_set(self.bitboards[8], sq) {
            Some(8)
        } else if bit_set(self.bitboards[9], sq) {
            Some(9)
        } else if bit_set(self.bitboards[10], sq) {
            Some(10)
        } else if bit_set(self.bitboards[11], sq) {
            Some(11)
        } else {
            None
        }
    }

    /// The piece that stands on a square, if any.
    pub open spec fn piece_at(&self, sq: int) -> Option<Piece> {
        match self.slot_at(sq) {
            Some(i) => Some(Piece::of_slot(i)),
            None => None,
        }
    }

    /// The position is consistent: no square holds two pieces, each occupancy
    /// bitboard is the union of its side's six piece bitboards, the castling
    /// rights use their four bits only, and an en-passant target is a square.
    pub open spec fn wf(&self) -> bool {
        &&& forall|sq: int, i: int, j: int|
            0 <= i < j < 12 ==> !(#[trigger] bit_set(self.bitboards[i], sq) && #[trigger] bit_set(
                self.bitboards[j],
                sq,
            ))
        &&& forall|sq: int| #[trigger]
            bit_set(self.all_white_bitboard, sq) == self.any_in(0, 6, sq)
        &&& forall|sq: int| #[trigger]
            bit_set(self.all_black_bitboard, sq) == self.any_in(6, 12, sq)
        &&& self.castling_rights < 16
        &&& match self.en_passant {
            Some(sq) => sq < 64,
            None => true,
        }
    }

    /// The bitboard of one side's pieces of one kind.
    pub fn piece_mask(&self, color: Color, piece: PieceType) -> (r: u64)
        ensures
            r == self.mask(color, piece),
    {
        self.bitboards[color.offset() + piece.index()]
    }

    /// The occupancy bitboard of a side.
    pub fn side_occupancy(&self, color: Color) -> (r: u64)
        ensures
            r == self.occupancy(color),
    {
        match color {
            Color::White => self.all_white_bitboard,
            Color::Black => self.all_black_bitboard,
        }
    }

    /// Whether a piece of either side stands on the square.
    pub fn is_occupied(&self, sq: u8) -> (r: bool)
        requires
            sq < 64,
        ensures
            r == self.occupied(sq as int),
            r == (self.occupied_by(Color::White, sq as int) || self.occupied_by(
                Color::Black,
                sq as int,
            )),
    {
        proof {
            lemma_or(self.all_white_bitboard, self.all_black_bitboard);
        }
        has_square(self.all_white_bitboard | self.all_black_bitboard, sq)
    }
}

} // verus!
