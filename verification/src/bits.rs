//! Bitboards: a `u64` read as a set of squares, bit `i` standing for square `i`.

use vstd::prelude::*;

verus! {

/// The eight squares of the a-file.
pub const FILE_A: u64 = 0x0101010101010101;

/// The eight squares of the b-file.
pub const FILE_B: u64 = 0x0202020202020202;

/// The eight squares of the g-file.
pub const FILE_G: u64 = 0x4040404040404040;

/// The eight squares of the h-file.
pub const FILE_H: u64 = 0x8080808080808080;

/// Square `sq` is a member of the bitboard `bb`.
pub open spec fn bit_set(bb: u64, sq: int) -> bool {
    0 <= sq < 64 && (bb >> (sq as u64)) & 1 == 1
}

proof fn bv_or(a: u64, b: u64, i: u64)
    by (bit_vector)
    requires
        i < 64,
    ensures
        (((a | b) >> i) & 1 == 1) == (((a >> i) & 1 == 1) || ((b >> i) & 1 == 1)),
{
}

proof fn bv_and(a: u64, b: u64, i: u64)
    by (bit_vector)
    requires
        i < 64,
    ensures
        (((a & b) >> i) & 1 == 1) == (((a >> i) & 1 == 1) && ((b >> i) & 1 == 1)),
{
}

proof fn bv_xor(a: u64, b: u64, i: u64)
    by (bit_vector)
    requires
        i < 64,
    ensures
        (((a ^ b) >> i) & 1 == 1) == (((a >> i) & 1 == 1) != ((b >> i) & 1 == 1)),
{
}

proof fn bv_not(a: u64, i: u64)
    by (bit_vector)
    requires
        i < 64,
    ensures
        (((!a) >> i) & 1 == 1) == !((a >> i) & 1 == 1),
{
}

proof fn bv_single(j: u64, i: u64)
    by (bit_vector)
    requires
        i < 64,
        j < 64,
    ensures
        (((1u64 << j) >> i) & 1 == 1) == (i == j),
{
}

proof fn bv_zero(i: u64)
    by (bit_vector)
    requires
        i < 64,
    ensures
        (0u64 >> i) & 1 == 0,
{
}

proof fn bv_shl(a: u64, k: u64, i: u64)
    by (bit_vector)
    requires
        i < 64,
        k < 64,
    ensures
        (((a << k) >> i) & 1 == 1) == (i >= k && ((a >> ((i - k) as u64)) & 1 == 1)),
{
}

proof fn bv_shr(a: u64, k: u64, i: u64)
    by (bit_vector)
    requires
        i < 64,
        k < 64,
    ensures
        (((a >> k) >> i) & 1 == 1) == (i + k < 64 && ((a >> ((i + k) as u64)) & 1 == 1)),
{
}

proof fn bv_files(i: u64)
    by (bit_vector)
    requires
        i < 64,
    ensures
        ((FILE_A >> i) & 1 == 1) == (i % 8 == 0),
        ((FILE_B >> i) & 1 == 1) == (i % 8 == 1),
        ((FILE_G >> i) & 1 == 1) == (i % 8 == 6),
        ((FILE_H >> i) & 1 == 1) == (i % 8 == 7),
{
}

/// Union of bitboards is union of their squares.
pub proof fn lemma_or(a: u64, b: u64)
    ensures
        forall|i: int| #[trigger] bit_set(a | b, i) == (bit_set(a, i) || bit_set(b, i)),
{
    assert forall|i: int| #[trigger] bit_set(a | b, i) == (bit_set(a, i) || bit_set(b, i)) by {
        if 0 <= i < 64 {
            bv_or(a, b, i as u64);
        }
    }
}

/// Intersection of bitboards is intersection of their squares.
pub proof fn lemma_and(a: u64, b: u64)
    ensures
        forall|i: int| #[trigger] bit_set(a & b, i) == (bit_set(a, i) && bit_set(b, i)),
{
    assert forall|i: int| #[trigger] bit_set(a & b, i) == (bit_set(a, i) && bit_set(b, i)) by {
        if 0 <= i < 64 {
            bv_and(a, b, i as u64);
        }
    }
}

/// The complement holds exactly the board squares that the bitboard lacks.
pub proof fn lemma_not(a: u64)
    ensures
        forall|i: int| #[trigger] bit_set(!a, i) == (0 <= i < 64 && !bit_set(a, i)),
{
    assert forall|i: int| #[trigger] bit_set(!a, i) == (0 <= i < 64 && !bit_set(a, i)) by {
        if 0 <= i < 64 {
            bv_not(a, i as u64);
        }
    }
}

/// `1 << j` holds square `j` and nothing else.
pub proof fn lemma_single(j: u64)
    requires
        j < 64,
    ensures
        forall|i: int| #[trigger] bit_set(1u64 << j, i) == (i == j),
{
    assert forall|i: int| #[trigger] bit_set(1u64 << j, i) == (i == j) by {
        if 0 <= i < 64 {
            bv_single(j, i as u64);
        }
    }
}

/// The empty bitboard holds no square.
pub proof fn lemma_zero()
    ensures
        forall|i: int| !#[trigger] bit_set(0u64, i),
{
    assert forall|i: int| !#[trigger] bit_set(0u64, i) by {
        if 0 <= i < 64 {
            bv_zero(i as u64);
        }
    }
}

/// Shifting left by `k` moves every square up by `k`; squares pushed past 63 are lost.
pub proof fn lemma_shl(a: u64, k: u64)
    requires
        k < 64,
    ensures
        forall|i: int| #[trigger] bit_set(a << k, i) == (k <= i < 64 && bit_set(a, i - k)),
{
    assert forall|i: int| #[trigger] bit_set(a << k, i) == (k <= i < 64 && bit_set(a, i - k)) by {
        if 0 <= i < 64 {
            bv_shl(a, k, i as u64);
        }
    }
}

/// Shifting right by `k` moves every square down by `k`; squares pushed below 0 are lost.
pub proof fn lemma_shr(a: u64, k: u64)
    requires
        k < 64,
    ensures
        forall|i: int| #[trigger] bit_set(a >> k, i) == (0 <= i && bit_set(a, i + k)),
{
    assert forall|i: int| #[trigger] bit_set(a >> k, i) == (0 <= i && bit_set(a, i + k)) by {
        if 0 <= i < 64 {
            bv_shr(a, k, i as u64);
        }
    }
}

/// The file masks hold the squares of their file.
pub proof fn lemma_files()
    ensures
        forall|i: int| #[trigger] bit_set(FILE_A, i) == (0 <= i < 64 && i % 8 == 0),
        forall|i: int| #[trigger] bit_set(FILE_B, i) == (0 <= i < 64 && i % 8 == 1),
        forall|i: int| #[trigger] bit_set(FILE_G, i) == (0 <= i < 64 && i % 8 == 6),
        forall|i: int| #[trigger] bit_set(FILE_H, i) == (0 <= i < 64 && i % 8 == 7),
{
    assert forall|i: int| #[trigger] bit_set(FILE_A, i) == (0 <= i < 64 && i % 8 == 0) by {
        if 0 <= i < 64 {
            bv_files(i as u64);
        }
    }
    assert forall|i: int| #[trigger] bit_set(FILE_B, i) == (0 <= i < 64 && i % 8 == 1) by {
        if 0 <= i < 64 {
            bv_files(i as u64);
        }
    }
    assert forall|i: int| #[trigger] bit_set(FILE_G, i) == (0 <= i < 64 && i % 8 == 6) by {
        if 0 <= i < 64 {
            bv_files(i as u64);
        }
    }
    assert forall|i: int| #[trigger] bit_set(FILE_H, i) == (0 <= i < 64 && i % 8 == 7) by {
        if 0 <= i < 64 {
            bv_files(i as u64);
        }
    }
}

/// A non-empty bitboard holds some square.
pub proof fn lemma_nonzero_has_square(a: u64)
    requires
        a != 0,
    ensures
        exists|i: int| bit_set(a, i),
{
    vstd::std_specs::bits::axiom_u64_trailing_zeros(a);
    let i = vstd::std_specs::bits::u64_trailing_zeros(a) as int;
    assert(bit_set(a, i));
}

/// Two bitboards with the same squares are the same number.
pub proof fn lemma_same_squares(a: u64, b: u64)
    requires
        forall|i: int| 0 <= i < 64 ==> bit_set(a, i) == bit_set(b, i),
    ensures
        a == b,
{
    if a ^ b != 0 {
        lemma_nonzero_has_square(a ^ b);
        let i = choose|i: int| bit_set(a ^ b, i);
        bv_xor(a, b, i as u64);
        assert(bit_set(a, i) == bit_set(b, i));
    }
    assert(a ^ b == 0 ==> a == b) by (bit_vector);
}

/// Bitboards without a common square have an empty intersection, and conversely.
pub proof fn lemma_disjoint(a: u64, b: u64)
    ensures
        (a & b == 0) <==> (forall|i: int| 0 <= i < 64 ==> !(bit_set(a, i) && bit_set(b, i))),
{
    lemma_and(a, b);
    if a & b == 0 {
        lemma_zero();
        assert forall|i: int| 0 <= i < 64 implies !(bit_set(a, i) && bit_set(b, i)) by {
            assert(!bit_set(a & b, i));
        }
    } else {
        lemma_nonzero_has_square(a & b);
        let i = choose|i: int| bit_set(a & b, i);
        assert(bit_set(a, i) && bit_set(b, i));
    }
}

/// The bitboard that holds square `sq` alone.
pub fn square_mask(sq: u8) -> (r: u64)
    requires
        sq < 64,
    ensures
        r == 1u64 << (sq as u64),
        forall|i: int| #[trigger] bit_set(r, i) == (i == sq),
{
    proof {
        lemma_single(sq as u64);
    }
    1u64 << (sq as u64)
}

/// Tests membership of a square.
pub fn has_square(bb: u64, sq: u8) -> (r: bool)
    requires
        sq < 64,
    ensures
        r == bit_set(bb, sq as int),
{
    (bb >> (sq as u64)) & 1 == 1
}

/// Adds a square to a bitboard.
pub fn with_square(bb: u64, sq: u8) -> (r: u64)
    requires
        sq < 64,
    ensures
        r == bb | (1u64 << (sq as u64)),
        forall|i: int| #[trigger] bit_set(r, i) == (bit_set(bb, i) || i == sq),
{
    let m: u64 = square_mask(sq);
    proof {
        lemma_or(bb, m);
    }
    bb | m
}

/// Removes a square from a bitboard.
pub fn without_square(bb: u64, sq: u8) -> (r: u64)
    requires
        sq < 64,
    ensures
        r == bb & !(1u64 << (sq as u64)),
        forall|i: int| #[trigger] bit_set(r, i) == (bit_set(bb, i) && i != sq),
{
    let m: u64 = square_mask(sq);
    proof {
        lemma_not(m);
        lemma_and(bb, !m);
    }
    bb & !m
}

} // verus!
