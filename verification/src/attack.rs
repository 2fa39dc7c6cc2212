//! Attack maps: the squares that a side's pieces threaten, whoever stands on them.

use vstd::prelude::*;
use crate::bits::{
    bit_set, has_square, lemma_and, lemma_disjoint, lemma_files, lemma_not, lemma_or, lemma_shl,
    lemma_shr, lemma_zero, with_square, FILE_A, FILE_B, FILE_G, FILE_H,
};
use crate::bits::lemma_single;
use crate::board::{Board, Color, PieceType};
use crate::geometry::lemma_ray_on_board;
use crate::material::{count_below, square_count};
use crate::geometry::{
    distance_to_edge, edge_distance, file_of, on_board, rank_of, ray_square, step_along,
};

verus! {

/// The rank step of a pawn of that side: up the board for White, down for Black.
pub open spec fn pawn_direction(color: Color) -> int {
    match color {
        Color::White => 1,
        Color::Black => -1,
    }
}

/// A pawn of that side on `s` threatens `t`: one rank forward, one file aside.
pub open spec fn pawn_attacks(color: Color, s: int, t: int) -> bool {
    &&& on_board(s)
    &&& on_board(t)
    &&& rank_of(t) == rank_of(s) + pawn_direction(color)
    &&& (file_of(t) == file_of(s) + 1 || file_of(t) == file_of(s) - 1)
}

/// A knight on `s` threatens `t`: two squares one way and one square the other.
pub open spec fn knight_attacks(s: int, t: int) -> bool {
    let dr = rank_of(t) - rank_of(s);
    let df = file_of(t) - file_of(s);
    &&& on_board(s)
    &&& on_board(t)
    &&& (((dr == 2 || dr == -2) && (df == 1 || df == -1)) || ((dr == 1 || dr == -1) && (df == 2
        || df == -2)))
}

/// A king on `s` threatens `t`: a neighbouring square.
pub open spec fn king_attacks(s: int, t: int) -> bool {
    let dr = rank_of(t) - rank_of(s);
    let df = file_of(t) - file_of(s);
    &&& on_board(s)
    &&& on_board(t)
    &&& s != t
    &&& -1 <= dr <= 1
    &&& -1 <= df <= 1
}

/// Some pawn of the bitboard threatens `t`.
pub open spec fn pawn_attacked(pawns: u64, color: Color, t: int) -> bool {
    exists|s: int| bit_set(pawns, s) && #[trigger] pawn_attacks(color, s, t)
}

/// Some knight of the bitboard threatens `t`.
pub open spec fn knight_attacked(knights: u64, t: int) -> bool {
    exists|s: int| bit_set(knights, s) && #[trigger] knight_attacks(s, t)
}

/// Some king of the bitboard threatens `t`.
pub open spec fn king_attacked(kings: u64, t: int) -> bool {
    exists|s: int| bit_set(kings, s) && #[trigger] king_attacks(s, t)
}

/// The first `k - 1` squares of a ray are free of the pieces in `occ`.
pub open spec fn ray_clear(occ: u64, s: int, dir: int, k: int) -> bool {
    forall|j: int| 1 <= j < k ==> !bit_set(occ, #[trigger] ray_square(s, dir, j))
}

/// The ray from `s` in direction `dir` reaches `t` within its first `n - 1`
/// steps: `t` lies on the ray, on the board, and no piece stands between `s` and `t`.
/// A piece on `t` itself does not matter: the ray includes its first blocker.
pub open spec fn ray_hits_within(occ: u64, s: int, dir: int, t: int, n: int) -> bool {
    exists|k: int|
        1 <= k < n && k <= edge_distance(dir, s) && t == #[trigger] ray_square(s, dir, k)
            && ray_clear(occ, s, dir, k)
}

/// The ray from `s` in direction `dir` reaches `t`.
pub open spec fn ray_hits(occ: u64, s: int, dir: int, t: int) -> bool {
    ray_hits_within(occ, s, dir, t, 8)
}

/// A slider on `s` that moves in the directions `lo..hi` threatens `t`.
pub open spec fn slides_to(occ: u64, s: int, lo: int, hi: int, t: int) -> bool {
    exists|dir: int| lo <= dir < hi && #[trigger] ray_hits(occ, s, dir, t)
}

/// Some slider of the bitboard, moving in the directions `lo..hi`, threatens `t`.
pub open spec fn slider_attacked(sliders: u64, occ: u64, lo: int, hi: int, t: int) -> bool {
    exists|s: int| bit_set(sliders, s) && #[trigger] slides_to(occ, s, lo, hi, t)
}

/// A pawn's two threats as offsets: nine and seven squares ahead, unless that
/// would leave the board by the h-file or the a-file.
pub proof fn lemma_pawn_shape(color: Color, s: int, t: int)
    ensures
        pawn_attacks(color, s, t) == (on_board(s) && on_board(t) && match color {
            Color::White => (t == s + 9 && s % 8 != 7) || (t == s + 7 && s % 8 != 0),
            Color::Black => (t == s - 9 && s % 8 != 0) || (t == s - 7 && s % 8 != 7),
        }),
{
}

/// A knight's eight threats as offsets, each with the files it cannot start from.
pub proof fn lemma_knight_shape(s: int, t: int)
    ensures
        knight_attacks(s, t) == (on_board(s) && on_board(t) && ((t == s + 17 && s % 8 != 7) || (t
            == s + 15 && s % 8 != 0) || (t == s + 10 && s % 8 != 6 && s % 8 != 7) || (t == s + 6
            && s % 8 != 0 && s % 8 != 1) || (t == s - 17 && s % 8 != 0) || (t == s - 15 && s % 8
            != 7) || (t == s - 10 && s % 8 != 0 && s % 8 != 1) || (t == s - 6 && s % 8 != 6 && s
            % 8 != 7))),
{
}

/// A king's eight threats as offsets, each with the file it cannot start from.
pub proof fn lemma_king_shape(s: int, t: int)
    ensures
        king_attacks(s, t) == (on_board(s) && on_board(t) && (t == s + 8 || t == s - 8 || (t == s
            + 1 && s % 8 != 7) || (t == s - 1 && s % 8 != 0) || (t == s + 9 && s % 8 != 7) || (t
            == s + 7 && s % 8 != 0) || (t == s - 7 && s % 8 != 7) || (t == s - 9 && s % 8 != 0))),
{
}

/// Moves the squares of `bb` that are not in `keep_out` up by `k`.
fn shift_up(bb: u64, keep_out: u64, k: u64) -> (r: u64)
    requires
        k < 64,
    ensures
        forall|t: int| #[trigger]
            bit_set(r, t) == (k <= t < 64 && bit_set(bb, t - k) && !bit_set(keep_out, t - k)),
{
    proof {
        lemma_not(keep_out);
        lemma_and(bb, !keep_out);
        lemma_shl(bb & !keep_out, k);
    }
    (bb & !keep_out) << k
}

/// Moves the squares of `bb` that are not in `keep_out` down by `k`.
fn shift_down(bb: u64, keep_out: u64, k: u64) -> (r: u64)
    requires
        k < 64,
    ensures
        forall|t: int| #[trigger]
            bit_set(r, t) == (0 <= t && bit_set(bb, t + k) && !bit_set(keep_out, t + k)),
{
    proof {
        lemma_not(keep_out);
        lemma_and(bb, !keep_out);
        lemma_shr(bb & !keep_out, k);
    }
    (bb & !keep_out) >> k
}

/// The squares that a ray from `sq` in direction `dir` reaches, its first blocker included.
pub fn ray_attack(occ: u64, sq: u8, dir: u8) -> (r: u64)
    requires
        sq < 64,
        dir < 8,
    ensures
        forall|t: int| #[trigger] bit_set(r, t) == ray_hits(occ, sq as int, dir as int, t),
{
    let max: u8 = distance_to_edge(dir, sq);
    let mut r: u64 = 0;
    let mut k: u8 = 1;
    let mut blocked: bool = false;
    proof {
        lemma_zero();
    }
    while k <= max && !blocked
        invariant
            sq < 64,
            dir < 8,
            max == edge_distance(dir as int, sq as int),
            max <= 7,
            1 <= k <= max + 1,
            !blocked ==> ray_clear(occ, sq as int, dir as int, k as int),
            blocked ==> k >= 2 && bit_set(occ, ray_square(sq as int, dir as int, k - 1)),
            forall|t: int| #[trigger]
                bit_set(r, t) == ray_hits_within(occ, sq as int, dir as int, t, k as int),
        decreases (if blocked { 0int } else { 1int }) + max + 1 - k,
    {
        let t: u8 = step_along(sq, dir, k);
        let next: u64 = with_square(r, t);
        proof {
            assert forall|x: int| #[trigger]
                bit_set(next, x) == ray_hits_within(occ, sq as int, dir as int, x, k + 1) by {
                if x == t {
                    assert(x == ray_square(sq as int, dir as int, k as int));
                }
                if ray_hits_within(occ, sq as int, dir as int, x, k + 1) {
                    let j = choose|j: int|
                        1 <= j < k + 1 && j <= edge_distance(dir as int, sq as int) && x
                            == #[trigger] ray_square(sq as int, dir as int, j) && ray_clear(
                            occ,
                            sq as int,
                            dir as int,
                            j,
                        );
                    if j < k {
                        assert(ray_hits_within(occ, sq as int, dir as int, x, k as int));
                    }
                }
            }
        }
        r = next;
        if has_square(occ, t) {
            blocked = true;
        }
        k = k + 1;
    }
    proof {
        assert forall|t: int| #[trigger]
            bit_set(r, t) == ray_hits(occ, sq as int, dir as int, t) by {
            if ray_hits(occ, sq as int, dir as int, t) {
                let j = choose|j: int|
                    1 <= j < 8 && j <= edge_distance(dir as int, sq as int) && t
                        == #[trigger] ray_square(sq as int, dir as int, j) && ray_clear(
                        occ,
                        sq as int,
                        dir as int,
                        j,
                    );
                if j >= k {
                    assert(blocked);
                    assert(!bit_set(occ, ray_square(sq as int, dir as int, k - 1)));
                }
                assert(ray_hits_within(occ, sq as int, dir as int, t, k as int));
            }
        }
    }
    r
}

/// The squares that a slider on `sq` threatens when it moves in the directions `lo..hi`.
pub fn rays_from(occ: u64, sq: u8, lo: u8, hi: u8) -> (r: u64)
    requires
        sq < 64,
        lo <= hi <= 8,
    ensures
        forall|t: int| #[trigger]
            bit_set(r, t) == slides_to(occ, sq as int, lo as int, hi as int, t),
{
    let mut r: u64 = 0;
    let mut dir: u8 = lo;
    proof {
        lemma_zero();
    }
    while dir < hi
        invariant
            sq < 64,
            lo <= dir <= hi <= 8,
            forall|t: int| #[trigger]
                bit_set(r, t) == slides_to(occ, sq as int, lo as int, dir as int, t),
        decreases hi - dir,
    {
        let ray: u64 = ray_attack(occ, sq, dir);
        proof {
            lemma_or(r, ray);
            assert forall|t: int| #[trigger]
                bit_set(r | ray, t) == slides_to(occ, sq as int, lo as int, dir + 1, t) by {
                if bit_set(ray, t) {
                    assert(ray_hits(occ, sq as int, dir as int, t));
                }
                if slides_to(occ, sq as int, lo as int, dir + 1, t) {
                    let d = choose|d: int|
                        lo <= d < dir + 1 && #[trigger] ray_hits(occ, sq as int, d, t);
                    if d < dir {
                        assert(slides_to(occ, sq as int, lo as int, dir as int, t));
                    }
                }
            }
        }
        r = r | ray;
        dir = dir + 1;
    }
    r
}

/// The squares that the sliders of a bitboard threaten when they move in the
/// directions `lo..hi`, on a board whose pieces are `occ`.
pub fn slider_attack(sliders: u64, occ: u64, lo: u8, hi: u8) -> (r: u64)
    requires
        lo <= hi <= 8,
    ensures
        forall|t: int| #[trigger]
            bit_set(r, t) == slider_attacked(sliders, occ, lo as int, hi as int, t),
{
    let mut r: u64 = 0;
    let mut sq: u8 = 0;
    proof {
        lemma_zero();
    }
    while sq < 64
        invariant
            sq <= 64,
            lo <= hi <= 8,
            forall|t: int| #[trigger]
                bit_set(r, t) == (exists|s: int|
                    s < sq && bit_set(sliders, s) && #[trigger] slides_to(
                        occ,
                        s,
                        lo as int,
                        hi as int,
                        t,
                    )),
        decreases 64 - sq,
    {
        if has_square(sliders, sq) {
            let rays: u64 = rays_from(occ, sq, lo, hi);
            proof {
                lemma_or(r, rays);
                assert forall|t: int| #[trigger]
                    bit_set(r | rays, t) == (exists|s: int|
                        s < sq + 1 && bit_set(sliders, s) && #[trigger] slides_to(
                            occ,
                            s,
                            lo as int,
                            hi as int,
                            t,
                        )) by {
                    if bit_set(rays, t) {
                        assert(slides_to(occ, sq as int, lo as int, hi as int, t));
                    }
                }
            }
            r = r | rays;
        }
        sq = sq + 1;
    }
    r
}

impl Board {
    /// The squares that the pawns of a bitboard threaten, for pawns of the given side.
    pub fn get_pawn_attack_bitboard(pawn_bb: u64, color: Color) -> (r: u64)
        ensures
            forall|t: int| #[trigger] bit_set(r, t) == pawn_attacked(pawn_bb, color, t),
    {
        proof {
            lemma_files();
        }
        match color {
            Color::White => {
                let east: u64 = shift_up(pawn_bb, FILE_H, 9);
                let west: u64 = shift_up(pawn_bb, FILE_A, 7);
                proof {
                    lemma_or(east, west);
                    assert forall|t: int| #[trigger]
                        bit_set(east | west, t) == pawn_attacked(pawn_bb, color, t) by {
                        lemma_pawn_shape(color, t - 9, t);
                        lemma_pawn_shape(color, t - 7, t);
                        if pawn_attacked(pawn_bb, color, t) {
                            let s = choose|s: int|
                                bit_set(pawn_bb, s) && #[trigger] pawn_attacks(color, s, t);
                            lemma_pawn_shape(color, s, t);
                        }
                    }
                }
                east | west
            },
            Color::Black => {
                let west: u64 = shift_down(pawn_bb, FILE_A, 9);
                let east: u64 = shift_down(pawn_bb, FILE_H, 7);
                proof {
                    lemma_or(west, east);
                    assert forall|t: int| #[trigger]
                        bit_set(west | east, t) == pawn_attacked(pawn_bb, color, t) by {
                        lemma_pawn_shape(color, t + 9, t);
                        lemma_pawn_shape(color, t + 7, t);
                        if pawn_attacked(pawn_bb, color, t) {
                            let s = choose|s: int|
                                bit_set(pawn_bb, s) && #[trigger] pawn_attacks(color, s, t);
                            lemma_pawn_shape(color, s, t);
                        }
                    }
                }
                west | east
            },
        }
    }

    /// The squares that the knights of a bitboard threaten.
    pub fn get_knight_attack_bitboard(knight_bb: u64) -> (r: u64)
        ensures
            forall|t: int| #[trigger] bit_set(r, t) == knight_attacked(knight_bb, t),
    {
        proof {
            lemma_files();
            lemma_or(FILE_A, FILE_B);
            lemma_or(FILE_G, FILE_H);
        }
        let a: u64 = shift_up(knight_bb, FILE_H, 17);
        let b: u64 = shift_up(knight_bb, FILE_A, 15);
        let c: u64 = shift_up(knight_bb, FILE_G | FILE_H, 10);
        let d: u64 = shift_up(knight_bb, FILE_A | FILE_B, 6);
        let e: u64 = shift_down(knight_bb, FILE_A, 17);
        let f: u64 = shift_down(knight_bb, FILE_H, 15);
        let g: u64 = shift_down(knight_bb, FILE_A | FILE_B, 10);
        let h: u64 = shift_down(knight_bb, FILE_G | FILE_H, 6);
        let up: u64 = a | b | c | d;
        let down: u64 = e | f | g | h;
        proof {
            lemma_or(a, b);
            lemma_or(a | b, c);
            lemma_or(a | b | c, d);
            lemma_or(e, f);
            lemma_or(e | f, g);
            lemma_or(e | f | g, h);
            lemma_or(up, down);
            assert forall|t: int| #[trigger]
                bit_set(up | down, t) == knight_attacked(knight_bb, t) by {
                lemma_knight_shape(t - 17, t);
                lemma_knight_shape(t - 15, t);
                lemma_knight_shape(t - 10, t);
                lemma_knight_shape(t - 6, t);
                lemma_knight_shape(t + 17, t);
                lemma_knight_shape(t + 15, t);
                lemma_knight_shape(t + 10, t);
                lemma_knight_shape(t + 6, t);
                if knight_attacked(knight_bb, t) {
                    let s = choose|s: int| bit_set(knight_bb, s) && #[trigger] knight_attacks(s, t);
                    lemma_knight_shape(s, t);
                }
            }
        }
        up | down
    }

    /// The squares that the kings of a bitboard threaten.
    pub fn get_king_attack_bitboard(king_bb: u64) -> (r: u64)
        ensures
            forall|t: int| #[trigger] bit_set(r, t) == king_attacked(king_bb, t),
    {
        proof {
            lemma_files();
            lemma_zero();
        }
        let n: u64 = shift_up(king_bb, 0, 8);
        let s: u64 = shift_down(king_bb, 0, 8);
        let e: u64 = shift_up(king_bb, FILE_H, 1);
        let w: u64 = shift_down(king_bb, FILE_A, 1);
        let ne: u64 = shift_up(king_bb, FILE_H, 9);
        let nw: u64 = shift_up(king_bb, FILE_A, 7);
        let se: u64 = shift_down(king_bb, FILE_H, 7);
        let sw: u64 = shift_down(king_bb, FILE_A, 9);
        let straight: u64 = n | s | e | w;
        let diagonal: u64 = ne | nw | se | sw;
        proof {
            lemma_or(n, s);
            lemma_or(n | s, e);
            lemma_or(n | s | e, w);
            lemma_or(ne, nw);
            lemma_or(ne | nw, se);
            lemma_or(ne | nw | se, sw);
            lemma_or(straight, diagonal);
            assert forall|t: int| #[trigger]
                bit_set(straight | diagonal, t) == king_attacked(king_bb, t) by {
                lemma_king_shape(t - 8, t);
                lemma_king_shape(t + 8, t);
                lemma_king_shape(t - 1, t);
                lemma_king_shape(t + 1, t);
                lemma_king_shape(t - 9, t);
                lemma_king_shape(t - 7, t);
                lemma_king_shape(t + 7, t);
                lemma_king_shape(t + 9, t);
                if king_attacked(king_bb, t) {
                    let k = choose|k: int| bit_set(king_bb, k) && #[trigger] king_attacks(k, t);
                    lemma_king_shape(k, t);
                }
            }
        }
        straight | diagonal
    }

    /// The squares that the bishops of a bitboard threaten on a board whose pieces are `occ`.
    pub fn get_bishop_attack_bitboard(bishop_bb: u64, board_occupancy_bb: u64) -> (r: u64)
        ensures
            forall|t: int| #[trigger]
                bit_set(r, t) == slider_attacked(bishop_bb, board_occupancy_bb, 4, 8, t),
    {
        slider_attack(bishop_bb, board_occupancy_bb, 4, 8)
    }

    /// The squares that the rooks of a bitboard threaten on a board whose pieces are `occ`.
    pub fn get_rook_attack_bitboard(rook_bb: u64, board_occupancy_bb: u64) -> (r: u64)
        ensures
            forall|t: int| #[trigger]
                bit_set(r, t) == slider_attacked(rook_bb, board_occupancy_bb, 0, 4, t),
    {
        slider_attack(rook_bb, board_occupancy_bb, 0, 4)
    }

    /// The squares that the queens of a bitboard threaten: those of a bishop and
    /// those of a rook on the same squares.
    pub fn get_queen_attack_bitboard(queen_bb: u64, board_occupancy_bb: u64) -> (r: u64)
        ensures
            forall|t: int| #[trigger]
                bit_set(r, t) == (slider_attacked(queen_bb, board_occupancy_bb, 4, 8, t)
                    || slider_attacked(queen_bb, board_occupancy_bb, 0, 4, t)),
    {
        let diagonal: u64 = Self::get_bishop_attack_bitboard(queen_bb, board_occupancy_bb);
        let straight: u64 = Self::get_rook_attack_bitboard(queen_bb, board_occupancy_bb);
        proof {
            lemma_or(diagonal, straight);
        }
        diagonal | straight
    }

    /// Some piece of the given side threatens the square `t`. A slider's ray ends
    /// on the first piece it meets, of either side, and includes that square.
    pub open spec fn attacked_by(&self, color: Color, t: int) -> bool {
        let occ = self.all_occupancy();
        ||| pawn_attacked(self.mask(color, PieceType::Pawn), color, t)
        ||| knight_attacked(self.mask(color, PieceType::Knight), t)
        ||| slider_attacked(self.mask(color, PieceType::Bishop), occ, 4, 8, t)
        ||| slider_attacked(self.mask(color, PieceType::Rook), occ, 0, 4, t)
        ||| slider_attacked(self.mask(color, PieceType::Queen), occ, 4, 8, t)
        ||| slider_attacked(self.mask(color, PieceType::Queen), occ, 0, 4, t)
        ||| king_attacked(self.mask(color, PieceType::King), t)
    }

    /// A king of the given side stands on a square that the other side threatens.
    pub open spec fn in_check(&self, color: Color) -> bool {
        exists|sq: int| #[trigger]
            self.holds(color, PieceType::King, sq) && self.attacked_by(color.opposite(), sq)
    }

    /// The squares that the given side threatens, whether or not its own pieces
    /// stand on them.
    pub fn get_attack_bitboard_by_color(&self, color: Color) -> (r: u64)
        ensures
            forall|t: int| #[trigger] bit_set(r, t) == self.attacked_by(color, t),
    {
        let offset: usize = color.offset();
        let pawns_bb: u64 = self.bitboards[offset + PieceType::Pawn.index()];
        let knights_bb: u64 = self.bitboards[offset + PieceType::Knight.index()];
        let bishops_bb: u64 = self.bitboards[offset + PieceType::Bishop.index()];
        let rooks_bb: u64 = self.bitboards[offset + PieceType::Rook.index()];
        let queens_bb: u64 = self.bitboards[offset + PieceType::Queen.index()];
        let king_bb: u64 = self.bitboards[offset + PieceType::King.index()];
        let board_occupancy_bb: u64 = self.all_white_bitboard | self.all_black_bitboard;

        let p: u64 = Self::get_pawn_attack_bitboard(pawns_bb, color);
        let n: u64 = Self::get_knight_attack_bitboard(knights_bb);
        let b: u64 = Self::get_bishop_attack_bitboard(bishops_bb, board_occupancy_bb);
        let r: u64 = Self::get_rook_attack_bitboard(rooks_bb, board_occupancy_bb);
        let q: u64 = Self::get_queen_attack_bitboard(queens_bb, board_occupancy_bb);
        let k: u64 = Self::get_king_attack_bitboard(king_bb);
        proof {
            lemma_or(p, n);
            lemma_or(p | n, b);
            lemma_or(p | n | b, r);
            lemma_or(p | n | b | r, q);
            lemma_or(p | n | b | r | q, k);
        }
        p | n | b | r | q | k
    }

    /// Whether the given side's king is attacked.
    pub fn is_in_check(self, color: Color) -> (r: bool)
        ensures
            r == self.in_check(color),
    {
        let king_bb: u64 = self.bitboards[color.offset() + PieceType::King.index()];
        let attack_bb: u64 = self.get_attack_bitboard_by_color(
            match color {
                Color::White => Color::Black,
                Color::Black => Color::White,
            },
        );
        proof {
            lemma_disjoint(king_bb, attack_bb);
            if self.in_check(color) {
                let sq = choose|sq: int| #[trigger]
                    self.holds(color, PieceType::King, sq) && self.attacked_by(
                        color.opposite(),
                        sq,
                    );
                assert(bit_set(king_bb, sq) && bit_set(attack_bb, sq));
            }
            if king_bb & attack_bb != 0 {
                let sq = choose|sq: int|
                    0 <= sq < 64 && bit_set(king_bb, sq) && bit_set(attack_bb, sq);
                assert(self.holds(color, PieceType::King, sq));
            }
        }
        (king_bb & attack_bb) != 0
    }
}

/// A sole rook threatens `t`: another square of its rank or of its file.
pub open spec fn lone_rook_attacks(sq: int, t: int) -> bool {
    on_board(t) && t != sq && (rank_of(t) == rank_of(sq) || file_of(t) == file_of(sq))
}

/// With nothing but the rook on the board, a rook's rays reach the other
/// squares of its rank and of its file, and no others.
proof fn lemma_lone_rook_reach(sq: int, t: int)
    requires
        0 <= sq < 64,
    ensures
        slides_to(1u64 << (sq as u64), sq, 0, 4, t) == lone_rook_attacks(sq, t),
{
    let occ = 1u64 << (sq as u64);
    lemma_single(sq as u64);
    if slides_to(occ, sq, 0, 4, t) {
        let dir = choose|dir: int| 0 <= dir < 4 && #[trigger] ray_hits(occ, sq, dir, t);
        let k = choose|k: int|
            1 <= k < 8 && k <= edge_distance(dir, sq) && t == #[trigger] ray_square(sq, dir, k)
                && ray_clear(occ, sq, dir, k);
        lemma_ray_on_board(sq, dir, k);
    }
    if lone_rook_attacks(sq, t) {
        let dir: int = if file_of(t) == file_of(sq) {
            if t > sq {
                0
            } else {
                1
            }
        } else if t > sq {
            2
        } else {
            3
        };
        let k: int = if file_of(t) == file_of(sq) {
            if t > sq {
                rank_of(t) - rank_of(sq)
            } else {
                rank_of(sq) - rank_of(t)
            }
        } else if t > sq {
            t - sq
        } else {
            sq - t
        };
        assert(t == ray_square(sq, dir, k));
        assert(1 <= k <= edge_distance(dir, sq));
        assert forall|j: int| 1 <= j < k implies !bit_set(
            occ,
            #[trigger] ray_square(sq, dir, j),
        ) by {
            assert(ray_square(sq, dir, j) != sq);
        }
        assert(ray_clear(occ, sq, dir, k));
        assert(ray_hits_within(occ, sq, dir, t, 8));
        assert(ray_hits(occ, sq, dir, t));
    }
}

/// The squares of one rank that a bitboard holds, counted after those below.
proof fn lemma_count_rank(bb: u64, r: int)
    ensures
        count_below(bb, 8 * r + 8) == count_below(bb, 8 * r) + (if bit_set(bb, 8 * r) {
            1int
        } else {
            0int
        }) + (if bit_set(bb, 8 * r + 1) {
            1int
        } else {
            0int
        }) + (if bit_set(bb, 8 * r + 2) {
            1int
        } else {
            0int
        }) + (if bit_set(bb, 8 * r + 3) {
            1int
        } else {
            0int
        }) + (if bit_set(bb, 8 * r + 4) {
            1int
        } else {
            0int
        }) + (if bit_set(bb, 8 * r + 5) {
            1int
        } else {
            0int
        }) + (if bit_set(bb, 8 * r + 6) {
            1int
        } else {
            0int
        }) + (if bit_set(bb, 8 * r + 7) {
            1int
        } else {
            0int
        }),
{
    let n = 8 * r;
    if n + 8 <= 0 {
        assert(count_below(bb, n) == 0);
        assert(!bit_set(bb, n) && !bit_set(bb, n + 1) && !bit_set(bb, n + 2) && !bit_set(
            bb,
            n + 3,
        ) && !bit_set(bb, n + 4) && !bit_set(bb, n + 5) && !bit_set(bb, n + 6) && !bit_set(
            bb,
            n + 7,
        ));
    } else {
        assert(n >= 0);
        assert(count_below(bb, n + 1) == count_below(bb, n) + (if bit_set(bb, n) {
            1int
        } else {
            0int
        }));
        assert(count_below(bb, n + 2) == count_below(bb, n + 1) + (if bit_set(bb, n + 1) {
            1int
        } else {
            0int
        }));
        assert(count_below(bb, n + 3) == count_below(bb, n + 2) + (if bit_set(bb, n + 2) {
            1int
        } else {
            0int
        }));
        assert(count_below(bb, n + 4) == count_below(bb, n + 3) + (if bit_set(bb, n + 3) {
            1int
        } else {
            0int
        }));
        assert(count_below(bb, n + 5) == count_below(bb, n + 4) + (if bit_set(bb, n + 4) {
            1int
        } else {
            0int
        }));
        assert(count_below(bb, n + 6) == count_below(bb, n + 5) + (if bit_set(bb, n + 5) {
            1int
        } else {
            0int
        }));
        assert(count_below(bb, n + 7) == count_below(bb, n + 6) + (if bit_set(bb, n + 6) {
            1int
        } else {
            0int
        }));
        assert(count_below(bb, n + 8) == count_below(bb, n + 7) + (if bit_set(bb, n + 7) {
            1int
        } else {
            0int
        }));
    }
}

/// The squares below rank `r` that a sole rook on `sq` threatens: one on each
/// rank but its own, and seven on its own.
proof fn lemma_lone_rook_count(sq: int, attacks: u64, r: int)
    requires
        0 <= sq < 64,
        0 <= r <= 8,
        forall|t: int| #[trigger] bit_set(attacks, t) == lone_rook_attacks(sq, t),
    ensures
        count_below(attacks, 8 * r) == r + (if r > rank_of(sq) {
            6int
        } else {
            0int
        }),
    decreases r,
{
    if r > 0 {
        lemma_lone_rook_count(sq, attacks, r - 1);
        lemma_count_rank(attacks, r - 1);
        let n = 8 * (r - 1);
        assert(bit_set(attacks, n) == lone_rook_attacks(sq, n));
        assert(bit_set(attacks, n + 1) == lone_rook_attacks(sq, n + 1));
        assert(bit_set(attacks, n + 2) == lone_rook_attacks(sq, n + 2));
        assert(bit_set(attacks, n + 3) == lone_rook_attacks(sq, n + 3));
        assert(bit_set(attacks, n + 4) == lone_rook_attacks(sq, n + 4));
        assert(bit_set(attacks, n + 5) == lone_rook_attacks(sq, n + 5));
        assert(bit_set(attacks, n + 6) == lone_rook_attacks(sq, n + 6));
        assert(bit_set(attacks, n + 7) == lone_rook_attacks(sq, n + 7));
    }
}

/// A rook alone on the board threatens the seven other squares of its rank and
/// the seven other squares of its file: fourteen squares, wherever it stands.
pub proof fn lemma_lone_rook(sq: int, attacks: u64)
    requires
        0 <= sq < 64,
        forall|t: int| #[trigger]
            bit_set(attacks, t) == slider_attacked(
                1u64 << (sq as u64),
                1u64 << (sq as u64),
                0,
                4,
                t,
            ),
    ensures
        forall|t: int| #[trigger] bit_set(attacks, t) == lone_rook_attacks(sq, t),
        square_count(attacks) == 14,
{
    let occ = 1u64 << (sq as u64);
    lemma_single(sq as u64);
    assert forall|t: int| #[trigger] bit_set(attacks, t) == lone_rook_attacks(sq, t) by {
        lemma_lone_rook_reach(sq, t);
        if slider_attacked(occ, occ, 0, 4, t) {
            let s = choose|s: int| bit_set(occ, s) && #[trigger] slides_to(occ, s, 0, 4, t);
            assert(s == sq);
        }
        if lone_rook_attacks(sq, t) {
            assert(bit_set(occ, sq) && slides_to(occ, sq, 0, 4, t));
        }
    }
    lemma_lone_rook_count(sq, attacks, 8);
}

} // verus!
