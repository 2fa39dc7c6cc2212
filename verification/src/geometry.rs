//! Board geometry: squares are numbered 0 to 63, rank by rank, a1 = 0 and h8 = 63.
//! Rays run in eight directions, numbered north, south, east, west, north-east,
//! north-west, south-east, south-west.

use vstd::prelude::*;

verus! {

/// The rank of a square, 0 for the first rank.
pub open spec fn rank_of(sq: int) -> int {
    sq / 8
}

/// The file of a square, 0 for the a-file.
pub open spec fn file_of(sq: int) -> int {
    sq % 8
}

/// The square number is a square of the board.
pub open spec fn on_board(sq: int) -> bool {
    0 <= sq < 64
}

/// How the rank changes with one step in a direction.
pub open spec fn rank_step(dir: int) -> int {
    if dir == 0 || dir == 4 || dir == 5 {
        1
    } else if dir == 1 || dir == 6 || dir == 7 {
        -1
    } else {
        0
    }
}

/// How the file changes with one step in a direction.
pub open spec fn file_step(dir: int) -> int {
    if dir == 2 || dir == 4 || dir == 6 {
        1
    } else if dir == 3 || dir == 5 || dir == 7 {
        -1
    } else {
        0
    }
}

/// The number of squares between a square and the edge of the board in a direction.
pub open spec fn edge_distance(dir: int, sq: int) -> int {
    let north = 7 - rank_of(sq);
    let south = rank_of(sq);
    let east = 7 - file_of(sq);
    let west = file_of(sq);
    if dir == 0 {
        north
    } else if dir == 1 {
        south
    } else if dir == 2 {
        east
    } else if dir == 3 {
        west
    } else if dir == 4 {
        if north <= east { north } else { east }
    } else if dir == 5 {
        if north <= west { north } else { west }
    } else if dir == 6 {
        if south <= east { south } else { east }
    } else {
        if south <= west { south } else { west }
    }
}

/// The square reached from `sq` after `k` steps in a direction.
pub open spec fn ray_square(sq: int, dir: int, k: int) -> int {
    if dir == 0 {
        sq + 8 * k
    } else if dir == 1 {
        sq - 8 * k
    } else if dir == 2 {
        sq + k
    } else if dir == 3 {
        sq - k
    } else if dir == 4 {
        sq + 9 * k
    } else if dir == 5 {
        sq + 7 * k
    } else if dir == 6 {
        sq - 7 * k
    } else {
        sq - 9 * k
    }
}

/// Within the edge distance a ray stays on the board, and each step changes rank
/// and file by the direction's steps: no ray wraps round an edge.
pub proof fn lemma_ray_on_board(sq: int, dir: int, k: int)
    requires
        on_board(sq),
        0 <= dir < 8,
        0 <= k <= edge_distance(dir, sq),
    ensures
        on_board(ray_square(sq, dir, k)),
        rank_of(ray_square(sq, dir, k)) == rank_of(sq) + k * rank_step(dir),
        file_of(ray_square(sq, dir, k)) == file_of(sq) + k * file_step(dir),
{
}

/// The number of squares from `sq` to the edge in direction `dir`.
pub fn distance_to_edge(dir: u8, sq: u8) -> (r: u8)
    requires
        dir < 8,
        sq < 64,
    ensures
        r == edge_distance(dir as int, sq as int),
        r <= 7,
{
    let row: u8 = sq / 8;
    let col: u8 = sq % 8;
    let north: u8 = 7 - row;
    let south: u8 = row;
    let east: u8 = 7 - col;
    let west: u8 = col;
    if dir == 0 {
        north
    } else if dir == 1 {
        south
    } else if dir == 2 {
        east
    } else if dir == 3 {
        west
    } else if dir == 4 {
        if north <= east { north } else { east }
    } else if dir == 5 {
        if north <= west { north } else { west }
    } else if dir == 6 {
        if south <= east { south } else { east }
    } else {
        if south <= west { south } else { west }
    }
}

/// The square `k` steps from `sq` in direction `dir`, for `k` within the edge distance.
pub fn step_along(sq: u8, dir: u8, k: u8) -> (r: u8)
    requires
        dir < 8,
        sq < 64,
        k <= edge_distance(dir as int, sq as int),
    ensures
        r == ray_square(sq as int, dir as int, k as int),
        r < 64,
{
    proof {
        lemma_ray_on_board(sq as int, dir as int, k as int);
    }
    if dir == 0 {
        sq + 8 * k
    } else if dir == 1 {
        sq - 8 * k
    } else if dir == 2 {
        sq + k
    } else if dir == 3 {
        sq - k
    } else if dir == 4 {
        sq + 9 * k
    } else if dir == 5 {
        sq + 7 * k
    } else if dir == 6 {
        sq - 7 * k
    } else {
        sq - 9 * k
    }
}

} // verus!
