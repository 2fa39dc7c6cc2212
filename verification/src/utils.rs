//! Square names, the table of edge distances, and the stalemate test.

use vstd::prelude::*;
use vstd::string::*;
use crate::board::{Board, Color};
use crate::apply::legal_move;
use crate::chess_move::{generate_all_moves_for_color, no_legal_move, Move};
use crate::geometry::{distance_to_edge, edge_distance};

verus! {

/// The file that a letter names, `a` to `h`.
pub open spec fn file_of_letter(c: char) -> Option<u8> {
    if c == 'a' {
        Some(0u8)
    } else if c == 'b' {
        Some(1u8)
    } else if c == 'c' {
        Some(2u8)
    } else if c == 'd' {
        Some(3u8)
    } else if c == 'e' {
        Some(4u8)
    } else if c == 'f' {
        Some(5u8)
    } else if c == 'g' {
        Some(6u8)
    } else if c == 'h' {
        Some(7u8)
    } else {
        None
    }
}

/// The rank that a digit names, `1` to `8`.
pub open spec fn rank_of_digit(c: char) -> Option<u8> {
    if c == '1' {
        Some(0u8)
    } else if c == '2' {
        Some(1u8)
    } else if c == '3' {
        Some(2u8)
    } else if c == '4' {
        Some(3u8)
    } else if c == '5' {
        Some(4u8)
    } else if c == '6' {
        Some(5u8)
    } else if c == '7' {
        Some(6u8)
    } else if c == '8' {
        Some(7u8)
    } else {
        None
    }
}

/// The square that a file letter and a rank digit name.
pub open spec fn square_named(file: char, rank: char) -> Option<u8> {
    match (file_of_letter(file), rank_of_digit(rank)) {
        (Some(f), Some(r)) => Some((r * 8 + f) as u8),
        _ => None,
    }
}

/// The square that the first two characters of a text name.
pub open spec fn square_of_coordinate(s: Seq<char>) -> Option<u8> {
    if s.len() < 2 {
        None
    } else {
        square_named(s[0], s[1])
    }
}

/// The index of the square that a file letter and a rank digit name.
pub fn square_from_chars(file: char, rank: char) -> (r: Option<u8>)
    ensures
        r == square_named(file, rank),
        r.is_some() ==> r.unwrap() < 64,
{
    let file: u8 = match file {
        'a' => 0,
        'b' => 1,
        'c' => 2,
        'd' => 3,
        'e' => 4,
        'f' => 5,
        'g' => 6,
        'h' => 7,
        _ => {
            return None;
        },
    };
    let rank: u8 = match rank {
        '1' => 0,
        '2' => 1,
        '3' => 2,
        '4' => 3,
        '5' => 4,
        '6' => 5,
        '7' => 6,
        '8' => 7,
        _ => {
            return None;
        },
    };
    Some(rank * 8 + file)
}

/// Reads a square from a coordinate such as `e4`: a file letter `a` to `h`,
/// then a rank digit `1` to `8`. What follows the two characters is not read.
/// A text that does not start so gives `None`.
pub fn convert_board_coordinate_to_idx(board_coordinate: String) -> (r: Option<u8>)
    ensures
        r == square_of_coordinate(board_coordinate@),
        r.is_some() ==> r.unwrap() < 64,
{
    let s: &str = board_coordinate.as_str();
    if s.unicode_len() < 2 {
        return None;
    }
    square_from_chars(s.get_char(0), s.get_char(1))
}

/// The table of edge distances: for each of the eight directions, for each of
/// the 64 squares, the number of squares up to the edge of the board.
pub fn edge_distances() -> (table: Vec<Vec<u8>>)
    ensures
        table@.len() == 8,
        forall|dir: int| 0 <= dir < 8 ==> (#[trigger] table@[dir])@.len() == 64,
        forall|dir: int, sq: int|
            0 <= dir < 8 && 0 <= sq < 64 ==> (#[trigger] table@[dir]@[sq]) == edge_distance(
                dir,
                sq,
            ),
{
    let mut table: Vec<Vec<u8>> = Vec::new();
    let mut dir: u8 = 0;
    while dir < 8
        invariant
            dir <= 8,
            table@.len() == dir,
            forall|d: int| 0 <= d < dir ==> (#[trigger] table@[d])@.len() == 64,
            forall|d: int, sq: int|
                0 <= d < dir && 0 <= sq < 64 ==> (#[trigger] table@[d]@[sq]) == edge_distance(
                    d,
                    sq,
                ),
        decreases 8 - dir,
    {
        let mut row: Vec<u8> = Vec::new();
        let mut square: u8 = 0;
        while square < 64
            invariant
                dir < 8,
                square <= 64,
                row@.len() == square,
                forall|sq: int|
                    0 <= sq < square ==> #[trigger] row@[sq] == edge_distance(dir as int, sq),
            decreases 64 - square,
        {
            row.push(distance_to_edge(dir, square));
            square = square + 1;
        }
        table.push(row);
        dir = dir + 1;
    }
    table
}

/// Whether the game is drawn for `side_to_move`: that side's king is not
/// attacked, and the side to move of the position has no legal move, or the
/// material cannot give mate, or fifty moves have passed without a pawn move
/// or a capture.
pub fn is_stalemate(board: &Board, side_to_move: Color) -> (r: bool)
    requires
        board.wf(),
    ensures
        r == (!board.in_check(side_to_move) && (no_legal_move(*board)
            || board.insufficient_material() || board.halfmove_clock >= 50)),
{
    if board.is_in_check(side_to_move) {
        return false;
    }
    let moves: Vec<Move> = generate_all_moves_for_color(board);
    if moves.len() == 0 {
        proof {
            assert forall|m: Move| !legal_move(*board, m) by {
                if legal_move(*board, m) {
                    assert(moves@.contains(m));
                }
            }
        }
        return true;
    }
    proof {
        assert(moves@.contains(moves@[0]));
        assert(legal_move(*board, moves@[0]));
        assert(!no_legal_move(*board));
    }
    if board.is_insufficient_material() {
        return true;
    }
    if board.is_50_move_rule() {
        return true;
    }
    if board.is_3_fold_repetition() {
        return true;
    }
    false
}

} // verus!
