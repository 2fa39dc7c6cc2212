//! Rules core of a chess program: bitboard state, attack maps, move
//! legality, move generation and game-end detection, with machine-checked
//! contracts.

pub mod bits;
pub mod geometry;
pub mod board;
pub mod attack;
pub mod chess_move;
pub mod transition;
pub mod apply;
pub mod material;
pub mod utils;
pub mod fen;
pub mod roundtrip;
pub mod consistency;
pub mod display;
