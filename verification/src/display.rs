//! The picture of a position for a text console: eight lines of piece
//! symbols, the eighth rank first, and one line for each scalar field.

use vstd::prelude::*;
use vstd::string::*;
use crate::board::{Board, Color, Piece, PieceType, Position};
use crate::fen::{decimal_text, file_letter};

verus! {

/// The symbol of what stands on a square: a chess figure for a piece, `*`
/// for an empty square.
pub open spec fn symbol_of(square: Option<Piece>) -> char {
    match square {
        None => '*',
        Some(piece) => match piece.color {
            Color::White => match piece.piece_type {
                PieceType::Pawn => '♙',
                PieceType::Knight => '♘',
                PieceType::Bishop => '♗',
                PieceType::Rook => '♖',
                PieceType::Queen => '♕',
                PieceType::King => '♔',
            },
            Color::Black => match piece.piece_type {
                PieceType::Pawn => '♟',
                PieceType::Knight => '♞',
                PieceType::Bishop => '♝',
                PieceType::Rook => '♜',
                PieceType::Queen => '♛',
                PieceType::King => '♚',
            },
        },
    }
}

/// The line of one rank from `file` on: each square's symbol and a space,
/// then the end of the line.
pub open spec fn row_text(squares: Seq<Option<Piece>>, rank: int, file: int) -> Seq<char>
    decreases 8 - file,
{
    if file >= 8 {
        seq!['\n']
    } else {
        seq![symbol_of(squares[rank * 8 + file]), ' '] + row_text(squares, rank, file + 1)
    }
}

/// The lines of the ranks from `rank` down to the first.
pub open spec fn rows_text(squares: Seq<Option<Piece>>, rank: int) -> Seq<char>
    decreases rank + 1,
{
    if rank < 0 {
        Seq::empty()
    } else {
        row_text(squares, rank, 0) + rows_text(squares, rank - 1)
    }
}

/// The name of a side.
pub open spec fn color_name(color: Color) -> Seq<char> {
    match color {
        Color::White => "White"@,
        Color::Black => "Black"@,
    }
}

/// The letters of the castling rights that are there, in the order `KQkq`.
pub open spec fn rights_letters(rights: u8) -> Seq<char> {
    (if rights & 1 != 0 {
        "K"@
    } else {
        ""@
    }) + (if rights & 2 != 0 {
        "Q"@
    } else {
        ""@
    }) + (if rights & 4 != 0 {
        "k"@
    } else {
        ""@
    }) + (if rights & 8 != 0 {
        "q"@
    } else {
        ""@
    })
}

/// The name of the en-passant target: the letter of the square's file and the
/// number of its rank, or `None`.
pub open spec fn target_name(target: Option<u8>) -> Seq<char> {
    match target {
        Some(sq) => seq![file_letter(sq as int % 8)] + decimal_text((sq / 8 + 1) as nat),
        None => "None"@,
    }
}

/// The picture of a position.
pub open spec fn display_text(p: Position) -> Seq<char> {
    rows_text(p.squares, 7) + "Active Color: "@ + color_name(p.active_color) + "\n"@
        + "Castling Rights: "@ + rights_letters(p.castling_rights) + "\n"@
        + "En Passant Target: "@ + target_name(p.en_passant) + "\n"@ + "Halfmove Clock: "@
        + decimal_text(p.halfmove_clock as nat) + "\n"@ + "Fullmove Number: "@ + decimal_text(
        p.fullmove_number as nat,
    ) + "\n"@
}

/// The text of the symbol of a square, with the space that follows it.
fn symbol_str(square: Option<Piece>) -> (r: &'static str)
    ensures
        r@ == seq![symbol_of(square), ' '],
{
    proof {
        reveal_strlit("* ");
        reveal_strlit("♙ ");
        reveal_strlit("♘ ");
        reveal_strlit("♗ ");
        reveal_strlit("♖ ");
        reveal_strlit("♕ ");
        reveal_strlit("♔ ");
        reveal_strlit("♟ ");
        reveal_strlit("♞ ");
        reveal_strlit("♝ ");
        reveal_strlit("♜ ");
        reveal_strlit("♛ ");
        reveal_strlit("♚ ");
    }
    let r: &'static str = match square {
        None => "* ",
        Some(piece) => match piece.color {
            Color::White => match piece.piece_type {
                PieceType::Pawn => "♙ ",
                PieceType::Knight => "♘ ",
                PieceType::Bishop => "♗ ",
                PieceType::Rook => "♖ ",
                PieceType::Queen => "♕ ",
                PieceType::King => "♔ ",
            },
            Color::Black => match piece.piece_type {
                PieceType::Pawn => "♟ ",
                PieceType::Knight => "♞ ",
                PieceType::Bishop => "♝ ",
                PieceType::Rook => "♜ ",
                PieceType::Queen => "♛ ",
                PieceType::King => "♚ ",
            },
        },
    };
    assert(r@ =~= seq![symbol_of(square), ' ']);
    r
}

impl Board {
    /// The picture of the position as text: the board, rank 8 on top, then
    /// the side to move, the castling rights, the en-passant target and the
    /// two clocks, a line each.
    pub fn display_text(&self) -> (text: String)
        ensures
            text@ == display_text(self@),
    {
        let mut text: String = String::new();
        let ghost squares = self@.squares;
        let mut rank: u8 = 8;
        while rank > 0
            invariant
                rank <= 8,
                squares == self@.squares,
                text@ + rows_text(squares, rank - 1) == rows_text(squares, 7),
            decreases rank,
        {
            rank = rank - 1;
            let ghost start = text@;
            let mut file: u8 = 0;
            while file < 8
                invariant
                    rank < 8,
                    file <= 8,
                    squares == self@.squares,
                    text@ + row_text(squares, rank as int, file as int) == start + row_text(
                        squares,
                        rank as int,
                        0,
                    ),
                decreases 8 - file,
            {
                let sq_index: u8 = rank * 8 + file;
                let ghost before = text@;
                proof {
                    assert(squares[sq_index as int] == self.piece_at(sq_index as int));
                }
                text.append(symbol_str(self.piece_on(sq_index)));
                proof {
                    assert(text@ + row_text(squares, rank as int, file + 1) =~= before + (seq![
                        symbol_of(squares[sq_index as int]),
                        ' ',
                    ] + row_text(squares, rank as int, file + 1)));
                }
                file = file + 1;
            }
            let ghost line = text@;
            proof {
                reveal_strlit("\n");
                assert(row_text(squares, rank as int, 8) =~= seq!['\n']);
            }
            text.append("\n");
            proof {
                assert(text@ =~= line + row_text(squares, rank as int, 8));
                assert(text@ == start + row_text(squares, rank as int, 0));
                assert(text@ + rows_text(squares, rank - 1) =~= start + (row_text(
                    squares,
                    rank as int,
                    0,
                ) + rows_text(squares, rank - 1)));
            }
        }
        let ghost rows = text@;
        assert(rows =~= rows_text(squares, 7));

        text.append("Active Color: ");
        text.append(
            match self.active_color {
                Color::White => "White",
                Color::Black => "Black",
            },
        );
        text.append("\n");
        text.append("Castling Rights: ");
        let ghost before_rights = text@;
        if self.castling_rights & 1 != 0 {
            text.append("K");
        }
        if self.castling_rights & 2 != 0 {
            text.append("Q");
        }
        if self.castling_rights & 4 != 0 {
            text.append("k");
        }
        if self.castling_rights & 8 != 0 {
            text.append("q");
        }
        proof {
            reveal_strlit("");
            assert(text@ =~= before_rights + rights_letters(self.castling_rights));
        }
        text.append("\n");
        text.append("En Passant Target: ");
        let ghost before_target = text@;
        match self.en_passant {
            Some(square) => {
                text.append(crate::fen::file_str(square % 8));
                crate::fen::append_decimal(&mut text, (square / 8 + 1) as u32);
            },
            None => {
                text.append("None");
            },
        }
        assert(text@ =~= before_target + target_name(self.en_passant));
        text.append("\n");
        text.append("Halfmove Clock: ");
        crate::fen::append_decimal(&mut text, self.halfmove_clock);
        text.append("\n");
        text.append("Fullmove Number: ");
        crate::fen::append_decimal(&mut text, self.fullmove_number);
        text.append("\n");
        assert(text@ =~= display_text(self@));
        text
    }
}

} // verus!
