//! Position notation: six fields separated by single spaces. Piece placement
//! (eight ranks from the top, separated by `/`, a digit for a run of empty
//! squares, a letter for a piece, upper case for White), side to move (`w` or
//! `b`), castling rights (letters of `KQkq`, or `-`), en-passant target (a
//! square name, or `-`), halfmove clock and fullmove number (decimal).

use vstd::prelude::*;
use vstd::string::*;
use crate::bits::{bit_set, has_square, lemma_zero};
use crate::board::{Board, Color, Piece, PieceType, Position};
use crate::utils::{file_of_letter, rank_of_digit, square_from_chars, square_named};

verus! {

/// The index of the first space at or after `i`, or the length of the text.
pub open spec fn field_end(s: Seq<char>, i: int) -> int
    decreases s.len() - i,
{
    if i < 0 || i >= s.len() || s[i] == ' ' {
        i
    } else {
        field_end(s, i + 1)
    }
}

/// The six fields of a position text, if it is made of six fields with one
/// space between each two.
pub open spec fn fen_fields(s: Seq<char>) -> Option<Seq<Seq<char>>> {
    let n = s.len() as int;
    let e0 = field_end(s, 0);
    let e1 = field_end(s, e0 + 1);
    let e2 = field_end(s, e1 + 1);
    let e3 = field_end(s, e2 + 1);
    let e4 = field_end(s, e3 + 1);
    let e5 = field_end(s, e4 + 1);
    if e0 < n && e1 < n && e2 < n && e3 < n && e4 < n && e5 == n {
        Some(
            seq![
                s.subrange(0, e0),
                s.subrange(e0 + 1, e1),
                s.subrange(e1 + 1, e2),
                s.subrange(e2 + 1, e3),
                s.subrange(e3 + 1, e4),
                s.subrange(e4 + 1, e5),
            ],
        )
    } else {
        None
    }
}

/// The piece that a placement letter stands for: upper case for White, lower
/// case for Black.
pub open spec fn piece_of_letter(c: char) -> Option<Piece> {
    if c == 'P' {
        Some(Piece { color: Color::White, piece_type: PieceType::Pawn })
    } else if c == 'N' {
        Some(Piece { color: Color::White, piece_type: PieceType::Knight })
    } else if c == 'B' {
        Some(Piece { color: Color::White, piece_type: PieceType::Bishop })
    } else if c == 'R' {
        Some(Piece { color: Color::White, piece_type: PieceType::Rook })
    } else if c == 'Q' {
        Some(Piece { color: Color::White, piece_type: PieceType::Queen })
    } else if c == 'K' {
        Some(Piece { color: Color::White, piece_type: PieceType::King })
    } else {
        match PieceType::of_letter(c) {
            Some(kind) => Some(Piece { color: Color::Black, piece_type: kind }),
            None => None,
        }
    }
}

/// The letter that stands for a piece in the placement field.
pub open spec fn letter_of_piece(piece: Piece) -> char {
    match piece.color {
        Color::White => match piece.piece_type {
            PieceType::Pawn => 'P',
            PieceType::Knight => 'N',
            PieceType::Bishop => 'B',
            PieceType::Rook => 'R',
            PieceType::Queen => 'Q',
            PieceType::King => 'K',
        },
        Color::Black => match piece.piece_type {
            PieceType::Pawn => 'p',
            PieceType::Knight => 'n',
            PieceType::Bishop => 'b',
            PieceType::Rook => 'r',
            PieceType::Queen => 'q',
            PieceType::King => 'k',
        },
    }
}

/// The value of a decimal digit, and -1 for any other character.
pub open spec fn digit_value(c: char) -> int {
    if '0' <= c <= '9' {
        c as int - '0' as int
    } else {
        -1
    }
}

/// The character of a decimal digit.
pub open spec fn digit_char(d: int) -> char {
    if d == 0 {
        '0'
    } else if d == 1 {
        '1'
    } else if d == 2 {
        '2'
    } else if d == 3 {
        '3'
    } else if d == 4 {
        '4'
    } else if d == 5 {
        '5'
    } else if d == 6 {
        '6'
    } else if d == 7 {
        '7'
    } else if d == 8 {
        '8'
    } else {
        '9'
    }
}

/// Where a reader of the placement field stands: the squares filled so far,
/// and the rank and file of the next square.
pub struct Placement {
    pub squares: Seq<Option<Piece>>,
    pub rank: int,
    pub file: int,
}

/// The reader before the first character: an empty board, at the a-file of the
/// top rank.
pub open spec fn placement_start() -> Placement {
    Placement { squares: Seq::new(64, |sq: int| None::<Piece>), rank: 7, file: 0 }
}

/// One character of the placement field. `/` ends a rank, unless it is the
/// last; a digit from 1 to 8 skips that many squares; a piece letter fills one
/// square. No rank may run past its eighth file, and no other character is
/// allowed.
pub open spec fn placement_step(at: Placement, c: char) -> Option<Placement> {
    if c == '/' {
        if at.rank > 0 {
            Some(Placement { squares: at.squares, rank: at.rank - 1, file: 0 })
        } else {
            None
        }
    } else if 1 <= digit_value(c) <= 8 {
        if at.file + digit_value(c) <= 8 {
            Some(Placement { file: at.file + digit_value(c), ..at })
        } else {
            None
        }
    } else {
        match piece_of_letter(c) {
            Some(piece) => if at.file < 8 {
                Some(
                    Placement {
                        squares: at.squares.update(at.rank * 8 + at.file, Some(piece)),
                        rank: at.rank,
                        file: at.file + 1,
                    },
                )
            } else {
                None
            },
            None => None,
        }
    }
}

/// The reader after the first `n` characters of a placement field.
pub open spec fn placement_after(p: Seq<char>, n: int) -> Option<Placement>
    decreases n,
{
    if n <= 0 {
        Some(placement_start())
    } else {
        match placement_after(p, n - 1) {
            Some(at) => placement_step(at, p[n - 1]),
            None => None,
        }
    }
}

/// The pieces that a placement field puts on the 64 squares, if the field
/// describes eight ranks.
pub open spec fn placement_squares(p: Seq<char>) -> Option<Seq<Option<Piece>>> {
    match placement_after(p, p.len() as int) {
        Some(at) => if at.rank == 0 {
            Some(at.squares)
        } else {
            None
        },
        None => None,
    }
}

/// The side that the second field names.
pub open spec fn color_of_field(f: Seq<char>) -> Option<Color> {
    if f == seq!['w'] {
        Some(Color::White)
    } else if f == seq!['b'] {
        Some(Color::Black)
    } else {
        None
    }
}

/// One of the four letters that name a castling right.
pub open spec fn is_castling_letter(c: char) -> bool {
    c == 'K' || c == 'Q' || c == 'k' || c == 'q'
}

/// The castling rights that the third field names: `-` for none, else one or
/// more letters of `KQkq`, each letter that occurs giving its right.
pub open spec fn castling_of_field(f: Seq<char>) -> Option<u8> {
    if f == seq!['-'] {
        Some(0u8)
    } else if f.len() > 0 && (forall|i: int|
        0 <= i < f.len() ==> is_castling_letter(#[trigger] f[i])) {
        Some(
            (if f.contains('K') {
                1u8
            } else {
                0u8
            }) | (if f.contains('Q') {
                2u8
            } else {
                0u8
            }) | (if f.contains('k') {
                4u8
            } else {
                0u8
            }) | (if f.contains('q') {
                8u8
            } else {
                0u8
            }),
        )
    } else {
        None
    }
}

/// The en-passant target that the fourth field names, if the field is well
/// formed: `-` for none, else the name of a square.
pub open spec fn en_passant_of_field(f: Seq<char>) -> Option<Option<u8>> {
    if f == seq!['-'] {
        Some(None)
    } else if f.len() == 2 {
        match square_named(f[0], f[1]) {
            Some(sq) => Some(Some(sq)),
            None => None,
        }
    } else {
        None
    }
}

/// The number that the first `n` characters of a text spell in decimal, if
/// they are digits.
pub open spec fn decimal_value(f: Seq<char>, n: int) -> int
    decreases n,
{
    if n <= 0 {
        0
    } else {
        decimal_value(f, n - 1) * 10 + digit_value(f[n - 1])
    }
}

/// The number that a clock field spells: one or more decimal digits, with a
/// value that fits in 32 bits.
pub open spec fn number_of_field(f: Seq<char>) -> Option<u32> {
    if f.len() > 0 && (forall|i: int| 0 <= i < f.len() ==> 0 <= #[trigger] digit_value(f[i]))
        && decimal_value(f, f.len() as int) <= u32::MAX {
        Some(decimal_value(f, f.len() as int) as u32)
    } else {
        None
    }
}

/// The position that a text describes, if the text is a well-formed position
/// text: six fields, each well formed, with a fullmove number of at least 1.
pub open spec fn parse_fen(s: Seq<char>) -> Option<Position> {
    match fen_fields(s) {
        Some(f) => match (
            placement_squares(f[0]),
            color_of_field(f[1]),
            castling_of_field(f[2]),
            en_passant_of_field(f[3]),
            number_of_field(f[4]),
            number_of_field(f[5]),
        ) {
            (Some(squares), Some(color), Some(rights), Some(target), Some(half), Some(full)) => {
                if full >= 1 {
                    Some(
                        Position {
                            squares: squares,
                            active_color: color,
                            castling_rights: rights,
                            en_passant: target,
                            halfmove_clock: half,
                            fullmove_number: full,
                        },
                    )
                } else {
                    None
                }
            },
            _ => None,
        },
        None => None,
    }
}

/// A reader that has failed stays failed.
proof fn lemma_placement_stuck(p: Seq<char>, k: int, n: int)
    requires
        0 <= k <= n,
        placement_after(p, k).is_none(),
    ensures
        placement_after(p, n).is_none(),
    decreases n - k,
{
    if k < n {
        lemma_placement_stuck(p, k, n - 1);
    }
}

/// Finds the end of the field that starts at `start`.
fn scan_field(s: &str, start: usize, len: usize) -> (end: usize)
    requires
        s.is_ascii(),
        len == s@.len(),
        start <= len,
    ensures
        end == field_end(s@, start as int),
        start <= end <= len,
{
    let mut i: usize = start;
    while i < len && s.get_ascii(i) != 32
        invariant
            s.is_ascii(),
            len == s@.len(),
            start <= i <= len,
            field_end(s@, i as int) == field_end(s@, start as int),
        decreases len - i,
    {
        i = i + 1;
    }
    i
}

/// The piece that a placement letter stands for.
fn piece_from_letter(c: u8) -> (r: Option<Piece>)
    ensures
        r == piece_of_letter(c as char),
{
    if c == 80 {
        Some(Piece { color: Color::White, piece_type: PieceType::Pawn })
    } else if c == 78 {
        Some(Piece { color: Color::White, piece_type: PieceType::Knight })
    } else if c == 66 {
        Some(Piece { color: Color::White, piece_type: PieceType::Bishop })
    } else if c == 82 {
        Some(Piece { color: Color::White, piece_type: PieceType::Rook })
    } else if c == 81 {
        Some(Piece { color: Color::White, piece_type: PieceType::Queen })
    } else if c == 75 {
        Some(Piece { color: Color::White, piece_type: PieceType::King })
    } else if c == 112 {
        Some(Piece { color: Color::Black, piece_type: PieceType::Pawn })
    } else if c == 110 {
        Some(Piece { color: Color::Black, piece_type: PieceType::Knight })
    } else if c == 98 {
        Some(Piece { color: Color::Black, piece_type: PieceType::Bishop })
    } else if c == 114 {
        Some(Piece { color: Color::Black, piece_type: PieceType::Rook })
    } else if c == 113 {
        Some(Piece { color: Color::Black, piece_type: PieceType::Queen })
    } else if c == 107 {
        Some(Piece { color: Color::Black, piece_type: PieceType::King })
    } else {
        None
    }
}

/// Sixty-four empty squares.
fn empty_squares() -> (squares: Vec<Option<Piece>>)
    ensures
        squares@ == placement_start().squares,
{
    let mut squares: Vec<Option<Piece>> = Vec::new();
    let mut i: usize = 0;
    while i < 64
        invariant
            i <= 64,
            squares@.len() == i,
            forall|k: int| 0 <= k < i ==> (#[trigger] squares@[k]).is_none(),
        decreases 64 - i,
    {
        squares.push(None);
        i = i + 1;
    }
    assert(squares@ =~= placement_start().squares);
    squares
}

impl Board {
    /// Reads the piece-placement field of a position text into 64 squares,
    /// a1 first and h8 last. The field lists the ranks from the eighth down.
    pub fn fen_to_positions(fen_board: &str) -> (r: Option<Vec<Option<Piece>>>)
        ensures
            match r {
                Some(squares) => placement_squares(fen_board@) == Some(squares@),
                None => placement_squares(fen_board@).is_none(),
            },
    {
        if !fen_board.is_ascii() {
            proof {
                if placement_after(fen_board@, fen_board@.len() as int).is_some() {
                    lemma_placement_ascii(fen_board@, fen_board@.len() as int);
                }
            }
            return None;
        }
        let len: usize = fen_board.unicode_len();
        let mut squares: Vec<Option<Piece>> = empty_squares();
        let mut rank: usize = 7;
        let mut file: usize = 0;
        let mut i: usize = 0;
        while i < len
            invariant
                fen_board.is_ascii(),
                len == fen_board@.len(),
                i <= len,
                rank <= 7,
                file <= 8,
                squares@.len() == 64,
                placement_after(fen_board@, i as int) == Some(
                    Placement { squares: squares@, rank: rank as int, file: file as int },
                ),
            decreases len - i,
        {
            let c: u8 = fen_board.get_ascii(i);
            proof {
                assert(c as char == fen_board@[i as int]);
            }
            let ghost at = Placement { squares: squares@, rank: rank as int, file: file as int };
            if c == 47 {
                if rank == 0 {
                    proof {
                        assert(placement_step(at, fen_board@[i as int]).is_none());
                        lemma_placement_stuck(fen_board@, i + 1, len as int);
                    }
                    return None;
                }
                rank = rank - 1;
                file = 0;
            } else if 49 <= c && c <= 56 {
                let empty_count: usize = (c - 48) as usize;
                if file + empty_count > 8 {
                    proof {
                        assert(placement_step(at, fen_board@[i as int]).is_none());
                        lemma_placement_stuck(fen_board@, i + 1, len as int);
                    }
                    return None;
                }
                file = file + empty_count;
            } else {
                match piece_from_letter(c) {
                    Some(piece) => {
                        if file >= 8 {
                            proof {
                                assert(placement_step(at, fen_board@[i as int]).is_none());
                                lemma_placement_stuck(fen_board@, i + 1, len as int);
                            }
                            return None;
                        }
                        squares.set(rank * 8 + file, Some(piece));
                        file = file + 1;
                    },
                    None => {
                        proof {
                            assert(placement_step(at, fen_board@[i as int]).is_none());
                            lemma_placement_stuck(fen_board@, i + 1, len as int);
                        }
                        return None;
                    },
                }
            }
            i = i + 1;
        }
        if rank != 0 {
            return None;
        }
        Some(squares)
    }
}

/// Reads the side to move.
fn parse_color(f: &str) -> (r: Option<Color>)
    requires
        f.is_ascii(),
    ensures
        r == color_of_field(f@),
{
    if f.unicode_len() != 1 {
        return None;
    }
    let c: u8 = f.get_ascii(0);
    if c == 119 {
        assert(f@ =~= seq!['w']);
        Some(Color::White)
    } else if c == 98 {
        assert(f@ =~= seq!['b']);
        Some(Color::Black)
    } else {
        None
    }
}

/// The four rights together stay within their four bits.
pub proof fn lemma_rights_fit(k: u8, q: u8, bk: u8, bq: u8)
    by (bit_vector)
    requires
        k == 0 || k == 1,
        q == 0 || q == 2,
        bk == 0 || bk == 4,
        bq == 0 || bq == 8,
    ensures
        (k | q | bk | bq) < 16,
{
}

/// Reads the castling rights.
fn parse_castling(f: &str) -> (r: Option<u8>)
    requires
        f.is_ascii(),
    ensures
        r == castling_of_field(f@),
        r.is_some() ==> r.unwrap() < 16,
{
    let len: usize = f.unicode_len();
    if len == 0 {
        return None;
    }
    if len == 1 && f.get_ascii(0) == 45 {
        assert(f@ =~= seq!['-']);
        return Some(0);
    }
    proof {
        if f@ == seq!['-'] {
            assert(f@[0] == '-');
        }
    }
    let mut k: u8 = 0;
    let mut q: u8 = 0;
    let mut bk: u8 = 0;
    let mut bq: u8 = 0;
    let mut i: usize = 0;
    while i < len
        invariant
            f.is_ascii(),
            len == f@.len(),
            i <= len,
            f@ != seq!['-'],
            forall|j: int| 0 <= j < i ==> is_castling_letter(#[trigger] f@[j]),
            k == (if exists|j: int| 0 <= j < i && f@[j] == 'K' { 1u8 } else { 0u8 }),
            q == (if exists|j: int| 0 <= j < i && f@[j] == 'Q' { 2u8 } else { 0u8 }),
            bk == (if exists|j: int| 0 <= j < i && f@[j] == 'k' { 4u8 } else { 0u8 }),
            bq == (if exists|j: int| 0 <= j < i && f@[j] == 'q' { 8u8 } else { 0u8 }),
        decreases len - i,
    {
        let c: u8 = f.get_ascii(i);
        proof {
            assert(c as char == f@[i as int]);
        }
        if c == 75 {
            k = 1;
        } else if c == 81 {
            q = 2;
        } else if c == 107 {
            bk = 4;
        } else if c == 113 {
            bq = 8;
        } else {
            proof {
                assert(!is_castling_letter(f@[i as int]));
            }
            return None;
        }
        i = i + 1;
    }
    proof {
        lemma_rights_fit(k, q, bk, bq);
        assert(f@.contains('K') == (exists|j: int| 0 <= j < len && f@[j] == 'K'));
        assert(f@.contains('Q') == (exists|j: int| 0 <= j < len && f@[j] == 'Q'));
        assert(f@.contains('k') == (exists|j: int| 0 <= j < len && f@[j] == 'k'));
        assert(f@.contains('q') == (exists|j: int| 0 <= j < len && f@[j] == 'q'));
    }
    Some(k | q | bk | bq)
}

/// Reads the en-passant target.
fn parse_en_passant(f: &str) -> (r: Option<Option<u8>>)
    requires
        f.is_ascii(),
    ensures
        r == en_passant_of_field(f@),
        r.is_some() && r.unwrap().is_some() ==> r.unwrap().unwrap() < 64,
{
    let len: usize = f.unicode_len();
    if len == 1 && f.get_ascii(0) == 45 {
        assert(f@ =~= seq!['-']);
        return Some(None);
    }
    if len != 2 {
        proof {
            if f@ == seq!['-'] {
                assert(f@[0] == '-');
            }
        }
        return None;
    }
    match square_from_chars(f.get_char(0), f.get_char(1)) {
        Some(sq) => Some(Some(sq)),
        None => None,
    }
}

/// With digits only, more digits never spell a smaller number.
proof fn lemma_decimal_grows(f: Seq<char>, k: int, n: int)
    requires
        0 <= k <= n <= f.len(),
        forall|i: int| 0 <= i < f.len() ==> 0 <= #[trigger] digit_value(f[i]),
    ensures
        0 <= decimal_value(f, k) <= decimal_value(f, n),
    decreases n,
{
    if n > 0 {
        assert(0 <= digit_value(f[n - 1]));
        if k < n {
            lemma_decimal_grows(f, k, n - 1);
        } else {
            lemma_decimal_grows(f, k - 1, n - 1);
        }
    }
}

/// Reads a clock.
fn parse_number(f: &str) -> (r: Option<u32>)
    requires
        f.is_ascii(),
    ensures
        r == number_of_field(f@),
{
    let len: usize = f.unicode_len();
    if len == 0 {
        return None;
    }
    let mut value: u64 = 0;
    let mut i: usize = 0;
    while i < len
        invariant
            f.is_ascii(),
            len == f@.len(),
            i <= len,
            forall|j: int| 0 <= j < i ==> 0 <= #[trigger] digit_value(f@[j]),
            value == decimal_value(f@, i as int),
            value <= u32::MAX,
        decreases len - i,
    {
        let c: u8 = f.get_ascii(i);
        proof {
            assert(c as char == f@[i as int]);
        }
        if c < 48 || c > 57 {
            proof {
                assert(digit_value(f@[i as int]) < 0);
            }
            return None;
        }
        value = value * 10 + (c - 48) as u64;
        if value > 0xffff_ffff {
            proof {
                if forall|j: int| 0 <= j < f@.len() ==> 0 <= #[trigger] digit_value(f@[j]) {
                    lemma_decimal_grows(f@, i + 1, len as int);
                }
            }
            return None;
        }
        i = i + 1;
    }
    Some(value as u32)
}

/// A field ends at a space or at the end of the text, and holds no space.
proof fn lemma_field_end(s: Seq<char>, i: int)
    requires
        0 <= i <= s.len(),
    ensures
        i <= field_end(s, i) <= s.len(),
        field_end(s, i) < s.len() ==> s[field_end(s, i)] == ' ',
        forall|j: int| i <= j < field_end(s, i) ==> #[trigger] s[j] != ' ',
    decreases s.len() - i,
{
    if i < s.len() && s[i] != ' ' {
        lemma_field_end(s, i + 1);
    }
}

/// A placement field that can be read holds plain characters only.
proof fn lemma_placement_ascii(p: Seq<char>, n: int)
    requires
        0 <= n <= p.len(),
        placement_after(p, n).is_some(),
    ensures
        forall|i: int| 0 <= i < n ==> '\0' <= #[trigger] p[i] <= '\u{7f}',
    decreases n,
{
    if n > 0 {
        lemma_placement_ascii(p, n - 1);
    }
}

/// A well-formed position text holds plain characters only.
proof fn lemma_fen_is_ascii(s: Seq<char>)
    requires
        parse_fen(s).is_some(),
    ensures
        vstd::utf8::is_ascii_chars(s),
{
    let n = s.len() as int;
    let e0 = field_end(s, 0);
    lemma_field_end(s, 0);
    let e1 = field_end(s, e0 + 1);
    lemma_field_end(s, e0 + 1);
    let e2 = field_end(s, e1 + 1);
    lemma_field_end(s, e1 + 1);
    let e3 = field_end(s, e2 + 1);
    lemma_field_end(s, e2 + 1);
    let e4 = field_end(s, e3 + 1);
    lemma_field_end(s, e3 + 1);
    let e5 = field_end(s, e4 + 1);
    lemma_field_end(s, e4 + 1);
    let f = fen_fields(s).unwrap();
    lemma_placement_ascii(f[0], f[0].len() as int);
    assert forall|i: int| 0 <= i < s.len() implies '\0' <= #[trigger] s[i] <= '\u{7f}' by {
        if i < e0 {
            assert(s[i] == f[0][i]);
        } else if i == e0 {
        } else if i < e1 {
            let c = f[1][i - e0 - 1];
            assert(s[i] == c);
            assert(f[1] == seq!['w'] || f[1] == seq!['b']);
            assert(c == 'w' || c == 'b');
        } else if i == e1 {
        } else if i < e2 {
            let c = f[2][i - e1 - 1];
            assert(s[i] == c);
            if f[2] == seq!['-'] {
                assert(seq!['-'].len() == 1 && seq!['-'][0] == '-');
                assert(c == f[2][0]);
            } else {
                assert(is_castling_letter(c));
            }
        } else if i == e2 {
        } else if i < e3 {
            let c = f[3][i - e2 - 1];
            assert(s[i] == c);
            if f[3] == seq!['-'] {
                assert(seq!['-'].len() == 1 && seq!['-'][0] == '-');
                assert(c == f[3][0]);
            } else {
                assert(f[3].len() == 2);
                assert(square_named(f[3][0], f[3][1]).is_some());
                assert(file_of_letter(f[3][0]).is_some());
                assert(rank_of_digit(f[3][1]).is_some());
                assert(c == f[3][0] || c == f[3][1]);
            }
        } else if i == e3 {
        } else if i < e4 {
            let c = f[4][i - e3 - 1];
            assert(s[i] == c);
            assert(0 <= digit_value(c));
        } else if i == e4 {
        } else {
            let c = f[5][i - e4 - 1];
            assert(s[i] == c);
            assert(0 <= digit_value(c));
        }
    }
}

impl Board {
    /// The position with no piece on the board, White to move, no castling
    /// rights, no en-passant target, and the clocks at 0 and 1.
    pub fn empty() -> (b: Board)
        ensures
            b.wf(),
            forall|sq: int| b.vacant(sq),
            b.active_color == Color::White,
            b.castling_rights == 0,
            b.en_passant.is_none(),
            b.halfmove_clock == 0,
            b.fullmove_number == 1,
    {
        proof {
            lemma_zero();
        }
        Board {
            bitboards: [0, 0, 0, 0, 0, 0, 0, 0, 0, 0, 0, 0],
            all_white_bitboard: 0,
            all_black_bitboard: 0,
            active_color: Color::White,
            castling_rights: 0,
            en_passant: None,
            halfmove_clock: 0,
            fullmove_number: 1,
        }
    }

    /// Builds a position from the piece on each of the 64 squares, a1 first,
    /// and the scalar fields.
    pub fn from_squares(
        squares: &Vec<Option<Piece>>,
        active_color: Color,
        castling_rights: u8,
        en_passant: Option<u8>,
        halfmove_clock: u32,
        fullmove_number: u32,
    ) -> (b: Board)
        requires
            squares@.len() == 64,
            castling_rights < 16,
            en_passant.is_some() ==> en_passant.unwrap() < 64,
        ensures
            b.wf(),
            b@ == (Position {
                squares: squares@,
                active_color: active_color,
                castling_rights: castling_rights,
                en_passant: en_passant,
                halfmove_clock: halfmove_clock,
                fullmove_number: fullmove_number,
            }),
    {
        let mut b: Board = Board::empty();
        let mut sq: u8 = 0;
        while sq < 64
            invariant
                sq <= 64,
                squares@.len() == 64,
                b.wf(),
                forall|x: int| 0 <= x < sq ==> #[trigger] b.piece_at(x) == squares@[x],
                forall|x: int| sq <= x ==> #[trigger] b.vacant(x),
                b.castling_rights == 0,
                b.en_passant.is_none(),
            decreases 64 - sq,
        {
            let ghost before = b;
            match squares[sq as usize] {
                Some(piece) => {
                    proof {
                        assert(before.vacant(sq as int));
                        before.lemma_set_down(piece.color, piece.piece_type, sq as int);
                    }
                    b.put(piece.color, piece.piece_type, sq);
                    proof {
                        assert forall|x: int| sq + 1 <= x implies #[trigger] b.vacant(x) by {
                            assert(before.vacant(x));
                        }
                    }
                },
                None => {
                    proof {
                        assert(before.vacant(sq as int));
                        assert(before.piece_at(sq as int).is_none());
                    }
                },
            }
            sq = sq + 1;
        }
        let ghost filled = b;
        b.active_color = active_color;
        b.castling_rights = castling_rights;
        b.en_passant = en_passant;
        b.halfmove_clock = halfmove_clock;
        b.fullmove_number = fullmove_number;
        proof {
            assert(b.bitboards == filled.bitboards);
            assert forall|x: int| 0 <= x < 64 implies b.piece_at(x) == squares@[x] by {
                assert(filled.piece_at(x) == squares@[x]);
            }
            assert(b@.squares =~= squares@);
            assert forall|x: int| #[trigger]
                bit_set(b.all_white_bitboard, x) == b.any_in(0, 6, x) by {
                assert(filled.any_in(0, 6, x) == b.any_in(0, 6, x));
            }
            assert forall|x: int| #[trigger]
                bit_set(b.all_black_bitboard, x) == b.any_in(6, 12, x) by {
                assert(filled.any_in(6, 12, x) == b.any_in(6, 12, x));
            }
        }
        b
    }

    /// Reads a position from its text.
    ///
    /// A well-formed text gives the position it describes, which is
    /// consistent. Any other text gives `None`.
    pub fn fen_to_board(fen: &str) -> (r: Option<Board>)
        ensures
            match r {
                Some(b) => parse_fen(fen@) == Some(b@) && b.wf(),
                None => parse_fen(fen@).is_none(),
            },
    {
        if !fen.is_ascii() {
            proof {
                if parse_fen(fen@).is_some() {
                    lemma_fen_is_ascii(fen@);
                }
            }
            return None;
        }
        let n: usize = fen.unicode_len();
        let e0: usize = scan_field(fen, 0, n);
        if e0 >= n {
            return None;
        }
        let e1: usize = scan_field(fen, e0 + 1, n);
        if e1 >= n {
            return None;
        }
        let e2: usize = scan_field(fen, e1 + 1, n);
        if e2 >= n {
            return None;
        }
        let e3: usize = scan_field(fen, e2 + 1, n);
        if e3 >= n {
            return None;
        }
        let e4: usize = scan_field(fen, e3 + 1, n);
        if e4 >= n {
            return None;
        }
        let e5: usize = scan_field(fen, e4 + 1, n);
        if e5 != n {
            return None;
        }
        let squares: Vec<Option<Piece>> = match Board::fen_to_positions(
            fen.substring_ascii(0, e0),
        ) {
            Some(squares) => squares,
            None => {
                return None;
            },
        };
        let active_color: Color = match parse_color(fen.substring_ascii(e0 + 1, e1)) {
            Some(color) => color,
            None => {
                return None;
            },
        };
        let castling_rights: u8 = match parse_castling(fen.substring_ascii(e1 + 1, e2)) {
            Some(rights) => rights,
            None => {
                return None;
            },
        };
        let en_passant: Option<u8> = match parse_en_passant(fen.substring_ascii(e2 + 1, e3)) {
            Some(target) => target,
            None => {
                return None;
            },
        };
        let halfmove_clock: u32 = match parse_number(fen.substring_ascii(e3 + 1, e4)) {
            Some(number) => number,
            None => {
                return None;
            },
        };
        let fullmove_number: u32 = match parse_number(fen.substring_ascii(e4 + 1, e5)) {
            Some(number) => number,
            None => {
                return None;
            },
        };
        if fullmove_number == 0 {
            return None;
        }
        proof {
            lemma_placement_length(fen@.subrange(0, e0 as int));
        }
        Some(
            Board::from_squares(
                &squares,
                active_color,
                castling_rights,
                en_passant,
                halfmove_clock,
                fullmove_number,
            ),
        )
    }
}

/// Reading a placement field keeps the board at 64 squares.
proof fn lemma_placement_keeps_length(p: Seq<char>, n: int)
    requires
        placement_after(p, n).is_some(),
    ensures
        placement_after(p, n).unwrap().squares.len() == 64,
        0 <= placement_after(p, n).unwrap().rank <= 7,
        0 <= placement_after(p, n).unwrap().file <= 8,
    decreases n,
{
    if n > 0 {
        lemma_placement_keeps_length(p, n - 1);
    }
}

/// The squares that a placement field describes are 64.
pub proof fn lemma_placement_length(p: Seq<char>)
    ensures
        placement_squares(p).is_some() ==> placement_squares(p).unwrap().len() == 64,
{
    if placement_after(p, p.len() as int).is_some() {
        lemma_placement_keeps_length(p, p.len() as int);
    }
}

/// The digit for a run of empty squares, and nothing for no run.
pub open spec fn run_text(empty: int) -> Seq<char> {
    if empty > 0 {
        seq![digit_char(empty)]
    } else {
        Seq::empty()
    }
}

/// The text for the files from `file` on of one rank, after a run of `empty`
/// empty squares that is not written yet.
pub open spec fn rank_text(squares: Seq<Option<Piece>>, rank: int, file: int, empty: int) -> Seq<
    char,
>
    decreases 8 - file,
{
    if file >= 8 {
        run_text(empty)
    } else {
        match squares[rank * 8 + file] {
            None => rank_text(squares, rank, file + 1, empty + 1),
            Some(piece) => run_text(empty) + seq![letter_of_piece(piece)] + rank_text(
                squares,
                rank,
                file + 1,
                0,
            ),
        }
    }
}

/// The text for the ranks from `rank` down to the first, with `/` between them.
pub open spec fn placement_text(squares: Seq<Option<Piece>>, rank: int) -> Seq<char>
    decreases rank,
{
    if rank <= 0 {
        rank_text(squares, 0, 0, 0)
    } else {
        rank_text(squares, rank, 0, 0) + seq!['/'] + placement_text(squares, rank - 1)
    }
}

/// The text for the side to move.
pub open spec fn color_text(color: Color) -> Seq<char> {
    match color {
        Color::White => seq!['w'],
        Color::Black => seq!['b'],
    }
}

/// The text for the castling rights: `-` for none, else the letters of the
/// rights in the order `KQkq`.
pub open spec fn castling_text(rights: u8) -> Seq<char> {
    if rights == 0 {
        seq!['-']
    } else {
        (if rights & 1 != 0 {
            seq!['K']
        } else {
            Seq::empty()
        }) + (if rights & 2 != 0 {
            seq!['Q']
        } else {
            Seq::empty()
        }) + (if rights & 4 != 0 {
            seq!['k']
        } else {
            Seq::empty()
        }) + (if rights & 8 != 0 {
            seq!['q']
        } else {
            Seq::empty()
        })
    }
}

/// The letter of a file.
pub open spec fn file_letter(file: int) -> char {
    if file == 0 {
        'a'
    } else if file == 1 {
        'b'
    } else if file == 2 {
        'c'
    } else if file == 3 {
        'd'
    } else if file == 4 {
        'e'
    } else if file == 5 {
        'f'
    } else if file == 6 {
        'g'
    } else {
        'h'
    }
}

/// A number in decimal, without leading zeros.
pub open spec fn decimal_text(n: nat) -> Seq<char>
    decreases n,
{
    if n < 10 {
        seq![digit_char(n as int)]
    } else {
        decimal_text(n / 10) + seq![digit_char((n % 10) as int)]
    }
}

/// The text for the en-passant target: `-` for none, else the letter of the
/// square's file and the number of its rank.
pub open spec fn en_passant_text(target: Option<u8>) -> Seq<char> {
    match target {
        None => seq!['-'],
        Some(sq) => seq![file_letter(sq as int % 8)] + decimal_text((sq / 8 + 1) as nat),
    }
}

/// The text of a position.
pub open spec fn render_fen(p: Position) -> Seq<char> {
    placement_text(p.squares, 7) + seq![' '] + color_text(p.active_color) + seq![' ']
        + castling_text(p.castling_rights) + seq![' '] + en_passant_text(p.en_passant) + seq![' ']
        + decimal_text(p.halfmove_clock as nat) + seq![' '] + decimal_text(
        p.fullmove_number as nat,
    )
}

/// The text of one decimal digit.
fn digit_str(d: u8) -> (r: &'static str)
    requires
        d <= 9,
    ensures
        r@ == seq![digit_char(d as int)],
{
    proof {
        reveal_strlit("0");
        reveal_strlit("1");
        reveal_strlit("2");
        reveal_strlit("3");
        reveal_strlit("4");
        reveal_strlit("5");
        reveal_strlit("6");
        reveal_strlit("7");
        reveal_strlit("8");
        reveal_strlit("9");
    }
    let r: &'static str = match d {
        0 => "0",
        1 => "1",
        2 => "2",
        3 => "3",
        4 => "4",
        5 => "5",
        6 => "6",
        7 => "7",
        8 => "8",
        _ => "9",
    };
    assert(r@ =~= seq![digit_char(d as int)]);
    r
}

/// The text of the letter of a file.
pub(crate) fn file_str(file: u8) -> (r: &'static str)
    requires
        file <= 7,
    ensures
        r@ == seq![file_letter(file as int)],
{
    proof {
        reveal_strlit("a");
        reveal_strlit("b");
        reveal_strlit("c");
        reveal_strlit("d");
        reveal_strlit("e");
        reveal_strlit("f");
        reveal_strlit("g");
        reveal_strlit("h");
    }
    let r: &'static str = match file {
        0 => "a",
        1 => "b",
        2 => "c",
        3 => "d",
        4 => "e",
        5 => "f",
        6 => "g",
        _ => "h",
    };
    assert(r@ =~= seq![file_letter(file as int)]);
    r
}

/// The text of the letter of a piece.
fn piece_str(piece: Piece) -> (r: &'static str)
    ensures
        r@ == seq![letter_of_piece(piece)],
{
    proof {
        reveal_strlit("P");
        reveal_strlit("N");
        reveal_strlit("B");
        reveal_strlit("R");
        reveal_strlit("Q");
        reveal_strlit("K");
        reveal_strlit("p");
        reveal_strlit("n");
        reveal_strlit("b");
        reveal_strlit("r");
        reveal_strlit("q");
        reveal_strlit("k");
    }
    let r: &'static str = match piece.color {
        Color::White => match piece.piece_type {
            PieceType::Pawn => "P",
            PieceType::Knight => "N",
            PieceType::Bishop => "B",
            PieceType::Rook => "R",
            PieceType::Queen => "Q",
            PieceType::King => "K",
        },
        Color::Black => match piece.piece_type {
            PieceType::Pawn => "p",
            PieceType::Knight => "n",
            PieceType::Bishop => "b",
            PieceType::Rook => "r",
            PieceType::Queen => "q",
            PieceType::King => "k",
        },
    };
    assert(r@ =~= seq![letter_of_piece(piece)]);
    r
}

/// Appends a number in decimal.
pub(crate) fn append_decimal(text: &mut String, n: u32)
    ensures
        final(text)@ == old(text)@ + decimal_text(n as nat),
    decreases n,
{
    if n >= 10 {
        append_decimal(text, n / 10);
    }
    text.append(digit_str((n % 10) as u8));
    proof {
        if n >= 10 {
            assert(text@ =~= old(text)@ + (decimal_text((n / 10) as nat) + seq![
                digit_char((n % 10) as int),
            ]));
        }
    }
}

/// Appends the digit for a run of empty squares, if there is a run.
fn append_run(text: &mut String, empty: u8)
    requires
        empty <= 8,
    ensures
        final(text)@ == old(text)@ + run_text(empty as int),
{
    if empty > 0 {
        text.append(digit_str(empty));
    } else {
        assert(text@ =~= old(text)@ + run_text(empty as int));
    }
}

impl Board {
    /// The piece that stands on a square, if any: the piece of the first of
    /// the twelve bitboards that holds the square.
    pub fn piece_on(&self, sq: u8) -> (r: Option<Piece>)
        requires
            sq < 64,
        ensures
            r == self.piece_at(sq as int),
    {
        let mut i: usize = 0;
        while i < 12
            invariant
                sq < 64,
                i <= 12,
                forall|j: int| 0 <= j < i ==> !bit_set(#[trigger] self.bitboards[j], sq as int),
            decreases 12 - i,
        {
            if has_square(self.bitboards[i], sq) {
                let piece: Piece = if i < 6 {
                    Piece { color: Color::White, piece_type: PieceType::from_index(i) }
                } else {
                    Piece { color: Color::Black, piece_type: PieceType::from_index(i - 6) }
                };
                proof {
                    assert(self.slot_at(sq as int) == Some(i as int));
                }
                return Some(piece);
            }
            i = i + 1;
        }
        proof {
            assert(self.slot_at(sq as int).is_none());
        }
        None
    }

    /// Writes the position as text.
    pub fn board_to_fen(&self) -> (fen: String)
        ensures
            fen@ == render_fen(self@),
    {
        let mut fen: String = String::new();
        let ghost squares = self@.squares;
        let mut rank: u8 = 8;
        while rank > 0
            invariant
                rank <= 8,
                squares == self@.squares,
                rank > 0 ==> fen@ + placement_text(squares, rank - 1) == placement_text(squares, 7),
                rank == 0 ==> fen@ == placement_text(squares, 7),
            decreases rank,
        {
            rank = rank - 1;
            let ghost start = fen@;
            let mut empty_count: u8 = 0;
            let mut file: u8 = 0;
            while file < 8
                invariant
                    rank < 8,
                    file <= 8,
                    empty_count <= file,
                    squares == self@.squares,
                    fen@ + rank_text(squares, rank as int, file as int, empty_count as int)
                        == start + rank_text(squares, rank as int, 0, 0),
                decreases 8 - file,
            {
                let sq_index: u8 = rank * 8 + file;
                let ghost before = fen@;
                let ghost rest = rank_text(squares, rank as int, file + 1, 0);
                proof {
                    assert(squares[sq_index as int] == self.piece_at(sq_index as int));
                }
                match self.piece_on(sq_index) {
                    Some(piece) => {
                        append_run(&mut fen, empty_count);
                        fen.append(piece_str(piece));
                        proof {
                            assert(fen@ + rest =~= before + (run_text(empty_count as int) + seq![
                                letter_of_piece(piece),
                            ] + rest));
                        }
                        empty_count = 0;
                    },
                    None => {
                        empty_count = empty_count + 1;
                    },
                }
                file = file + 1;
            }
            append_run(&mut fen, empty_count);
            if rank > 0 {
                proof {
                    reveal_strlit("/");
                }
                fen.append("/");
                proof {
                    assert(fen@ + placement_text(squares, rank - 1) =~= start + (rank_text(
                        squares,
                        rank as int,
                        0,
                        0,
                    ) + seq!['/'] + placement_text(squares, rank - 1)));
                }
            }
        }
        let ghost placement = fen@;

        proof {
            reveal_strlit(" ");
            reveal_strlit("w");
            reveal_strlit("b");
            reveal_strlit("-");
            reveal_strlit("K");
            reveal_strlit("Q");
            reveal_strlit("k");
            reveal_strlit("q");
        }
        fen.append(" ");
        fen.append(
            match self.active_color {
                Color::White => "w",
                Color::Black => "b",
            },
        );
        let ghost with_color = fen@;
        assert(with_color =~= placement + seq![' '] + color_text(self.active_color));

        fen.append(" ");
        let ghost before_rights = fen@;
        if self.castling_rights == 0 {
            fen.append("-");
        } else {
            if self.castling_rights & 1 != 0 {
                fen.append("K");
            }
            if self.castling_rights & 2 != 0 {
                fen.append("Q");
            }
            if self.castling_rights & 4 != 0 {
                fen.append("k");
            }
            if self.castling_rights & 8 != 0 {
                fen.append("q");
            }
        }
        let ghost with_rights = fen@;
        assert(with_rights =~= before_rights + castling_text(self.castling_rights));

        fen.append(" ");
        let ghost before_target = fen@;
        match self.en_passant {
            Some(square) => {
                fen.append(file_str(square % 8));
                append_decimal(&mut fen, (square / 8 + 1) as u32);
            },
            None => {
                fen.append("-");
            },
        }
        let ghost with_target = fen@;
        assert(with_target =~= before_target + en_passant_text(self.en_passant));

        fen.append(" ");
        append_decimal(&mut fen, self.halfmove_clock);
        fen.append(" ");
        append_decimal(&mut fen, self.fullmove_number);
        assert(fen@ =~= render_fen(self@));
        fen
    }
}

} // verus!
