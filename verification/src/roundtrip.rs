//! Writing a position as text and reading the text back gives the position.

use vstd::prelude::*;
use crate::board::{Board, Color, Piece, Position};
use crate::fen::{
    castling_of_field, castling_text, color_of_field, color_text, decimal_text, decimal_value,
    digit_char, digit_value, en_passant_of_field, en_passant_text, fen_fields, field_end,
    file_letter, is_castling_letter, lemma_placement_length, lemma_rights_fit, letter_of_piece,
    number_of_field, parse_fen, piece_of_letter, placement_after, placement_squares,
    placement_start, placement_step, placement_text, rank_text, render_fen, run_text, Placement,
};
use crate::utils::square_named;

verus! {

/// The reader of the placement field, started anywhere: where it stands after
/// a text, if it can read the text.
pub open spec fn read_from(at: Placement, t: Seq<char>) -> Option<Placement>
    decreases t.len(),
{
    if t.len() == 0 {
        Some(at)
    } else {
        match read_from(at, t.drop_last()) {
            Some(x) => placement_step(x, t.last()),
            None => None,
        }
    }
}

/// Reading a text in two parts is reading the whole.
pub proof fn lemma_read_concat(at: Placement, a: Seq<char>, b: Seq<char>)
    ensures
        read_from(at, a + b) == match read_from(at, a) {
            Some(x) => read_from(x, b),
            None => None,
        },
    decreases b.len(),
{
    if b.len() == 0 {
        assert(a + b =~= a);
    } else {
        assert((a + b).drop_last() =~= a + b.drop_last());
        assert((a + b).last() == b.last());
        lemma_read_concat(at, a, b.drop_last());
    }
}

/// Reading one character is one step.
pub proof fn lemma_read_one(at: Placement, c: char)
    ensures
        read_from(at, seq![c]) == placement_step(at, c),
{
    assert(seq![c].drop_last() =~= Seq::<char>::empty());
    assert(seq![c].last() == c);
    assert(read_from(at, Seq::<char>::empty()) == Some(at));
}

/// The reader from the start is the reader of a whole field.
pub proof fn lemma_read_prefix(p: Seq<char>, n: int)
    requires
        0 <= n <= p.len(),
    ensures
        placement_after(p, n) == read_from(placement_start(), p.take(n)),
    decreases n,
{
    if n > 0 {
        lemma_read_prefix(p, n - 1);
        assert(p.take(n).drop_last() =~= p.take(n - 1));
        assert(p.take(n).last() == p[n - 1]);
    }
}

/// The squares that a reader has passed when it stands at `file` of `rank`:
/// all of the ranks above, and the files before `file` of that rank.
pub open spec fn passed(sq: int, rank: int, file: int) -> bool {
    sq / 8 > rank || (sq / 8 == rank && sq % 8 < file)
}

/// A board that holds the pieces of `squares` on the squares passed, and
/// nothing on the others.
pub open spec fn filled_to(squares: Seq<Option<Piece>>, rank: int, file: int) -> Seq<
    Option<Piece>,
> {
    Seq::new(
        64,
        |sq: int|
            if passed(sq, rank, file) {
                squares[sq]
            } else {
                None
            },
    )
}

/// Each piece letter reads back as its piece, and is neither `/` nor a digit.
pub proof fn lemma_letter_reads_back(piece: Piece)
    ensures
        piece_of_letter(letter_of_piece(piece)) == Some(piece),
        letter_of_piece(piece) != '/',
        letter_of_piece(piece) != ' ',
        digit_value(letter_of_piece(piece)) == -1,
{
}

/// Each digit character has its digit as value.
pub proof fn lemma_digit_reads_back(d: int)
    requires
        0 <= d <= 9,
    ensures
        digit_value(digit_char(d)) == d,
        digit_char(d) != '/',
        digit_char(d) != ' ',
        digit_char(d) != '-',
        piece_of_letter(digit_char(d)).is_none(),
{
}

/// Reading the text of a run of empty squares moves the reader over the run.
proof fn lemma_read_run(at: Placement, empty: int)
    requires
        0 <= empty <= 8,
        0 <= at.file,
        at.file + empty <= 8,
    ensures
        read_from(at, run_text(empty)) == Some(Placement { file: at.file + empty, ..at }),
{
    if empty > 0 {
        lemma_digit_reads_back(empty);
        lemma_read_one(at, digit_char(empty));
    }
}

/// Reading what the writer writes for the rest of a rank fills the rest of
/// the rank.
proof fn lemma_read_rank(squares: Seq<Option<Piece>>, rank: int, file: int, empty: int)
    requires
        squares.len() == 64,
        0 <= rank < 8,
        0 <= empty <= file <= 8,
        forall|f: int| file - empty <= f < file ==> (#[trigger] squares[rank * 8 + f]).is_none(),
    ensures
        read_from(
            Placement { squares: filled_to(squares, rank, file), rank: rank, file: file - empty },
            rank_text(squares, rank, file, empty),
        ) == Some(Placement { squares: filled_to(squares, rank, 8), rank: rank, file: 8 }),
    decreases 8 - file,
{
    let at = Placement { squares: filled_to(squares, rank, file), rank: rank, file: file - empty };
    if file >= 8 {
        lemma_read_run(at, empty);
    } else {
        match squares[rank * 8 + file] {
            None => {
                assert(filled_to(squares, rank, file + 1) =~= filled_to(squares, rank, file));
                assert forall|f: int| file + 1 - (empty + 1) <= f < file + 1 implies (
                #[trigger] squares[rank * 8 + f]).is_none() by {}
                lemma_read_rank(squares, rank, file + 1, empty + 1);
            },
            Some(piece) => {
                let rest = rank_text(squares, rank, file + 1, 0);
                let letter = letter_of_piece(piece);
                lemma_read_run(at, empty);
                let after_run = Placement { file: file, ..at };
                lemma_letter_reads_back(piece);
                lemma_read_one(after_run, letter);
                let after_letter = Placement {
                    squares: filled_to(squares, rank, file + 1),
                    rank: rank,
                    file: file + 1,
                };
                assert(after_run.squares.update(rank * 8 + file, Some(piece)) =~= filled_to(
                    squares,
                    rank,
                    file + 1,
                ));
                assert(placement_step(after_run, letter) == Some(after_letter));
                lemma_read_rank(squares, rank, file + 1, 0);
                lemma_read_concat(at, run_text(empty), seq![letter]);
                lemma_read_concat(at, run_text(empty) + seq![letter], rest);
            },
        }
    }
}

/// Reading what the writer writes for the ranks from `rank` down fills the
/// board.
proof fn lemma_read_ranks(squares: Seq<Option<Piece>>, rank: int)
    requires
        squares.len() == 64,
        0 <= rank < 8,
    ensures
        read_from(
            Placement { squares: filled_to(squares, rank, 0), rank: rank, file: 0 },
            placement_text(squares, rank),
        ) == Some(Placement { squares: squares, rank: 0, file: 8 }),
    decreases rank,
{
    let at = Placement { squares: filled_to(squares, rank, 0), rank: rank, file: 0 };
    lemma_read_rank(squares, rank, 0, 0);
    let done = Placement { squares: filled_to(squares, rank, 8), rank: rank, file: 8 };
    if rank == 0 {
        assert(filled_to(squares, 0, 8) =~= squares);
    } else {
        let line = rank_text(squares, rank, 0, 0);
        let below = placement_text(squares, rank - 1);
        lemma_read_one(done, '/');
        assert(filled_to(squares, rank, 8) =~= filled_to(squares, rank - 1, 0));
        lemma_read_ranks(squares, rank - 1);
        lemma_read_concat(at, line, seq!['/']);
        lemma_read_concat(at, line + seq!['/'], below);
    }
}

/// The placement field that the writer writes reads back as the same 64 squares.
pub proof fn lemma_placement_round_trip(squares: Seq<Option<Piece>>)
    requires
        squares.len() == 64,
    ensures
        placement_squares(placement_text(squares, 7)) == Some(squares),
{
    let text = placement_text(squares, 7);
    lemma_read_prefix(text, text.len() as int);
    assert(text.take(text.len() as int) =~= text);
    assert(filled_to(squares, 7, 0) =~= placement_start().squares);
    lemma_read_ranks(squares, 7);
}

/// A text is free of spaces.
pub open spec fn spaceless(t: Seq<char>) -> bool {
    forall|i: int| 0 <= i < t.len() ==> #[trigger] t[i] != ' '
}

/// Joining texts without spaces gives a text without spaces.
proof fn lemma_spaceless_concat(a: Seq<char>, b: Seq<char>)
    requires
        spaceless(a),
        spaceless(b),
    ensures
        spaceless(a + b),
{
    assert forall|i: int| 0 <= i < (a + b).len() implies #[trigger] (a + b)[i] != ' ' by {
        if i < a.len() {
            assert((a + b)[i] == a[i]);
        } else {
            assert((a + b)[i] == b[i - a.len()]);
        }
    }
}

/// The writer puts no space in a rank.
proof fn lemma_rank_text_spaceless(squares: Seq<Option<Piece>>, rank: int, file: int, empty: int)
    requires
        0 <= empty <= 8,
        0 <= file <= 8,
        empty <= file,
    ensures
        spaceless(rank_text(squares, rank, file, empty)),
    decreases 8 - file,
{
    if empty > 0 {
        lemma_digit_reads_back(empty);
    }
    if file < 8 {
        match squares[rank * 8 + file] {
            None => {
                lemma_rank_text_spaceless(squares, rank, file + 1, empty + 1);
            },
            Some(piece) => {
                lemma_letter_reads_back(piece);
                lemma_rank_text_spaceless(squares, rank, file + 1, 0);
                lemma_spaceless_concat(run_text(empty), seq![letter_of_piece(piece)]);
                lemma_spaceless_concat(
                    run_text(empty) + seq![letter_of_piece(piece)],
                    rank_text(squares, rank, file + 1, 0),
                );
            },
        }
    }
}

/// The writer puts no space in the placement field.
proof fn lemma_placement_text_spaceless(squares: Seq<Option<Piece>>, rank: int)
    requires
        0 <= rank < 8,
    ensures
        spaceless(placement_text(squares, rank)),
    decreases rank,
{
    lemma_rank_text_spaceless(squares, rank, 0, 0);
    if rank > 0 {
        lemma_placement_text_spaceless(squares, rank - 1);
        lemma_spaceless_concat(rank_text(squares, rank, 0, 0), seq!['/']);
        lemma_spaceless_concat(
            rank_text(squares, rank, 0, 0) + seq!['/'],
            placement_text(squares, rank - 1),
        );
    }
}

/// The value of the first `n` characters depends on those characters alone.
proof fn lemma_decimal_prefix(a: Seq<char>, b: Seq<char>, n: int)
    requires
        0 <= n <= a.len(),
        n <= b.len(),
        forall|i: int| 0 <= i < n ==> a[i] == b[i],
    ensures
        decimal_value(a, n) == decimal_value(b, n),
    decreases n,
{
    if n > 0 {
        lemma_decimal_prefix(a, b, n - 1);
    }
}

/// A number written in decimal is made of digits and spells the number.
pub proof fn lemma_decimal_text(n: nat)
    ensures
        decimal_text(n).len() > 0,
        forall|i: int|
            0 <= i < decimal_text(n).len() ==> 0 <= #[trigger] digit_value(decimal_text(n)[i]),
        decimal_value(decimal_text(n), decimal_text(n).len() as int) == n,
        spaceless(decimal_text(n)),
        decimal_text(n) != seq!['-'],
    decreases n,
{
    let t = decimal_text(n);
    if n < 10 {
        lemma_digit_reads_back(n as int);
        assert(t.len() == 1);
        assert(decimal_value(t, 0) == 0);
        assert(decimal_value(t, 1) == decimal_value(t, 0) * 10 + digit_value(t[0]));
        assert(t[0] != '-');
    } else {
        let head = decimal_text(n / 10);
        lemma_decimal_text(n / 10);
        lemma_digit_reads_back((n % 10) as int);
        assert(t == head + seq![digit_char((n % 10) as int)]);
        assert forall|i: int| 0 <= i < t.len() implies 0 <= #[trigger] digit_value(t[i]) by {
            if i < head.len() {
                assert(t[i] == head[i]);
            }
        }
        lemma_decimal_prefix(t, head, head.len() as int);
        assert(t[t.len() - 1] == digit_char((n % 10) as int));
        assert(decimal_value(t, t.len() as int) == decimal_value(t, t.len() - 1) * 10
            + digit_value(t[t.len() - 1]));
        lemma_spaceless_concat(head, seq![digit_char((n % 10) as int)]);
        assert(t.len() >= 2);
    }
}

/// A clock written in decimal reads back as the same number.
pub proof fn lemma_number_round_trip(n: u32)
    ensures
        number_of_field(decimal_text(n as nat)) == Some(n),
{
    lemma_decimal_text(n as nat);
}

/// The side to move reads back as written.
pub proof fn lemma_color_round_trip(color: Color)
    ensures
        color_of_field(color_text(color)) == Some(color),
        spaceless(color_text(color)),
{
    assert(seq!['w'][0] == 'w');
    assert(seq!['b'][0] == 'b');
    if seq!['b'] == seq!['w'] {
        assert(seq!['b'][0] == seq!['w'][0]);
    }
}

/// The letter of a right, if the right is there.
spec fn right_text(present: bool, letter: char) -> Seq<char> {
    if present {
        seq![letter]
    } else {
        Seq::empty()
    }
}

proof fn lemma_rights_bits(rights: u8)
    by (bit_vector)
    requires
        rights < 16,
    ensures
        rights != 0 ==> (rights & 1 != 0 || rights & 2 != 0 || rights & 4 != 0 || rights & 8 != 0),
        (if rights & 1 != 0 {
            1u8
        } else {
            0u8
        }) | (if rights & 2 != 0 {
            2u8
        } else {
            0u8
        }) | (if rights & 4 != 0 {
            4u8
        } else {
            0u8
        }) | (if rights & 8 != 0 {
            8u8
        } else {
            0u8
        }) == rights,
{
}

/// The castling rights read back as written.
pub proof fn lemma_castling_round_trip(rights: u8)
    requires
        rights < 16,
    ensures
        castling_of_field(castling_text(rights)) == Some(rights),
        spaceless(castling_text(rights)),
{
    let t = castling_text(rights);
    lemma_rights_bits(rights);
    if rights == 0 {
        assert(seq!['-'][0] == '-');
    } else {
        let a = right_text(rights & 1 != 0, 'K');
        let b = right_text(rights & 2 != 0, 'Q');
        let c = right_text(rights & 4 != 0, 'k');
        let d = right_text(rights & 8 != 0, 'q');
        assert(t == a + b + c + d);
        assert(t.len() == a.len() + b.len() + c.len() + d.len());
        assert forall|i: int| 0 <= i < t.len() implies is_castling_letter(#[trigger] t[i]) by {
            if i < a.len() {
                assert(t[i] == a[i]);
            } else if i < a.len() + b.len() {
                assert(t[i] == b[i - a.len()]);
            } else if i < a.len() + b.len() + c.len() {
                assert(t[i] == c[i - a.len() - b.len()]);
            } else {
                assert(t[i] == d[i - a.len() - b.len() - c.len()]);
            }
        }
        assert forall|x: char| is_castling_letter(x) implies t.contains(x) == ((x == 'K' && rights
            & 1 != 0) || (x == 'Q' && rights & 2 != 0) || (x == 'k' && rights & 4 != 0) || (x
            == 'q' && rights & 8 != 0)) by {
            if t.contains(x) {
                let i = choose|i: int| 0 <= i < t.len() && t[i] == x;
                if i < a.len() {
                    assert(t[i] == a[i]);
                } else if i < a.len() + b.len() {
                    assert(t[i] == b[i - a.len()]);
                } else if i < a.len() + b.len() + c.len() {
                    assert(t[i] == c[i - a.len() - b.len()]);
                } else {
                    assert(t[i] == d[i - a.len() - b.len() - c.len()]);
                }
            }
            if x == 'K' && rights & 1 != 0 {
                assert(t[0] == 'K');
            }
            if x == 'Q' && rights & 2 != 0 {
                assert(t[a.len() as int] == 'Q');
            }
            if x == 'k' && rights & 4 != 0 {
                assert(t[(a.len() + b.len()) as int] == 'k');
            }
            if x == 'q' && rights & 8 != 0 {
                assert(t[(a.len() + b.len() + c.len()) as int] == 'q');
            }
        }
        assert(is_castling_letter('K') && is_castling_letter('Q') && is_castling_letter('k')
            && is_castling_letter('q'));
        if t == seq!['-'] {
            assert(t[0] == '-');
            assert(is_castling_letter(t[0]));
        }
        assert forall|i: int| 0 <= i < t.len() implies #[trigger] t[i] != ' ' by {
            assert(is_castling_letter(t[i]));
        }
    }
}

/// The en-passant target reads back as written.
pub proof fn lemma_en_passant_round_trip(target: Option<u8>)
    requires
        target.is_some() ==> target.unwrap() < 64,
    ensures
        en_passant_of_field(en_passant_text(target)) == Some(target),
        spaceless(en_passant_text(target)),
{
    let t = en_passant_text(target);
    match target {
        None => {
            assert(seq!['-'][0] == '-');
        },
        Some(sq) => {
            let file = sq as int % 8;
            let rank = sq as int / 8;
            assert(decimal_text((rank + 1) as nat) == seq![digit_char(rank + 1)]);
            assert(t =~= seq![file_letter(file), digit_char(rank + 1)]);
            assert(t.len() == 2);
            assert(t[0] == file_letter(file));
            assert(t[1] == digit_char(rank + 1));
            assert(square_named(t[0], t[1]) == Some(sq));
            if t == seq!['-'] {
                assert(seq!['-'].len() == 1);
            }
        },
    }
}

/// A stretch of a text without a space, with a space or the end of the text
/// behind it, is a field.
proof fn lemma_field_at(s: Seq<char>, i: int, e: int)
    requires
        0 <= i <= e <= s.len(),
        forall|j: int| i <= j < e ==> #[trigger] s[j] != ' ',
        e == s.len() || s[e] == ' ',
    ensures
        field_end(s, i) == e,
    decreases e - i,
{
    if i < e {
        lemma_field_at(s, i + 1, e);
    }
}

/// The text `s` starts with the text `q`.
pub open spec fn starts_with(s: Seq<char>, q: Seq<char>) -> bool {
    q.len() <= s.len() && forall|i: int| 0 <= i < q.len() ==> #[trigger] s[i] == q[i]
}

/// The first field of a text that starts with a stretch without a space and
/// goes on with a space.
proof fn lemma_first_field(s: Seq<char>, f: Seq<char>)
    requires
        starts_with(s, f),
        spaceless(f),
        f.len() < s.len(),
        s[f.len() as int] == ' ',
    ensures
        field_end(s, 0) == f.len(),
        s.subrange(0, f.len() as int) == f,
{
    assert forall|j: int| 0 <= j < f.len() implies #[trigger] s[j] != ' ' by {
        assert(s[j] == f[j]);
    }
    lemma_field_at(s, 0, f.len() as int);
    assert(s.subrange(0, f.len() as int) =~= f);
}

/// A later field: where a text starts with `q`, which is `p`, a space and a
/// stretch `f` without a space, and ends there or goes on with a space, `f` is
/// the field behind `p`, and the text starts with `p` and goes on with a space.
proof fn lemma_next_field(s: Seq<char>, p: Seq<char>, f: Seq<char>, q: Seq<char>)
    requires
        q == p + seq![' '] + f,
        starts_with(s, q),
        spaceless(f),
        q.len() == s.len() || s[q.len() as int] == ' ',
    ensures
        field_end(s, (p.len() + 1) as int) == q.len(),
        s.subrange((p.len() + 1) as int, q.len() as int) == f,
        starts_with(s, p),
        p.len() < s.len(),
        s[p.len() as int] == ' ',
        q.len() == p.len() + 1 + f.len(),
{
    let i = (p.len() + 1) as int;
    assert forall|j: int| i <= j < q.len() implies #[trigger] s[j] != ' ' by {
        assert(s[j] == q[j]);
        assert(q[j] == f[j - i]);
    }
    lemma_field_at(s, i, q.len() as int);
    assert(s.subrange(i, q.len() as int) =~= f) by {
        assert forall|j: int| 0 <= j < f.len() implies s[i + j] == f[j] by {
            assert(s[i + j] == q[i + j]);
        }
    }
    assert forall|j: int| 0 <= j < p.len() implies #[trigger] s[j] == p[j] by {
        assert(s[j] == q[j]);
    }
    assert(s[p.len() as int] == q[p.len() as int]);
}

/// What the values of a position must meet for the position to have a text
/// that reads back: 64 squares, castling rights within their four bits, an
/// en-passant target on the board, and a fullmove number of at least 1.
pub open spec fn writable(p: Position) -> bool {
    &&& p.squares.len() == 64
    &&& p.castling_rights < 16
    &&& (p.en_passant.is_some() ==> p.en_passant.unwrap() < 64)
    &&& p.fullmove_number >= 1
}

/// Writing a position as text and reading the text gives the position back.
pub proof fn lemma_fen_round_trip(p: Position)
    requires
        writable(p),
    ensures
        parse_fen(render_fen(p)) == Some(p),
{
    let sp = seq![' '];
    let f0 = placement_text(p.squares, 7);
    let f1 = color_text(p.active_color);
    let f2 = castling_text(p.castling_rights);
    let f3 = en_passant_text(p.en_passant);
    let f4 = decimal_text(p.halfmove_clock as nat);
    let f5 = decimal_text(p.fullmove_number as nat);
    let s = render_fen(p);
    lemma_placement_text_spaceless(p.squares, 7);
    lemma_placement_round_trip(p.squares);
    lemma_color_round_trip(p.active_color);
    lemma_castling_round_trip(p.castling_rights);
    lemma_en_passant_round_trip(p.en_passant);
    lemma_decimal_text(p.halfmove_clock as nat);
    lemma_decimal_text(p.fullmove_number as nat);
    lemma_number_round_trip(p.halfmove_clock);
    lemma_number_round_trip(p.fullmove_number);

    let t0 = f0;
    let t1 = t0 + sp + f1;
    let t2 = t1 + sp + f2;
    let t3 = t2 + sp + f3;
    let t4 = t3 + sp + f4;
    let t5 = t4 + sp + f5;
    assert(s == t5);
    assert(starts_with(s, t5));
    lemma_next_field(s, t4, f5, t5);
    lemma_next_field(s, t3, f4, t4);
    lemma_next_field(s, t2, f3, t3);
    lemma_next_field(s, t1, f2, t2);
    lemma_next_field(s, t0, f1, t1);
    lemma_first_field(s, f0);
    lemma_fields_found(s, f0, f1, f2, f3, f4, f5);
}

/// Six fields found one behind the other are the six fields of the text.
proof fn lemma_fields_found(
    s: Seq<char>,
    f0: Seq<char>,
    f1: Seq<char>,
    f2: Seq<char>,
    f3: Seq<char>,
    f4: Seq<char>,
    f5: Seq<char>,
)
    requires
        ({
            let e0 = f0.len() as int;
            let e1 = e0 + 1 + f1.len();
            let e2 = e1 + 1 + f2.len();
            let e3 = e2 + 1 + f3.len();
            let e4 = e3 + 1 + f4.len();
            let e5 = e4 + 1 + f5.len();
            &&& e5 == s.len()
            &&& field_end(s, 0) == e0
            &&& field_end(s, e0 + 1) == e1
            &&& field_end(s, e1 + 1) == e2
            &&& field_end(s, e2 + 1) == e3
            &&& field_end(s, e3 + 1) == e4
            &&& field_end(s, e4 + 1) == e5
            &&& s.subrange(0, e0) == f0
            &&& s.subrange(e0 + 1, e1) == f1
            &&& s.subrange(e1 + 1, e2) == f2
            &&& s.subrange(e2 + 1, e3) == f3
            &&& s.subrange(e3 + 1, e4) == f4
            &&& s.subrange(e4 + 1, e5) == f5
        }),
    ensures
        fen_fields(s) == Some(seq![f0, f1, f2, f3, f4, f5]),
{
    let e0 = f0.len() as int;
    let e1 = e0 + 1 + f1.len();
    let e2 = e1 + 1 + f2.len();
    let e3 = e2 + 1 + f3.len();
    let e4 = e3 + 1 + f4.len();
    let e5 = e4 + 1 + f5.len();
    assert(seq![
        s.subrange(0, e0),
        s.subrange(e0 + 1, e1),
        s.subrange(e1 + 1, e2),
        s.subrange(e2 + 1, e3),
        s.subrange(e3 + 1, e4),
        s.subrange(e4 + 1, e5),
    ] =~= seq![f0, f1, f2, f3, f4, f5]);
}

/// The text of a consistent position with a fullmove number of at least 1
/// reads back as that position, and writing what was read gives the same text
/// again.
pub proof fn lemma_board_round_trip(board: Board)
    requires
        board.wf(),
        board.fullmove_number >= 1,
    ensures
        parse_fen(render_fen(board@)) == Some(board@),
        render_fen(parse_fen(render_fen(board@)).unwrap()) == render_fen(board@),
{
    lemma_fen_round_trip(board@);
}

/// What a text reads as can be written.
pub proof fn lemma_parsed_is_writable(s: Seq<char>)
    requires
        parse_fen(s).is_some(),
    ensures
        writable(parse_fen(s).unwrap()),
{
    let f = fen_fields(s).unwrap();
    lemma_placement_length(f[0]);
    let t = f[2];
    lemma_rights_fit(
        if t.contains('K') {
            1u8
        } else {
            0u8
        },
        if t.contains('Q') {
            2u8
        } else {
            0u8
        },
        if t.contains('k') {
            4u8
        } else {
            0u8
        },
        if t.contains('q') {
            8u8
        } else {
            0u8
        },
    );
}

/// Reading a text, writing what was read and reading that again gives the same
/// position: the text that the writer gives for a position is that position's
/// one spelling among the texts the reader takes.
pub proof fn lemma_text_round_trip(s: Seq<char>)
    requires
        parse_fen(s).is_some(),
    ensures
        parse_fen(render_fen(parse_fen(s).unwrap())) == parse_fen(s),
{
    lemma_parsed_is_writable(s);
    lemma_fen_round_trip(parse_fen(s).unwrap());
}

} // verus!
