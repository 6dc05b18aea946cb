//! The notation encoder: serializes a board plus a side-to-move flag into
//! the standard position string, with run-length compression of empty
//! squares, and a decoder for the piece-placement field.
//!
//! Castling rights are always reported as fully available, the en-passant
//! target as absent and both clocks as zero: the source markup exposes no
//! move history, so those fields cannot be reproduced faithfully.

use vstd::prelude::*;
use vstd::arithmetic::div_mod::{
    lemma_mod_multiples_basic, lemma_mod_multiples_vanish, lemma_small_mod,
};
use crate::board::{Board, piece_letter, valid_code};
use crate::parse::chars_of;

verus! {

/// The decimal digit character for an empty-square run of length 1..=8.
pub open spec fn run_digit(n: int) -> char {
    if n == 1 {
        '1'
    } else if n == 2 {
        '2'
    } else if n == 3 {
        '3'
    } else if n == 4 {
        '4'
    } else if n == 5 {
        '5'
    } else if n == 6 {
        '6'
    } else if n == 7 {
        '7'
    } else {
        '8'
    }
}

/// The flushed form of a pending empty-square run: nothing for an empty
/// run, one digit otherwise.
pub open spec fn run_flush(e: int) -> Seq<char> {
    if e > 0 {
        seq![run_digit(e)]
    } else {
        Seq::<char>::empty()
    }
}

/// Notation for the cells of row `row` from column `j` on, with `e` empty
/// squares already pending before column `j`.
pub open spec fn spec_row_tail(s: Seq<u8>, row: int, j: int, e: int) -> Seq<char>
    decreases 8 - j,
{
    if j >= 8 {
        run_flush(e)
    } else {
        let code = s[row * 8 + j];
        if code == 0 {
            spec_row_tail(s, row, j + 1, e + 1)
        } else {
            run_flush(e) + seq![piece_letter(code)] + spec_row_tail(s, row, j + 1, 0)
        }
    }
}

/// Notation for one whole row.
pub open spec fn spec_row(s: Seq<u8>, row: int) -> Seq<char> {
    spec_row_tail(s, row, 0, 0)
}

/// Notation for the first `i` rows, separated by `/`.
pub open spec fn spec_rows_upto(s: Seq<u8>, i: int) -> Seq<char>
    decreases i,
{
    if i <= 0 {
        Seq::<char>::empty()
    } else if i == 1 {
        spec_row(s, 0)
    } else {
        spec_rows_upto(s, i - 1) + seq!['/'] + spec_row(s, i - 1)
    }
}

/// The piece-placement field: all eight rows, top row first.
pub open spec fn spec_placement(s: Seq<u8>) -> Seq<char> {
    spec_rows_upto(s, 8)
}

/// The full notation string: the placement field, a space, the side-to-move
/// flag, and the fixed suffix for the untracked castling, en-passant and
/// clock fields.
pub open spec fn spec_fen(s: Seq<u8>, mode: Seq<char>) -> Seq<char> {
    spec_placement(s) + seq![' '] + mode + " KQkq - 0 1"@
}

/// The square code named by a notation letter, if any.
pub open spec fn spec_letter_code(ch: char) -> Option<u8> {
    if ch == 'K' {
        Some(9u8)
    } else if ch == 'Q' {
        Some(10u8)
    } else if ch == 'R' {
        Some(11u8)
    } else if ch == 'B' {
        Some(12u8)
    } else if ch == 'N' {
        Some(13u8)
    } else if ch == 'P' {
        Some(14u8)
    } else if ch == 'k' {
        Some(17u8)
    } else if ch == 'q' {
        Some(18u8)
    } else if ch == 'r' {
        Some(19u8)
    } else if ch == 'b' {
        Some(20u8)
    } else if ch == 'n' {
        Some(21u8)
    } else if ch == 'p' {
        Some(22u8)
    } else {
        None
    }
}

/// Whether a character is an empty-square run digit `1`..`8`.
pub open spec fn is_run_digit(ch: char) -> bool {
    ch == '1' || ch == '2' || ch == '3' || ch == '4' || ch == '5' || ch == '6' || ch == '7'
        || ch == '8'
}

/// The numeric value of a run digit.
pub open spec fn spec_digit_val(ch: char) -> int {
    if ch == '1' {
        1
    } else if ch == '2' {
        2
    } else if ch == '3' {
        3
    } else if ch == '4' {
        4
    } else if ch == '5' {
        5
    } else if ch == '6' {
        6
    } else if ch == '7' {
        7
    } else if ch == '8' {
        8
    } else {
        0
    }
}

/// A run of `n` empty squares.
pub open spec fn zeros(n: int) -> Seq<u8> {
    Seq::new(n as nat, |i: int| 0u8)
}

/// Decodes the rest of a piece-placement field, the squares before it
/// already collected in `cells`. A row separator is accepted exactly at a
/// row boundary, and a run digit never past the end of its row.
pub open spec fn spec_decode_tail(t: Seq<char>, cells: Seq<u8>) -> Option<Seq<u8>>
    decreases t.len(),
{
    if t.len() == 0 {
        if cells.len() == 64 {
            Some(cells)
        } else {
            None
        }
    } else {
        let ch = t[0];
        let rest = t.drop_first();
        if ch == '/' {
            if 0 < cells.len() < 64 && cells.len() % 8 == 0 {
                spec_decode_tail(rest, cells)
            } else {
                None
            }
        } else if is_run_digit(ch) {
            if cells.len() % 8 + spec_digit_val(ch) <= 8 && cells.len() + spec_digit_val(ch)
                <= 64 {
                spec_decode_tail(rest, cells + zeros(spec_digit_val(ch)))
            } else {
                None
            }
        } else {
            match spec_letter_code(ch) {
                Some(code) => if cells.len() < 64 {
                    spec_decode_tail(rest, cells.push(code))
                } else {
                    None
                },
                None => None,
            }
        }
    }
}

/// Decodes a whole piece-placement field into the 64 square codes it
/// describes, if it is well formed.
pub open spec fn spec_decode_placement(t: Seq<char>) -> Option<Seq<u8>> {
    spec_decode_tail(t, Seq::<u8>::empty())
}

/// Appends the digit for an empty-square run to the output string.
fn push_run_digit(out: &mut String, e: u8)
    requires
        1 <= e <= 8,
    ensures
        final(out)@ == old(out)@ + seq![run_digit(e as int)],
{
    let d: &str = if e == 1 {
        "1"
    } else if e == 2 {
        "2"
    } else if e == 3 {
        "3"
    } else if e == 4 {
        "4"
    } else if e == 5 {
        "5"
    } else if e == 6 {
        "6"
    } else if e == 7 {
        "7"
    } else {
        "8"
    };
    proof {
        reveal_strlit("1");
        reveal_strlit("2");
        reveal_strlit("3");
        reveal_strlit("4");
        reveal_strlit("5");
        reveal_strlit("6");
        reveal_strlit("7");
        reveal_strlit("8");
        assert(d@ =~= seq![run_digit(e as int)]);
    }
    out.append(d);
}

/// Serializes a board and a side-to-move flag into the standard notation
/// string.
pub fn encode_to_fen(board: &Board, mode: &str) -> (r: String)
    requires
        board.wf(),
        mode@ == "w"@ || mode@ == "b"@,
    ensures
        r@ == spec_fen(board.squares@, mode@),
{
    let ghost s = board.squares@;
    let mut fen = String::new();
    let mut i: usize = 0;
    while i < 8
        invariant
            board.wf(),
            s == board.squares@,
            i <= 8,
            fen@ == spec_rows_upto(s, i as int),
        decreases 8 - i,
    {
        if i > 0 {
            proof {
                reveal_strlit("/");
            }
            fen.append("/");
            proof {
                assert(fen@ =~= spec_rows_upto(s, i as int) + seq!['/']);
            }
        }
        let ghost base = fen@;
        let mut empty: u8 = 0;
        let mut j: usize = 0;
        while j < 8
            invariant
                board.wf(),
                s == board.squares@,
                i < 8,
                j <= 8,
                empty as int <= j as int,
                fen@ + spec_row_tail(s, i as int, j as int, empty as int) == base + spec_row(
                    s,
                    i as int,
                ),
            decreases 8 - j,
        {
            let code = board.at(i, j);
            if code == 0 {
                empty = empty + 1;
            } else {
                if empty > 0 {
                    push_run_digit(&mut fen, empty);
                    empty = 0;
                }
                let letter = crate::board::get_piece_type(code);
                fen.append(letter.as_str());
                proof {
                    assert(fen@ + spec_row_tail(s, i as int, j as int + 1, 0) =~= base
                        + spec_row(s, i as int));
                }
            }
            j = j + 1;
        }
        if empty > 0 {
            push_run_digit(&mut fen, empty);
        }
        proof {
            assert(spec_row_tail(s, i as int, 8, empty as int) == run_flush(empty as int));
            assert(fen@ =~= base + spec_row(s, i as int));
            assert(fen@ =~= spec_rows_upto(s, i as int + 1));
        }
        i = i + 1;
    }
    proof {
        reveal_strlit(" ");
    }
    fen.append(" ");
    fen.append(mode);
    fen.append(" KQkq - 0 1");
    proof {
        assert(" "@ =~= seq![' ']);
        assert(fen@ =~= spec_fen(s, mode@));
    }
    fen
}

/// The value of an empty-square run digit, 0 on any other character.
fn run_digit_value(ch: char) -> (r: u8)
    ensures
        is_run_digit(ch) ==> r == spec_digit_val(ch),
        !is_run_digit(ch) ==> r == 0,
{
    match ch {
        '1' => 1u8,
        '2' => 2u8,
        '3' => 3u8,
        '4' => 4u8,
        '5' => 5u8,
        '6' => 6u8,
        '7' => 7u8,
        '8' => 8u8,
        _ => 0u8,
    }
}

/// The side-to-move flag that belongs to a perspective: the subject's
/// side, `w` when the light side is at the bottom and `b` otherwise.
pub fn side_to_move(p: crate::board::Perspective) -> (r: &'static str)
    ensures
        p == crate::board::Perspective::LightAtBottom ==> r@ == "w"@,
        p == crate::board::Perspective::DarkAtBottom ==> r@ == "b"@,
{
    match p {
        crate::board::Perspective::LightAtBottom => "w",
        crate::board::Perspective::DarkAtBottom => "b",
    }
}

/// The square code named by a notation letter.
fn letter_code(ch: char) -> (r: Option<u8>)
    ensures
        r == spec_letter_code(ch),
        r matches Some(code) ==> valid_code(code) && code != 0,
{
    match ch {
        'K' => Some(9u8),
        'Q' => Some(10u8),
        'R' => Some(11u8),
        'B' => Some(12u8),
        'N' => Some(13u8),
        'P' => Some(14u8),
        'k' => Some(17u8),
        'q' => Some(18u8),
        'r' => Some(19u8),
        'b' => Some(20u8),
        'n' => Some(21u8),
        'p' => Some(22u8),
        _ => None,
    }
}

/// Decodes a piece-placement field back into a board.
pub fn decode_placement(s: &str) -> (r: Option<Board>)
    ensures
        spec_decode_placement(s@) matches Some(cells) ==> r matches Some(b) && b.wf()
            && b.squares@ == cells,
        spec_decode_placement(s@) is None ==> r is None,
{
    let chars = chars_of(s);
    let n = chars.len();
    let mut cells: Vec<u8> = Vec::new();
    let mut idx: usize = 0;
    proof {
        assert(s@.subrange(0, n as int) =~= s@);
    }
    while idx < n
        invariant
            chars@ == s@,
            n == chars@.len(),
            idx <= n,
            cells@.len() <= 64,
            forall|i: int| 0 <= i < cells@.len() ==> valid_code(#[trigger] cells@[i]),
            spec_decode_placement(s@) == spec_decode_tail(
                s@.subrange(idx as int, n as int),
                cells@,
            ),
        decreases n - idx,
    {
        let ghost t = s@.subrange(idx as int, n as int);
        proof {
            assert(t[0] == s@[idx as int]);
            assert(t.drop_first() =~= s@.subrange(idx as int + 1, n as int));
        }
        let ch = chars[idx];
        if ch == '/' {
            if !(0 < cells.len() && cells.len() < 64 && cells.len() % 8 == 0) {
                return None;
            }
            proof {
                assert(spec_decode_tail(t, cells@) == spec_decode_tail(t.drop_first(), cells@));
            }
        } else if run_digit_value(ch) > 0 {
            let d = run_digit_value(ch) as usize;
            if cells.len() % 8 + d <= 8 && cells.len() + d <= 64 {
                let ghost before = cells@;
                proof {
                    assert(is_run_digit(t[0]));
                    assert(spec_digit_val(t[0]) == d as int);
                    assert(cells@ =~= before + zeros(0));
                }
                let mut added: usize = 0;
                while added < d
                    invariant
                        added <= d,
                        d <= 8,
                        before.len() + d <= 64,
                        cells@ == before + zeros(added as int),
                    decreases d - added,
                {
                    cells.push(0u8);
                    proof {
                        assert(cells@ =~= before + zeros(added as int + 1));
                    }
                    added = added + 1;
                }
                proof {
                    assert(forall|i: int|
                        0 <= i < cells@.len() ==> valid_code(#[trigger] cells@[i]));
                    assert(spec_decode_tail(t, before) == spec_decode_tail(
                        t.drop_first(),
                        before + zeros(spec_digit_val(t[0])),
                    ));
                    assert(cells@ == before + zeros(spec_digit_val(t[0])));
                }
            } else {
                return None;
            }
        } else {
            match letter_code(ch) {
                Some(code) => {
                    if cells.len() < 64 {
                        let ghost before = cells@;
                        cells.push(code);
                        proof {
                            assert(spec_decode_tail(t, before) == spec_decode_tail(
                                t.drop_first(),
                                before.push(code),
                            ));
                        }
                    } else {
                        return None;
                    }
                },
                None => {
                    return None;
                },
            }
        }
        idx = idx + 1;
    }
    proof {
        assert(s@.subrange(n as int, n as int) =~= Seq::<char>::empty());
    }
    if cells.len() == 64 {
        Some(Board { squares: cells })
    } else {
        None
    }
}

/// A notation letter decodes back to the square code it encodes.
proof fn lemma_letter_code_inverse(code: u8)
    requires
        valid_code(code),
        code != 0,
    ensures
        spec_letter_code(piece_letter(code)) == Some(code),
        spec_letter_code(piece_letter(code)) is Some,
        piece_letter(code) != '/',
        !is_run_digit(piece_letter(code)),
{
    assert(code == 8 * (code / 8) + code % 8);
}

/// Decoding consumes a notation letter by appending its square code.
proof fn lemma_decode_letter_step(code: u8, rest: Seq<char>, cells: Seq<u8>)
    requires
        valid_code(code),
        code != 0,
        cells.len() < 64,
    ensures
        spec_decode_tail(seq![piece_letter(code)] + rest, cells) == spec_decode_tail(
            rest,
            cells.push(code),
        ),
{
    let t = seq![piece_letter(code)] + rest;
    assert(t[0] == piece_letter(code));
    assert(t.drop_first() =~= rest);
    lemma_letter_code_inverse(code);
}

/// Decoding consumes a run digit by appending that many empty squares.
proof fn lemma_decode_digit_step(e: int, rest: Seq<char>, cells: Seq<u8>)
    requires
        1 <= e <= 8,
        cells.len() % 8 + e <= 8,
        cells.len() + e <= 64,
    ensures
        spec_decode_tail(seq![run_digit(e)] + rest, cells) == spec_decode_tail(
            rest,
            cells + zeros(e),
        ),
{
    let t = seq![run_digit(e)] + rest;
    assert(t[0] == run_digit(e));
    assert(t.drop_first() =~= rest);
    assert(is_run_digit(run_digit(e)) && spec_digit_val(run_digit(e)) == e);
    assert(run_digit(e) != '/');
}

/// Decoding consumes a row separator at a row boundary without changing
/// the collected squares.
proof fn lemma_decode_slash_step(rest: Seq<char>, cells: Seq<u8>)
    requires
        0 < cells.len() < 64,
        cells.len() % 8 == 0,
    ensures
        spec_decode_tail(seq!['/'] + rest, cells) == spec_decode_tail(rest, cells),
{
    let t = seq!['/'] + rest;
    assert(t[0] == '/');
    assert(t.drop_first() =~= rest);
}

/// Decoding one encoded row appends exactly that row's squares.
proof fn lemma_decode_row(s: Seq<u8>, row: int, j: int, e: int, cells: Seq<u8>, rest: Seq<char>)
    requires
        s.len() == 64,
        forall|i: int| 0 <= i < 64 ==> valid_code(#[trigger] s[i]),
        0 <= row < 8,
        0 <= e <= j <= 8,
        cells.len() == row * 8 + j - e,
        forall|k: int| row * 8 + j - e <= k < row * 8 + j ==> #[trigger] s[k] == 0,
    ensures
        spec_decode_tail(spec_row_tail(s, row, j, e) + rest, cells) == spec_decode_tail(
            rest,
            cells + s.subrange(row * 8 + j - e, row * 8 + 8),
        ),
    decreases 8 - j,
{
    if j >= 8 {
        if e == 0 {
            assert(spec_row_tail(s, row, 8, 0) + rest =~= rest);
            assert(cells + s.subrange(row * 8 + 8, row * 8 + 8) =~= cells);
        } else {
            assert(run_flush(e) + rest =~= seq![run_digit(e)] + rest);
            lemma_mod_multiples_vanish(row + 1, -e, 8);
            lemma_mod_multiples_vanish(row, 8 - e, 8);
            lemma_small_mod((8 - e) as nat, 8);
            lemma_decode_digit_step(e, rest, cells);
            assert(cells + zeros(e) =~= cells + s.subrange(row * 8 + 8 - e, row * 8 + 8));
        }
    } else {
        let code = s[row * 8 + j];
        if code == 0 {
            lemma_decode_row(s, row, j + 1, e + 1, cells, rest);
        } else {
            let tail1 = spec_row_tail(s, row, j + 1, 0);
            let cells1 = cells + s.subrange(row * 8 + j - e, row * 8 + j);
            if e > 0 {
                assert(spec_row_tail(s, row, j, e) + rest =~= seq![run_digit(e)] + (seq![
                    piece_letter(code),
                ] + tail1 + rest));
                lemma_mod_multiples_vanish(row, j - e, 8);
                lemma_small_mod((j - e) as nat, 8);
                lemma_decode_digit_step(e, seq![piece_letter(code)] + tail1 + rest, cells);
                assert(cells + zeros(e) =~= cells1);
            } else {
                assert(spec_row_tail(s, row, j, e) + rest =~= seq![piece_letter(code)] + (tail1
                    + rest));
                assert(cells1 =~= cells);
            }
            assert(seq![piece_letter(code)] + tail1 + rest =~= seq![piece_letter(code)] + (tail1
                + rest));
            lemma_decode_letter_step(code, tail1 + rest, cells1);
            let cells2 = cells1.push(code);
            assert(cells2.len() == row * 8 + j + 1);
            lemma_decode_row(s, row, j + 1, 0, cells2, rest);
            assert(cells2 + s.subrange(row * 8 + j + 1, row * 8 + 8) =~= cells + s.subrange(
                row * 8 + j - e,
                row * 8 + 8,
            ));
        }
    }
}

/// The rows of the placement field from row `i` on, separated by `/`.
pub open spec fn spec_rows_from(s: Seq<u8>, i: int) -> Seq<char>
    decreases 8 - i,
{
    if i < 0 || i >= 8 {
        Seq::<char>::empty()
    } else if i == 7 {
        spec_row(s, 7)
    } else {
        spec_row(s, i) + seq!['/'] + spec_rows_from(s, i + 1)
    }
}

/// The forward and backward builds of the placement field agree.
proof fn lemma_rows_upto_from(s: Seq<u8>, k: int)
    requires
        1 <= k <= 7,
    ensures
        spec_rows_upto(s, 8) == spec_rows_upto(s, k) + seq!['/'] + spec_rows_from(s, k),
    decreases 8 - k,
{
    if k == 7 {
    } else {
        lemma_rows_upto_from(s, k + 1);
        assert(spec_rows_upto(s, k) + seq!['/'] + spec_rows_from(s, k) =~= spec_rows_upto(
            s,
            k + 1,
        ) + seq!['/'] + spec_rows_from(s, k + 1));
    }
}

/// The placement field is the forward build of all eight rows.
proof fn lemma_placement_is_rows_from(s: Seq<u8>)
    ensures
        spec_placement(s) == spec_rows_from(s, 0),
{
    lemma_rows_upto_from(s, 1);
    assert(spec_rows_from(s, 0) =~= spec_rows_upto(s, 1) + seq!['/'] + spec_rows_from(s, 1));
}

/// Decoding the encoded rows from `i` on extends the collected squares to
/// the whole board.
proof fn lemma_decode_rows(s: Seq<u8>, i: int, rest: Seq<char>)
    requires
        s.len() == 64,
        forall|k: int| 0 <= k < 64 ==> valid_code(#[trigger] s[k]),
        0 <= i < 8,
    ensures
        spec_decode_tail(spec_rows_from(s, i) + rest, s.subrange(0, i * 8)) == spec_decode_tail(
            rest,
            s.subrange(0, 64),
        ),
    decreases 8 - i,
{
    let cells = s.subrange(0, i * 8);
    if i == 7 {
        lemma_decode_row(s, 7, 0, 0, cells, rest);
        assert(cells + s.subrange(56, 64) =~= s.subrange(0, 64));
    } else {
        lemma_decode_row(s, i, 0, 0, cells, seq!['/'] + spec_rows_from(s, i + 1) + rest);
        assert(spec_rows_from(s, i) + rest =~= spec_row(s, i) + (seq!['/'] + spec_rows_from(
            s,
            i + 1,
        ) + rest));
        let cells1 = cells + s.subrange(i * 8, i * 8 + 8);
        assert(cells1 =~= s.subrange(0, (i + 1) * 8));
        lemma_mod_multiples_basic(i + 1, 8);
        lemma_decode_slash_step(spec_rows_from(s, i + 1) + rest, s.subrange(0, (i + 1) * 8));
        assert(seq!['/'] + spec_rows_from(s, i + 1) + rest =~= seq!['/'] + (spec_rows_from(
            s,
            i + 1,
        ) + rest));
        lemma_decode_rows(s, i + 1, rest);
    }
}

/// Round trip: encoding a well-formed board and decoding the resulting
/// placement field reproduces the same 64 square codes, and with them the
/// same multiset of (cell, color, kind) triples.
pub proof fn lemma_placement_round_trip(s: Seq<u8>)
    requires
        s.len() == 64,
        forall|i: int| 0 <= i < 64 ==> valid_code(#[trigger] s[i]),
    ensures
        spec_decode_placement(spec_placement(s)) == Some(s),
{
    lemma_placement_is_rows_from(s);
    lemma_decode_rows(s, 0, Seq::<char>::empty());
    assert(spec_rows_from(s, 0) + Seq::<char>::empty() =~= spec_placement(s));
    assert(s.subrange(0, 0) =~= Seq::<u8>::empty());
    assert(s.subrange(0, 64) =~= s);
}

} // verus!
