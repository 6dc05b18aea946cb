//! Reading the evaluation engine's best-move reply: the reply text is
//! split on whitespace, a leading `bestmove` word is dropped, and the
//! first remaining token's first four characters name the move's from-
//! and to-squares.

use vstd::prelude::*;
use crate::coords::{algebraic_to_cell, spec_algebraic_to_cell};
use crate::error::Error;
use crate::parse::{chars_of, spec_tokens, split_tokens, vec_eq};

verus! {

/// The whitespace-separated tokens of an engine reply, a leading
/// `bestmove` word dropped.
pub open spec fn spec_reply_tokens(reply: Seq<char>) -> Seq<Seq<char>> {
    let toks = spec_tokens(reply);
    if toks.len() > 0 && toks[0] == "bestmove"@ {
        toks.drop_first()
    } else {
        toks
    }
}

/// The from- and to-cells named by an engine reply's best-move token, in
/// the bottom-based (row, col) axis: the token's first four characters
/// are file and rank of the from-square, then file and rank of the
/// to-square.
pub open spec fn spec_best_move_cells(reply: Seq<char>) -> Option<((u8, u8), (u8, u8))> {
    let toks = spec_reply_tokens(reply);
    if toks.len() == 0 || toks[0].len() < 4 {
        None
    } else {
        let t = toks[0];
        match (spec_algebraic_to_cell(t[0], t[1]), spec_algebraic_to_cell(t[2], t[3])) {
            (Some(f), Some(g)) => Some((f, g)),
            _ => None,
        }
    }
}

/// Parses an engine reply's best move into its from- and to-cells, both
/// bottom-based and not yet perspective-adjusted. A reply without a move
/// token, a short token, or a square name off the board is a data fault.
pub fn best_move_cells(reply: &str) -> (r: Result<((u8, u8), (u8, u8)), Error>)
    ensures
        spec_best_move_cells(reply@) matches Some(cells) ==> r == Ok::<
            ((u8, u8), (u8, u8)),
            Error,
        >(cells),
        spec_best_move_cells(reply@) is None ==> r == Err::<((u8, u8), (u8, u8)), Error>(
            Error::MalformedAttribute,
        ),
        r matches Ok(cells) ==> cells.0.0 < 8 && cells.0.1 < 8 && cells.1.0 < 8 && cells.1.1
            < 8,
{
    let chars = chars_of(reply);
    let toks = split_tokens(&chars);
    let word = chars_of("bestmove");
    let start: usize = if toks.len() > 0 && vec_eq(&toks[0], &word) {
        1
    } else {
        0
    };
    proof {
        if toks@.len() > 0 {
            assert(toks.deep_view()[0] == toks@[0]@);
        }
        if start == 1 {
            assert(spec_reply_tokens(reply@) =~= toks.deep_view().drop_first());
        } else {
            assert(spec_reply_tokens(reply@) == toks.deep_view());
        }
    }
    if toks.len() <= start {
        return Err(Error::MalformedAttribute);
    }
    let t = &toks[start];
    proof {
        assert(toks.deep_view()[start as int] == toks@[start as int]@);
        assert(spec_reply_tokens(reply@)[0] == t@);
    }
    if t.len() < 4 {
        return Err(Error::MalformedAttribute);
    }
    let from = match algebraic_to_cell(t[0], t[1]) {
        Ok(c) => c,
        Err(_) => {
            return Err(Error::MalformedAttribute);
        },
    };
    let to = match algebraic_to_cell(t[2], t[3]) {
        Ok(c) => c,
        Err(_) => {
            return Err(Error::MalformedAttribute);
        },
    };
    Ok((from, to))
}

} // verus!
