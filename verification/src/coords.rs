//! The coordinate transforms shared by extraction and rendering: percentage
//! positions to grid cells, grid cells to pixel origins, and algebraic
//! square names to grid cells.
//!
//! Percentages are carried as fixed-point values in hundredths of a percent,
//! so that `12.5%` is `1250`.

use vstd::prelude::*;
use vstd::arithmetic::div_mod::{lemma_div_is_ordered, lemma_div_pos_is_pos};
use crate::board::Perspective;
use crate::error::Error;

verus! {

/// Pixels along one edge of a board square.
pub const SQUARE_SIZE: u32 = 128;

/// Pixels along one edge of the whole board image.
pub const BOARD_SIZE: u32 = 1024;

/// One hundred percent, in hundredths of a percent.
pub const FULL_PERCENT: u32 = 10000;

/// The grid cell that a percentage position (in hundredths of a percent)
/// falls in: `floor(p / 100% * 8)`, with exactly 100% landing on the last
/// cell rather than one past it.
pub open spec fn spec_percent_to_cell(centi: int) -> int {
    let cell = centi * 8 / 10000;
    if cell > 7 {
        7
    } else {
        cell
    }
}

/// Maps a percentage position to its grid cell. A value above 100% cannot
/// name any cell and is a data-integrity fault.
pub fn percent_to_cell(centi: u32) -> (r: Result<u8, Error>)
    ensures
        centi <= 10000 ==> r == Ok::<u8, Error>(spec_percent_to_cell(centi as int) as u8),
        centi > 10000 ==> r == Err::<u8, Error>(Error::MalformedAttribute),
        r matches Ok(c) ==> c <= 7,
{
    if centi > 10000 {
        Err(Error::MalformedAttribute)
    } else {
        let cell = centi * 8 / 10000;
        if cell > 7 {
            Ok(7)
        } else {
            Ok(cell as u8)
        }
    }
}

/// The grid cell of a percentage is always on the board, never decreases as
/// the percentage grows, and is the last cell at exactly 100%.
pub proof fn lemma_percent_to_cell_monotone(p1: int, p2: int)
    requires
        0 <= p1 <= p2,
    ensures
        0 <= spec_percent_to_cell(p1) <= 7,
        spec_percent_to_cell(p1) <= spec_percent_to_cell(p2),
        spec_percent_to_cell(10000) == 7,
{
    lemma_div_pos_is_pos(p1 * 8, 10000);
    lemma_div_is_ordered(p1 * 8, p2 * 8, 10000);
    assert(80000int / 10000 == 8);
}

/// The pixel origin of a grid cell: columns advance along the x axis, rows
/// along the y axis, one square's worth of pixels per cell.
pub fn cell_to_pixel_origin(row: u32, col: u32) -> (r: (u32, u32))
    requires
        row < 8,
        col < 8,
    ensures
        r.0 == col * SQUARE_SIZE,
        r.1 == row * SQUARE_SIZE,
{
    (col * SQUARE_SIZE, row * SQUARE_SIZE)
}

/// The column named by a file letter `a`..`h`.
pub open spec fn spec_file_col(file: char) -> Option<u8> {
    if 'a' as int <= file as int <= 'h' as int {
        Some((file as int - 'a' as int) as u8)
    } else {
        None
    }
}

/// The row named by a rank digit `1`..`8`, counted from the bottom edge.
pub open spec fn spec_rank_row(rank: char) -> Option<u8> {
    if '1' as int <= rank as int <= '8' as int {
        Some((rank as int - '1' as int) as u8)
    } else {
        None
    }
}

/// The cell named by an algebraic square: `col = file - 'a'`,
/// `row = rank - '1'`, the row axis ascending from the bottom edge.
pub open spec fn spec_algebraic_to_cell(file: char, rank: char) -> Option<(u8, u8)> {
    match (spec_rank_row(rank), spec_file_col(file)) {
        (Some(row), Some(col)) => Some((row, col)),
        _ => None,
    }
}

/// Maps an algebraic square name to a bottom-based (row, col) cell. A
/// character outside `a`..`h` / `1`..`8` would name a cell off the board
/// and is a data-integrity fault.
pub fn algebraic_to_cell(file: char, rank: char) -> (r: Result<(u8, u8), Error>)
    ensures
        spec_algebraic_to_cell(file, rank) matches Some(cell) ==> r == Ok::<(u8, u8), Error>(
            cell,
        ),
        spec_algebraic_to_cell(file, rank) is None ==> r == Err::<(u8, u8), Error>(
            Error::MalformedAttribute,
        ),
        r matches Ok(cell) ==> cell.0 < 8 && cell.1 < 8,
{
    let f = file as u32;
    let k = rank as u32;
    if 97 <= f && f <= 104 && 49 <= k && k <= 56 {
        Ok((((k - 49) as u8), ((f - 97) as u8)))
    } else {
        Err(Error::MalformedAttribute)
    }
}

/// Mirrors a bottom-based (row, col) cell onto the as-scraped rendering
/// axis: the column is mirrored when the dark side is at the bottom, the
/// row otherwise.
pub open spec fn spec_render_cell(cell: (u8, u8), p: Perspective) -> (u8, u8) {
    match p {
        Perspective::DarkAtBottom => (cell.0, (7 - cell.1) as u8),
        Perspective::LightAtBottom => ((7 - cell.0) as u8, cell.1),
    }
}

/// Perspective-adjusts a bottom-based cell for rendering on the as-scraped
/// board image.
pub fn render_cell(cell: (u8, u8), p: Perspective) -> (r: (u8, u8))
    requires
        cell.0 < 8,
        cell.1 < 8,
    ensures
        r == spec_render_cell(cell, p),
        r.0 < 8,
        r.1 < 8,
{
    match p {
        Perspective::DarkAtBottom => (cell.0, 7 - cell.1),
        Perspective::LightAtBottom => (7 - cell.0, cell.1),
    }
}

} // verus!
