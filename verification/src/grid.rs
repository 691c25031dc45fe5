//! The sampled sheet grid.
//!
//! A `SheetGrid` holds a sheet's occupied bounding box and its cells,
//! stored row by row relative to the box corner. Coordinates outside the
//! stored rows read as empty cells, exactly as absent cells do in the
//! decoded workbook. The row span that the engine actually scans is
//! clamped to at most one hundred rows from the first.

use vstd::prelude::*;

use crate::cells::Cell;
use crate::cells::cell_is_empty;
use crate::cells::cell_is_numeric;
use crate::cells::is_empty_cell;
use crate::cells::is_numeric_cell;

verus! {

/// A sheet's occupied bounding box (inclusive, zero-indexed) and its
/// cells. `rows[r][c]` is the cell at sheet coordinates
/// `(first_row + r, first_col + c)`; missing entries are empty cells.
pub struct SheetGrid {
    pub first_row: u32,
    pub first_col: u32,
    pub end_row: u32,
    pub end_col: u32,
    pub rows: Vec<Vec<Cell>>,
}

/// The last sampled row: the end of the box, clamped to ninety-nine rows
/// past the first.
pub open spec fn sample_end_spec(first_row: int, end_row: int) -> int {
    if first_row + 99 < end_row {
        first_row + 99
    } else {
        end_row
    }
}

impl SheetGrid {
    /// A well-formed bounding box: the corners are ordered.
    pub open spec fn valid_box(self) -> bool {
        self.first_row <= self.end_row && self.first_col <= self.end_col
    }

    /// The last row of the sample window.
    pub open spec fn sample_end(self) -> int {
        sample_end_spec(self.first_row as int, self.end_row as int)
    }

    /// How many rows the sample window holds (at most one hundred).
    pub open spec fn sample_rows(self) -> int {
        self.sample_end() - self.first_row + 1
    }

    /// How many columns the bounding box spans.
    pub open spec fn col_count(self) -> int {
        self.end_col - self.first_col + 1
    }

    /// Whether relative coordinates `(r, c)` fall on a stored cell.
    pub open spec fn in_store(self, r: int, c: int) -> bool {
        0 <= r < self.rows.len() && 0 <= c < self.rows[r]@.len()
    }

    /// Whether the cell at relative coordinates `(r, c)` is empty;
    /// coordinates off the stored rows are empty.
    pub open spec fn empty_at(self, r: int, c: int) -> bool {
        if self.in_store(r, c) {
            cell_is_empty(self.rows[r]@[c])
        } else {
            true
        }
    }

    /// Whether the cell at relative coordinates `(r, c)` holds
    /// numeric-shaped contents.
    pub open spec fn numeric_at(self, r: int, c: int) -> bool {
        if self.in_store(r, c) {
            cell_is_numeric(self.rows[r]@[c])
        } else {
            false
        }
    }
}

/// Computes the last sampled row for a box spanning `first_row` to
/// `end_row`.
pub fn sample_end_row(first_row: u32, end_row: u32) -> (r: u32)
    ensures
        r as int == sample_end_spec(first_row as int, end_row as int),
{
    if first_row <= u32::MAX - 99 && first_row + 99 < end_row {
        first_row + 99
    } else {
        end_row
    }
}

/// Reads a sheet's occupied bounding box from the decoder's corner
/// reports: a missing corner yields the degenerate box `(0, 0, 0, 0)`.
pub fn get_effective_range(start: Option<(u32, u32)>, end: Option<(u32, u32)>) -> (r: (
    u32,
    u32,
    u32,
    u32,
))
    ensures
        r == effective_range_spec(start, end),
{
    match (start, end) {
        (Some(s), Some(e)) => (s.0, s.1, e.0, e.1),
        _ => (0, 0, 0, 0),
    }
}

/// What `get_effective_range` returns.
pub open spec fn effective_range_spec(start: Option<(u32, u32)>, end: Option<(u32, u32)>) -> (
    u32,
    u32,
    u32,
    u32,
) {
    match (start, end) {
        (Some(s), Some(e)) => (s.0, s.1, e.0, e.1),
        _ => (0u32, 0u32, 0u32, 0u32),
    }
}

/// Decides whether the cell at relative coordinates `(r, c)` is empty.
pub fn grid_cell_empty(g: &SheetGrid, r: u64, c: u64) -> (b: bool)
    ensures
        b == g.empty_at(r as int, c as int),
{
    if r < g.rows.len() as u64 {
        let row = &g.rows[r as usize];
        if c < row.len() as u64 {
            is_empty_cell(&row[c as usize])
        } else {
            true
        }
    } else {
        true
    }
}

/// Decides whether the cell at relative coordinates `(r, c)` is numeric.
pub fn grid_cell_numeric(g: &SheetGrid, r: u64, c: u64) -> (b: bool)
    ensures
        b == g.numeric_at(r as int, c as int),
{
    if r < g.rows.len() as u64 {
        let row = &g.rows[r as usize];
        if c < row.len() as u64 {
            is_numeric_cell(&row[c as usize])
        } else {
            false
        }
    } else {
        false
    }
}

} // verus!
