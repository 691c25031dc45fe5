//! The cell model.
//!
//! A cell is a closed tagged variant over empty, error, integer, float,
//! boolean, text and date-time contents, together with its textual
//! rendering. The engine reads nothing else of a cell: emptiness and
//! numeric shape depend only on the variant and, for text, on the
//! trimmed rendering.

use vstd::prelude::*;

use crate::numeric::is_numeric_str_spec;
use crate::numeric::is_numeric_string;
use crate::numeric::matches_numeric;
use crate::text::trim_bounds;
use crate::text::trim_spec;

verus! {

/// The variant of a cell value.
#[derive(Clone, Copy, Debug, PartialEq, Eq, Structural)]
pub enum CellKind {
    Empty,
    Error,
    Integer,
    Float,
    Boolean,
    Text,
    DateTime,
}

/// One cell: its variant and its textual rendering. For a text cell the
/// rendering is the text itself; for the other variants it is whatever
/// the workbook decoder displays for the value.
#[derive(Debug)]
pub struct Cell {
    pub kind: CellKind,
    pub text: String,
}

/// How a sheet is flagged in the workbook: only visible sheets are
/// analyzed.
#[derive(Clone, Copy, Debug, PartialEq, Eq, Structural)]
pub enum SheetVisibility {
    Visible,
    Hidden,
    VeryHidden,
}

impl Cell {
    pub fn new(kind: CellKind, text: String) -> (c: Cell)
        ensures
            c.kind == kind,
            c.text == text,
    {
        Cell { kind, text }
    }
}

/// An empty cell: the empty and error variants, and text whose trimmed
/// content has zero length.
pub open spec fn cell_is_empty(c: Cell) -> bool {
    match c.kind {
        CellKind::Empty => true,
        CellKind::Error => true,
        CellKind::Text => trim_spec(c.text@).len() == 0,
        _ => false,
    }
}

/// A numeric cell: the integer and float variants, and text whose
/// trimmed content is numeric-shaped.
pub open spec fn cell_is_numeric(c: Cell) -> bool {
    match c.kind {
        CellKind::Integer => true,
        CellKind::Float => true,
        CellKind::Text => is_numeric_str_spec(c.text@),
        _ => false,
    }
}

/// Decides whether a cell is empty.
pub fn is_empty_cell(cell: &Cell) -> (b: bool)
    ensures
        b == cell_is_empty(*cell),
{
    match cell.kind {
        CellKind::Empty => true,
        CellKind::Error => true,
        CellKind::Text => {
            let (a, bb) = trim_bounds(cell.text.as_str());
            a == bb
        },
        _ => false,
    }
}

/// Decides whether a cell holds numeric-shaped contents.
pub fn is_numeric_cell(cell: &Cell) -> (b: bool)
    ensures
        b == cell_is_numeric(*cell),
{
    match cell.kind {
        CellKind::Integer => true,
        CellKind::Float => true,
        CellKind::Text => is_numeric_string(cell.text.as_str()),
        _ => false,
    }
}

/// Emptiness and numeric shape are total judgements on every cell
/// variant and never overlap: an empty cell is never numeric. In
/// particular the empty and error variants are always empty and never
/// numeric.
pub proof fn lemma_empty_never_numeric(c: Cell)
    ensures
        cell_is_empty(c) ==> !cell_is_numeric(c),
        c.kind == CellKind::Empty || c.kind == CellKind::Error ==> cell_is_empty(c) && !cell_is_numeric(c),
{
    if c.kind == CellKind::Text && trim_spec(c.text@).len() == 0 {
        let t = trim_spec(c.text@);
        assert(!matches_numeric(t)) by {
            assert(forall|e: int| !crate::numeric::thousands_split(crate::numeric::strip_minus(t), e));
        }
    }
}

} // verus!
