//! Sheet-statistics engine and rule-based classifier for spreadsheet
//! workbooks.
//!
//! Given the decoded contents of a workbook (sheet names, visibility flags
//! and a rectangular grid of cells per sheet), the library samples each
//! visible sheet's occupied region, computes occupancy density, per-column
//! numeric/text profiles, a normalized type-mix score, a row-consistency
//! score and shape metrics, and classifies every sheet as a tabular data
//! table, a form-like key/value layout, or unknown.
//!
//! All scores are carried as integers in parts per million, so every
//! computation here is exact integer arithmetic with a proved contract.

pub mod cells;
pub mod classify;
pub mod consistency;
pub mod grid;
pub mod profile;
pub mod stats;
pub mod fixed;
pub mod format;
pub mod numeric;
pub mod text;

pub use cells::Cell;
pub use cells::CellKind;
pub use cells::SheetVisibility;
pub use classify::ClassifiedSheet;
pub use classify::SheetType;
pub use classify::classify_excel_sheets;
pub use classify::classify_sheet;
pub use numeric::is_numeric_string;
pub use profile::ColumnDataTypeInfo;
pub use stats::SheetDataDensity;
pub use stats::SheetInput;
pub use stats::calculate_sheet_density;
