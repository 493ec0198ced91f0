//! Data storage and ingestion core of a spreadsheet engine.
//!
//! The crate holds a sparse, growable store of cell values
//! ([`cell_values`]), a run-length encoded store of formatting changes
//! ([`formats`]), and the ingesters that turn delimited text
//! ([`csv_import`]), workbooks ([`workbook_import`]) and columnar files
//! ([`columnar_import`]) into operations for a transaction controller. An
//! ingester changes nothing itself: it returns the complete list of its
//! operations, or an error and no operation at all.
//!
//! The calls into other crates stand in three modules of their own,
//! [`csv_source`], [`workbook_source`] and [`columnar_source`]: what they
//! state of those crates is trusted, everything else is proved.

pub mod array;
pub mod cell_value;
pub mod cell_values;
pub mod coerce;
pub mod columnar_import;
pub mod columnar_source;
pub mod controller;
pub mod csv_import;
pub mod csv_source;
pub mod data_table;
pub mod encoding;
pub mod error;
pub mod formats;
pub mod operation;
pub mod ordered_rows;
pub mod pos;
pub mod sheet;
pub mod text;
pub mod workbook_import;
pub mod workbook_source;

pub use array::{Array, ArraySize};
pub use cell_value::CellValue;
pub use cell_values::CellValues;
pub use controller::GridController;
pub use data_table::DataTable;
pub use error::{ImportError, ImportProgress};
pub use formats::{FormatUpdate, Formats};
pub use operation::Operation;
pub use pos::{Pos, Rect, SheetId, SheetPos};
pub use sheet::Sheet;
