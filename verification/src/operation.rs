//! Descriptions of single changes to a grid, as an import hands them to the
//! controller that applies them.

use crate::cell_value::CellValue;
use crate::cell_values::CellValues;
use crate::data_table::DataTable;
use crate::formats::Formats;
use crate::pos::SheetPos;
use crate::sheet::Sheet;
use vstd::prelude::*;

verus! {

/// One change to a grid. An import produces operations and changes nothing
/// itself.
#[derive(Debug, Clone, PartialEq)]
pub enum Operation {
    /// Adds a data table with its anchor cell at a position.
    AddDataTable {
        sheet_pos: SheetPos,
        data_table: DataTable,
        cell_value: CellValue,
        index: Option<usize>,
    },
    /// Adds a whole sheet.
    AddSheetSchema { schema: Sheet },
    /// Asks for the code at a position to be run.
    ComputeCode { sheet_pos: SheetPos },
    /// Writes values from a position on.
    SetCellValues { sheet_pos: SheetPos, values: CellValues },
    /// Changes formats from a position on.
    SetCellFormats { sheet_pos: SheetPos, formats: Formats },
}

impl Operation {
    /// Whether this is one of the operations that an import may produce.
    pub open spec fn spec_is_import_operation(&self) -> bool {
        self is AddDataTable || self is AddSheetSchema || self is ComputeCode
    }

    /// Whether this is one of the operations that an import may produce.
    pub fn is_import_operation(&self) -> (b: bool)
        ensures
            b == self.spec_is_import_operation(),
    {
        match self {
            Operation::AddDataTable { .. } => true,
            Operation::AddSheetSchema { .. } => true,
            Operation::ComputeCode { .. } => true,
            _ => false,
        }
    }
}

} // verus!
