//! A named block of values with its formatting, anchored at one position of
//! a sheet.

use crate::array::{Array, Block};
use crate::cell_value::{CellModel, CellValue, Import};
use crate::formats::{FormatUpdate, Formats};
use vstd::prelude::*;

verus! {

/// A named block of values with its own formatting and header flag.
#[derive(Debug, Clone, PartialEq)]
pub struct DataTable {
    pub name: CellValue,
    pub header_is_first_row: bool,
    pub value: Array,
    pub formats: Formats,
    pub last_modified: i64,
}

/// Mathematical model of a [`DataTable`].
pub struct TableModel {
    pub name: CellModel,
    pub header_is_first_row: bool,
    pub value: Block,
    pub formats: Seq<FormatUpdate>,
    pub last_modified: int,
}

impl TableModel {
    /// Number of rows of data: all rows, less the first where it is the
    /// header.
    pub open spec fn data_height(self) -> int {
        if self.header_is_first_row {
            self.value.h - 1
        } else {
            self.value.h as int
        }
    }

    /// The value at column `x` of data row `y`.
    pub open spec fn data_at(self, x: int, y: int) -> CellModel {
        if self.header_is_first_row {
            self.value.at(x, y + 1)
        } else {
            self.value.at(x, y)
        }
    }
}

impl View for DataTable {
    type V = TableModel;

    open spec fn view(&self) -> TableModel {
        TableModel {
            name: self.name@,
            header_is_first_row: self.header_is_first_row,
            value: self.value@,
            formats: self.formats@,
            last_modified: self.last_modified as int,
        }
    }
}

impl DataTable {
    /// The table read from the file that `import` names: it is called after
    /// the file, has no header and no formatting yet.
    pub fn new(import: &Import, value: Array, last_modified: i64) -> (t: DataTable)
        ensures
            t@.name == CellModel::Text(import.file_name@),
            !t@.header_is_first_row,
            t@.value == value@,
            t@.formats == Seq::<FormatUpdate>::empty(),
            t@.last_modified == last_modified,
            t.formats.wf(),
    {
        DataTable {
            name: CellValue::Text(import.file_name.clone()),
            header_is_first_row: false,
            value,
            formats: Formats::new(),
            last_modified,
        }
    }

    /// Makes the first row the header: the rows of data are those after it.
    pub fn apply_first_row_as_header(&mut self)
        ensures
            final(self)@ == (TableModel { header_is_first_row: true, ..old(self)@ }),
            final(self).formats == old(self).formats,
    {
        self.header_is_first_row = true;
    }

    /// Number of rows of data.
    pub fn height(&self) -> (h: u32)
        ensures
            h == self@.data_height(),
    {
        let rows: u32 = self.value.height();
        if self.header_is_first_row {
            rows - 1
        } else {
            rows
        }
    }

    /// Number of columns.
    pub fn width(&self) -> (w: u32)
        ensures
            w == self@.value.w,
    {
        self.value.width()
    }

    /// The header of column `x`, where the first row is the header.
    pub fn column_header(&self, x: u32) -> (r: Option<&CellValue>)
        ensures
            match r {
                Some(v) => self@.header_is_first_row && x < self@.value.w && v@
                    == self@.value.at(x as int, 0),
                None => !(self@.header_is_first_row && x < self@.value.w),
            },
    {
        if !self.header_is_first_row {
            return None;
        }
        match self.value.get(x, 0) {
            Ok(v) => Some(v),
            Err(_) => None,
        }
    }

    /// The value at column `x` of data row `y`.
    pub fn cell_value_ref_at(&self, x: u32, y: u32) -> (r: Option<&CellValue>)
        ensures
            match r {
                Some(v) => x < self@.value.w && y < self@.data_height() && v@ == self@.data_at(
                    x as int,
                    y as int,
                ),
                None => !(x < self@.value.w && y < self@.data_height()),
            },
    {
        let row: u32 = if self.header_is_first_row {
            if y == u32::MAX {
                let h: u32 = self.value.height();
                return None;
            }
            y + 1
        } else {
            y
        };
        match self.value.get(x, row) {
            Ok(v) => Some(v),
            Err(_) => None,
        }
    }
}

} // verus!
