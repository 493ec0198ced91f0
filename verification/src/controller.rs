//! The controller as far as an import needs it: the names of the sheets
//! that exist, the next sheet identifier, the time, and the notices of
//! progress that imports leave behind.

use crate::array::Array;
use crate::cell_value::CellValue;
use crate::coerce::{coerce, coerced};
use crate::formats::FormatUpdate;
use crate::error::ImportProgress;
use crate::pos::SheetId;
use crate::text::texts_of;
use vstd::prelude::*;

verus! {

/// Number of rows an import of text reads between two notices of progress.
pub const IMPORT_LINES_PER_OPERATION: u32 = 10000;

/// What an import reads of the grid and where it reports its progress.
#[derive(Debug, Clone, PartialEq, Eq)]
pub struct GridController {
    /// Names of the sheets of the grid.
    pub sheet_names: Vec<String>,
    /// The identifier that the next new sheet gets.
    pub next_sheet_id: u64,
    /// The time that tables made now are stamped with.
    pub now: i64,
    /// The notices of progress of the imports so far, oldest first.
    pub progress: Vec<ImportProgress>,
}

impl GridController {
    /// A controller of a grid without sheets, at time 0.
    pub fn new() -> (gc: GridController)
        ensures
            gc.sheet_names@.len() == 0,
            gc.next_sheet_id == 0,
            gc.now == 0,
            gc.progress@.len() == 0,
    {
        GridController { sheet_names: Vec::new(), next_sheet_id: 0, now: 0, progress: Vec::new() }
    }

    /// A controller of a grid with one sheet, `Sheet 1`, whose identifier
    /// is 0.
    pub fn test() -> (gc: GridController)
        ensures
            texts_of(gc.sheet_names@) == seq!["Sheet 1"@],
            gc.next_sheet_id == 1,
            gc.now == 0,
            gc.progress@.len() == 0,
    {
        let mut sheet_names: Vec<String> = Vec::new();
        sheet_names.push("Sheet 1".to_owned());
        let gc = GridController { sheet_names, next_sheet_id: 1, now: 0, progress: Vec::new() };
        assert(texts_of(gc.sheet_names@) =~= seq!["Sheet 1"@]);
        gc
    }

    /// Whether the grid has a sheet called `name`.
    pub fn has_sheet_named(&self, name: &str) -> (found: bool)
        ensures
            found == texts_of(self.sheet_names@).contains(name@),
    {
        let mut i: usize = 0;
        while i < self.sheet_names.len()
            invariant
                i <= self.sheet_names@.len(),
                forall|k: int| 0 <= k < i ==> self.sheet_names@[k]@ != name@,
            decreases self.sheet_names@.len() - i,
        {
            if chars_equal(self.sheet_names[i].as_str(), name) {
                assert(texts_of(self.sheet_names@)[i as int] == name@);
                return true;
            }
            i = i + 1;
        }
        assert forall|k: int| 0 <= k < texts_of(self.sheet_names@).len() implies texts_of(
            self.sheet_names@,
        )[k] != name@ by {}
        false
    }

    /// Reads the raw text `value` as a typed value and says which change of
    /// format it brings: see [`coerced`].
    pub fn string_to_cell_value(&self, value: &str, strict: bool) -> (r: (CellValue, FormatUpdate))
        ensures
            r.0@ == coerced(value@, strict).0,
            r.1 == coerced(value@, strict).1,
    {
        coerce(value, strict)
    }

    /// Guesses whether the first row of a table read from text is a header
    /// by the variants of the values of its first three rows: it is where
    /// the first row differs from the second and the second agrees with the
    /// third. A table of less than three rows has none.
    pub fn guess_csv_first_row_is_header(&self, cell_values: &Array) -> (header: bool)
        ensures
            header == cell_values@.first_row_looks_like_header(),
            cell_values@.h < 3 ==> !header,
    {
        if cell_values.height() < 3 {
            return false;
        }
        let row_0 = cell_values.row_types(0);
        let row_1 = cell_values.row_types(1);
        let row_2 = cell_values.row_types(2);
        let row_0_is_different_from_row_1 = !same_kinds(&row_0, &row_1);
        let row_1_is_same_as_row_2 = same_kinds(&row_1, &row_2);
        row_0_is_different_from_row_1 && row_1_is_same_as_row_2
    }
}

/// Whether two texts are the same.
pub fn chars_equal(a: &str, b: &str) -> (same: bool)
    ensures
        same == (a@ == b@),
{
    let left = crate::text::chars_of(a);
    let right = crate::text::chars_of(b);
    if left.len() != right.len() {
        return false;
    }
    let mut i: usize = 0;
    while i < left.len()
        invariant
            i <= left@.len(),
            left@ == a@,
            right@ == b@,
            left@.len() == right@.len(),
            forall|k: int| 0 <= k < i ==> left@[k] == right@[k],
        decreases left@.len() - i,
    {
        if left[i] != right[i] {
            assert(a@[i as int] != b@[i as int]);
            return false;
        }
        i = i + 1;
    }
    assert(left@ =~= right@);
    true
}

/// Whether two lists of variants are the same.
fn same_kinds(a: &Vec<crate::cell_value::CellKind>, b: &Vec<crate::cell_value::CellKind>) -> (same:
    bool)
    ensures
        same == (a@ == b@),
{
    if a.len() != b.len() {
        return false;
    }
    let mut i: usize = 0;
    while i < a.len()
        invariant
            i <= a@.len(),
            a@.len() == b@.len(),
            forall|k: int| 0 <= k < i ==> a@[k] == b@[k],
        decreases a@.len() - i,
    {
        if a[i] != b[i] {
            assert(a@[i as int] != b@[i as int]);
            return false;
        }
        i = i + 1;
    }
    assert(a@ =~= b@);
    true
}

} // verus!
