//! A sparsely populated rectangle of cell values whose bounds grow as cells
//! are written.

use crate::array::Array;
use crate::cell_value::{CellModel, CellValue};
use crate::pos::Rect;
use crate::text::{decimal_text, number_text};
use std::collections::BTreeMap;
use vstd::prelude::*;
use vstd::string::StringExecFns;
use vstd::std_specs::convert::FromSpecImpl;
use vstd::std_specs::iter::IteratorSpec;

verus! {

/// Sparsely populated rectangle of [`CellValue`]s, stored column by column.
///
/// `w` and `h` are logical bounds: a cell inside them may be absent, which is
/// not the same as holding `Blank`.
#[derive(Debug, PartialEq)]
pub struct CellValues {
    pub columns: Vec<BTreeMap<u64, CellValue>>,
    pub w: u32,
    pub h: u32,
}

/// Mathematical model of a [`CellValues`]: its bounds and the cells present.
pub struct SparseGrid {
    pub w: nat,
    pub h: nat,
    pub cells: Map<(int, int), CellModel>,
}

/// Why a checked read of a [`CellValues`] failed.
#[derive(Clone, Copy, Debug, PartialEq, Eq, Structural)]
pub enum CellValuesError {
    /// The coordinate lies outside the bounds `w` by `h`.
    OutOfBounds { w: u32, h: u32, x: u32, y: u32 },
    /// The coordinate is in bounds and holds no value.
    NoValue { x: u32, y: u32 },
}

impl View for CellValues {
    type V = SparseGrid;

    open spec fn view(&self) -> SparseGrid {
        SparseGrid {
            w: self.w as nat,
            h: self.h as nat,
            cells: Map::new(
                |p: (int, int)|
                    0 <= p.0 < self.columns@.len() && 0 <= p.1 <= u64::MAX
                        && self.columns@[p.0]@.contains_key(p.1 as u64),
                |p: (int, int)| self.columns@[p.0]@[p.1 as u64]@,
            ),
        }
    }
}

/// Whether `a` comes before `b` when cells are listed column by column and,
/// within a column, row by row.
pub open spec fn column_major_before(a: (int, int), b: (int, int)) -> bool {
    a.0 < b.0 || (a.0 == b.0 && a.1 < b.1)
}

/// The coordinate of an entry of a listing of cells.
pub open spec fn entry_key(entry: (int, int, CellModel)) -> (int, int) {
    (entry.0, entry.1)
}

impl SparseGrid {
    /// Whether `(x, y)` lies inside the bounds.
    pub open spec fn in_bounds(self, x: int, y: int) -> bool {
        0 <= x < self.w && 0 <= y < self.h
    }

    /// Whether every cell that is present lies inside the bounds.
    pub open spec fn wf(self) -> bool {
        forall|p: (int, int)| #[trigger] self.cells.contains_key(p) ==> self.in_bounds(p.0, p.1)
    }

    /// The cell at `(x, y)`, if one is present.
    pub open spec fn cell(self, x: int, y: int) -> Option<CellModel> {
        if self.cells.contains_key((x, y)) {
            Some(self.cells[(x, y)])
        } else {
            None
        }
    }

    /// The cell at `(x, y)`, or `Blank` where none is present.
    pub open spec fn value_or_blank(self, x: int, y: int) -> CellModel {
        if self.cells.contains_key((x, y)) {
            self.cells[(x, y)]
        } else {
            CellModel::Blank
        }
    }

    /// What a checked read at `(x, y)` gives: the value, or the reason why
    /// there is none. Outside the bounds it fails whatever is stored.
    pub open spec fn checked_cell(self, x: u32, y: u32) -> Result<CellModel, CellValuesError> {
        if !self.in_bounds(x as int, y as int) {
            Err(CellValuesError::OutOfBounds { w: self.w as u32, h: self.h as u32, x, y })
        } else if self.cell(x as int, y as int) is None {
            Err(CellValuesError::NoValue { x, y })
        } else {
            Ok(self.cells[(x as int, y as int)])
        }
    }

    /// The grid after `value` is written at `(x, y)`: the bounds grow to
    /// hold the cell and never shrink.
    pub open spec fn with_cell(self, x: int, y: int, value: CellModel) -> SparseGrid {
        SparseGrid {
            w: if x < self.w {
                self.w
            } else {
                (x + 1) as nat
            },
            h: if y < self.h {
                self.h
            } else {
                (y + 1) as nat
            },
            cells: self.cells.insert((x, y), value),
        }
    }

    /// The grid after the cell at `(x, y)` is taken out: the bounds stay.
    pub open spec fn without_cell(self, x: int, y: int) -> SparseGrid {
        SparseGrid { cells: self.cells.remove((x, y)), ..self }
    }

    /// The grid after the cells of `rect` are taken out: the bounds stay.
    pub open spec fn without_rect(self, rect: Rect) -> SparseGrid {
        SparseGrid {
            cells: self.cells.remove_keys(Set::new(|p: (int, int)| rect.spec_contains(p.0, p.1))),
            ..self
        }
    }

    /// All cells inside the bounds row by row, `Blank` where none is
    /// present.
    pub open spec fn all_rows(self) -> Seq<Seq<CellModel>> {
        Seq::new(self.h, |j: int| Seq::new(self.w, |i: int| self.value_or_blank(i, j)))
    }

    /// The cells of `rect` row by row, `Blank` where none is present.
    pub open spec fn rect_rows(self, rect: Rect) -> Seq<Seq<CellModel>> {
        Seq::new(
            rect.spec_height() as nat,
            |j: int|
                Seq::new(
                    rect.spec_width() as nat,
                    |i: int| self.value_or_blank(rect.min.x + i, rect.min.y + j),
                ),
        )
    }
}

impl SparseGrid {
    /// Whether `entries` holds exactly the cells that come before `end`,
    /// each once, in column-major order.
    pub open spec fn listed_before(
        self,
        entries: Seq<(int, int, CellModel)>,
        end: (int, int),
    ) -> bool {
        &&& forall|i: int|
            0 <= i < entries.len() ==> {
                let key = #[trigger] entry_key(entries[i]);
                self.cells.contains_key(key) && self.cells[key] == entries[i].2
                    && column_major_before(key, end)
            }
        &&& forall|p: (int, int)|
            #[trigger] self.cells.contains_key(p) && column_major_before(p, end) ==> exists|
                i: int,
            |
                0 <= i < entries.len() && #[trigger] entry_key(entries[i]) == p
        &&& forall|i: int, j: int|
            0 <= i < j < entries.len() ==> column_major_before(
                #[trigger] entry_key(entries[i]),
                #[trigger] entry_key(entries[j]),
            )
    }

    /// Whether `entries` holds exactly the cells of the grid, each once, in
    /// column-major order.
    pub open spec fn listed(self, entries: Seq<(int, int, CellModel)>) -> bool {
        self.listed_before(entries, (self.w as int, 0))
    }
}

/// The models of the values of a matrix given row by row.
pub open spec fn matrix_model(rows: Seq<Vec<CellValue>>) -> Seq<Seq<CellModel>> {
    rows.map_values(|row: Vec<CellValue>| row@.map_values(|value: CellValue| value@))
}

/// Whether a matrix given as a list of lists can be indexed by `u32`.
pub open spec fn lists_fit<T>(lists: Seq<Vec<T>>) -> bool {
    &&& lists.len() <= u32::MAX
    &&& forall|j: int| 0 <= j < lists.len() ==> (#[trigger] lists[j])@.len() <= u32::MAX
}

/// Whether `n` is the length of the longest of `lists`, or 0 if there is none.
pub open spec fn longest_is<T>(lists: Seq<Vec<T>>, n: int) -> bool {
    &&& forall|j: int| 0 <= j < lists.len() ==> (#[trigger] lists[j])@.len() <= n
    &&& n == 0 || exists|j: int| 0 <= j < lists.len() && (#[trigger] lists[j])@.len() == n
}

/// Writing a cell beyond the bounds extends the width to the column after
/// it and the height to the row after it, and no further; writing inside
/// the bounds leaves them as they are.
pub proof fn lemma_set_extends_bounds(grid: SparseGrid, x: int, y: int, value: CellModel)
    requires
        0 <= x,
        0 <= y,
    ensures
        x >= grid.w ==> grid.with_cell(x, y, value).w == x + 1,
        x < grid.w ==> grid.with_cell(x, y, value).w == grid.w,
        y >= grid.h ==> grid.with_cell(x, y, value).h == y + 1,
        y < grid.h ==> grid.with_cell(x, y, value).h == grid.h,
        grid.with_cell(x, y, value).in_bounds(x, y),
        grid.wf() ==> grid.with_cell(x, y, value).wf(),
{
}

/// A checked read outside the bounds fails, whether or not a value is
/// stored there; so does every read outside the bounds that a write has
/// left behind.
pub proof fn lemma_read_outside_bounds_fails(
    grid: SparseGrid,
    x: u32,
    y: u32,
    value: CellModel,
    a: u32,
    b: u32,
)
    requires
        grid.w <= u32::MAX,
        grid.h <= u32::MAX,
        x < u32::MAX,
        y < u32::MAX,
    ensures
        !grid.in_bounds(a as int, b as int) ==> grid.checked_cell(a, b) is Err && grid.checked_cell(
            a,
            b,
        )->Err_0 is OutOfBounds,
        !grid.with_cell(x as int, y as int, value).in_bounds(a as int, b as int)
            ==> grid.with_cell(x as int, y as int, value).checked_cell(a, b) is Err
            && grid.with_cell(x as int, y as int, value).checked_cell(a, b)->Err_0 is OutOfBounds,
{
}

/// What is written is what is read back, and no other cell changes.
pub proof fn lemma_set_then_get(grid: SparseGrid, x: u32, y: u32, value: CellModel)
    ensures
        grid.with_cell(x as int, y as int, value).cell(x as int, y as int) == Some(value),
        grid.with_cell(x as int, y as int, value).checked_cell(x, y) == Ok::<
            CellModel,
            CellValuesError,
        >(value),
        forall|a: int, b: int|
            (a, b) != (x as int, y as int) ==> grid.with_cell(x as int, y as int, value).cell(a, b)
                == grid.cell(a, b),
{
}

/// Taking a rectangle out gives `Blank` for every cell of it that was
/// absent and the value for every cell that was present, leaves none of
/// its cells in the grid, and leaves every other cell as it was.
pub proof fn lemma_extraction(grid: SparseGrid, rect: Rect)
    requires
        rect.wf(),
    ensures
        grid.rect_rows(rect).len() == rect.spec_height(),
        forall|i: int, j: int|
            0 <= i < rect.spec_width() && 0 <= j < rect.spec_height() ==> grid.rect_rows(
                rect,
            )[j].len() == rect.spec_width() && (#[trigger] grid.rect_rows(rect)[j][i]) == (
            match grid.cell(rect.min.x + i, rect.min.y + j) {
                Some(value) => value,
                None => CellModel::Blank,
            }),
        forall|a: int, b: int|
            rect.spec_contains(a, b) ==> (#[trigger] grid.without_rect(rect).cell(a, b)) is None,
        forall|a: int, b: int|
            !rect.spec_contains(a, b) ==> (#[trigger] grid.without_rect(rect).cell(a, b))
                == grid.cell(a, b),
        grid.without_rect(rect).w == grid.w,
        grid.without_rect(rect).h == grid.h,
{
}

impl CellValuesError {
    /// The message of this error.
    pub open spec fn message_text(&self) -> Seq<char> {
        match self {
            CellValuesError::OutOfBounds { w, h, x, y } => {
                "CellValues::safe_get out of bounds: w="@ + decimal_text(*w as nat) + ", h="@
                    + decimal_text(*h as nat) + ", x="@ + decimal_text(*x as nat) + ", y="@
                    + decimal_text(*y as nat)
            },
            CellValuesError::NoValue { x, y } => {
                "No value found at ("@ + decimal_text(*x as nat) + ", "@ + decimal_text(*y as nat)
                    + ")"@
            },
        }
    }

    /// The message of this error, as it is shown to the user.
    pub fn message(&self) -> (text: String)
        ensures
            text@ == self.message_text(),
    {
        match self {
            CellValuesError::OutOfBounds { w, h, x, y } => {
                let mut text = String::from_str("CellValues::safe_get out of bounds: w=");
                text.append(number_text(*w as u64).as_str());
                text.append(", h=");
                text.append(number_text(*h as u64).as_str());
                text.append(", x=");
                text.append(number_text(*x as u64).as_str());
                text.append(", y=");
                text.append(number_text(*y as u64).as_str());
                text
            },
            CellValuesError::NoValue { x, y } => {
                let mut text = String::from_str("No value found at (");
                text.append(number_text(*x as u64).as_str());
                text.append(", ");
                text.append(number_text(*y as u64).as_str());
                text.append(")");
                text
            },
        }
    }
}

impl CellValues {
    /// One column per unit of width, and every stored row within the height.
    pub open spec fn wf(&self) -> bool {
        &&& self.columns@.len() == self.w
        &&& forall|x: int, y: u64|
            0 <= x < self.columns@.len() && #[trigger] self.columns@[x]@.contains_key(y) ==> y
                < self.h
    }

    /// An empty store with the bounds `w` by `h`.
    pub fn new(w: u32, h: u32) -> (r: CellValues)
        ensures
            r.wf(),
            r@.w == w,
            r@.h == h,
            r@.cells == Map::<(int, int), CellModel>::empty(),
    {
        let mut columns: Vec<BTreeMap<u64, CellValue>> = Vec::new();
        let mut x: u32 = 0;
        while x < w
            invariant
                x <= w,
                columns@.len() == x,
                forall|i: int| 0 <= i < columns@.len() ==> columns@[i]@ == Map::<u64, CellValue>::empty(),
            decreases w - x,
        {
            columns.push(BTreeMap::new());
            x = x + 1;
        }
        let r = CellValues { columns, w, h };
        assert(r@.cells =~= Map::<(int, int), CellModel>::empty());
        r
    }

    /// The value at `(x, y)`, if one is present.
    pub fn get(&self, x: u32, y: u32) -> (r: Option<&CellValue>)
        requires
            self.wf(),
            x < self.w,
            y < self.h,
        ensures
            match r {
                Some(v) => self@.cell(x as int, y as int) == Some(v@),
                None => self@.cell(x as int, y as int) is None,
            },
    {
        let key: u64 = y as u64;
        self.columns[x as usize].get(&key)
    }

    /// Writes `value` at `(x, y)`, growing the bounds to hold it.
    pub fn set(&mut self, x: u32, y: u32, value: CellValue)
        requires
            old(self).wf(),
            x < u32::MAX,
            y < u32::MAX,
        ensures
            final(self).wf(),
            final(self)@ == old(self)@.with_cell(x as int, y as int, value@),
    {
        if y >= self.h {
            self.h = y + 1;
        }
        while self.w <= x
            invariant
                self.columns@.len() == self.w,
                self.h == if y < old(self).h { old(self).h as int } else { y + 1 },
                old(self).w <= self.w,
                self.w <= (if x < old(self).w { old(self).w as int } else { x + 1 }),
                x < u32::MAX,
                forall|i: int| 0 <= i < old(self).w ==> self.columns@[i] == old(self).columns@[i],
                forall|i: int| old(self).w <= i < self.w ==> self.columns@[i]@ == Map::<u64, CellValue>::empty(),
            decreases x + 1 - self.w,
        {
            self.columns.push(BTreeMap::new());
            self.w = self.w + 1;
        }
        let key: u64 = y as u64;
        self.columns[x as usize].insert(key, value);
        assert(final(self)@.cells =~= old(self)@.cells.insert((x as int, y as int), value@));
    }

    /// A store with the bounds `w` by `h` in which every cell holds `Blank`.
    pub fn new_blank(w: u32, h: u32) -> (r: CellValues)
        ensures
            r.wf(),
            r@.w == w,
            r@.h == h,
            r@.cells == Map::new(
                |p: (int, int)| 0 <= p.0 < w && 0 <= p.1 < h,
                |p: (int, int)| CellModel::Blank,
            ),
    {
        let mut column: BTreeMap<u64, CellValue> = BTreeMap::new();
        let mut y: u32 = 0;
        while y < h
            invariant
                y <= h,
                forall|k: u64| #[trigger] column@.contains_key(k) <==> k < y,
                forall|k: u64| k < y ==> (#[trigger] column@[k])@ == CellModel::Blank,
            decreases h - y,
        {
            let key: u64 = y as u64;
            column.insert(key, CellValue::Blank);
            y = y + 1;
        }
        let mut columns: Vec<BTreeMap<u64, CellValue>> = Vec::new();
        let mut x: u32 = 0;
        while x < w
            invariant
                x <= w,
                columns@.len() == x,
                forall|i: int| 0 <= i < columns@.len() ==> #[trigger] columns@[i]@ == column@,
            decreases w - x,
        {
            columns.push(column.clone());
            x = x + 1;
        }
        let r = CellValues { columns, w, h };
        assert(r@.cells =~= Map::new(
            |p: (int, int)| 0 <= p.0 < w && 0 <= p.1 < h,
            |p: (int, int)| CellModel::Blank,
        ));
        r
    }

    /// The value at `(x, y)`, unless none is present or it is `Blank`.
    pub fn get_except_blank(&self, x: u32, y: u32) -> (r: Option<&CellValue>)
        requires
            self.wf(),
            x < self.w,
            y < self.h,
        ensures
            match r {
                Some(v) => self@.cells.contains_key((x as int, y as int)) && v@ == self@.cells[(
                    x as int,
                    y as int,
                )] && v@ != CellModel::Blank,
                None => self@.value_or_blank(x as int, y as int) == CellModel::Blank,
            },
    {
        match self.get(x, y) {
            Some(value) => if value.is_blank() {
                None
            } else {
                Some(value)
            },
            None => None,
        }
    }

    /// The value at `(x, y)`, or the reason why there is none to return.
    pub fn safe_get(&self, x: u32, y: u32) -> (r: Result<&CellValue, CellValuesError>)
        requires
            self.wf(),
        ensures
            match r {
                Ok(v) => self@.checked_cell(x, y) == Ok::<CellModel, CellValuesError>(v@),
                Err(e) => self@.checked_cell(x, y) == Err::<CellModel, CellValuesError>(e),
            },
    {
        if !(x < self.w && y < self.h) {
            return Err(CellValuesError::OutOfBounds { w: self.w, h: self.h, x, y });
        }
        match self.get(x, y) {
            Some(value) => Ok(value),
            None => Err(CellValuesError::NoValue { x, y }),
        }
    }

    /// Mutable access to the value at `(x, y)`, or the reason why there is
    /// none. What the caller writes through the reference replaces the value.
    pub fn get_owned(&mut self, x: u32, y: u32) -> (r: Result<&mut CellValue, CellValuesError>)
        requires
            old(self).wf(),
        ensures
            final(self).wf(),
            final(self)@.w == old(self)@.w,
            final(self)@.h == old(self)@.h,
            match r {
                Ok(v) => old(self)@.checked_cell(x, y) == Ok::<CellModel, CellValuesError>(v@)
                    && final(self)@.cells == old(self)@.with_cell(
                    x as int,
                    y as int,
                    final(v)@,
                ).cells,
                Err(e) => old(self)@.checked_cell(x, y) == Err::<CellModel, CellValuesError>(e)
                    && final(self)@.cells == old(self)@.cells,
            },
    {
        if !(x < self.w && y < self.h) {
            return Err(CellValuesError::OutOfBounds { w: self.w, h: self.h, x, y });
        }
        let key: u64 = y as u64;
        let found = column_value_mut(&mut self.columns[x as usize], key);
        match found {
            Some(value) => Ok(value),
            None => Err(CellValuesError::NoValue { x, y }),
        }
    }

    /// Takes the value at `(x, y)` out of the store; the bounds stay.
    pub fn remove(&mut self, x: u32, y: u32) -> (r: Option<CellValue>)
        requires
            old(self).wf(),
            x < old(self).w,
            y < old(self).h,
        ensures
            final(self).wf(),
            final(self)@ == old(self)@.without_cell(x as int, y as int),
            match r {
                Some(v) => old(self)@.cell(x as int, y as int) == Some(v@),
                None => old(self)@.cell(x as int, y as int) is None,
            },
    {
        let key: u64 = y as u64;
        let r = self.columns[x as usize].remove(&key);
        assert(final(self)@.cells =~= old(self)@.cells.remove((x as int, y as int)));
        r
    }

    /// Moves the cells of `rect` out of the store, row by row; a cell that
    /// was absent comes out as `Blank`.
    pub fn get_rect(&mut self, rect: Rect) -> (values: Vec<Vec<CellValue>>)
        requires
            old(self).wf(),
            rect.wf(),
            0 <= rect.min.x,
            0 <= rect.min.y,
            rect.max.x < old(self).w,
            rect.max.y < old(self).h,
        ensures
            final(self).wf(),
            final(self)@ == old(self)@.without_rect(rect),
            matrix_model(values@) == old(self)@.rect_rows(rect),
    {
        let width: u32 = rect.width();
        let height: u32 = rect.height();
        let mut values: Vec<Vec<CellValue>> = Vec::new();
        let mut j: u32 = 0;
        while j < height
            invariant
                j <= height,
                height == rect.spec_height(),
                width == rect.spec_width(),
                rect.wf(),
                0 <= rect.min.x,
                0 <= rect.min.y,
                rect.max.x < self.w,
                rect.max.y < self.h,
                self.wf(),
                self.w == old(self).w,
                self.h == old(self).h,
                self@.cells == old(self)@.cells.remove_keys(
                    Set::new(
                        |p: (int, int)| rect.min.x <= p.0 <= rect.max.x && rect.min.y <= p.1 < rect.min.y + j,
                    ),
                ),
                values@.len() == j,
                forall|b: int| 0 <= b < j ==> (#[trigger] values@[b])@.len() == width,
                forall|a: int, b: int|
                    0 <= b < j && 0 <= a < width ==> (#[trigger] values@[b]@[a])@ == old(self)@.value_or_blank(rect.min.x + a, rect.min.y + b),
            decreases height - j,
        {
            let y: u32 = (rect.min.y + j as i64) as u32;
            let mut row: Vec<CellValue> = Vec::new();
            let mut i: u32 = 0;
            let ghost before_row = self@.cells;
            while i < width
                invariant
                    i <= width,
                    j < height,
                    height == rect.spec_height(),
                    width == rect.spec_width(),
                    rect.wf(),
                    0 <= rect.min.x,
                    0 <= rect.min.y,
                    rect.max.x < self.w,
                    rect.max.y < self.h,
                    y == rect.min.y + j,
                    self.wf(),
                    self.w == old(self).w,
                    self.h == old(self).h,
                    before_row == old(self)@.cells.remove_keys(
                        Set::new(
                            |p: (int, int)| rect.min.x <= p.0 <= rect.max.x && rect.min.y <= p.1 < rect.min.y + j,
                        ),
                    ),
                    self@.cells == before_row.remove_keys(
                        Set::new(|p: (int, int)| rect.min.x <= p.0 < rect.min.x + i && p.1 == y),
                    ),
                    row@.len() == i,
                    forall|a: int|
                        0 <= a < i ==> (#[trigger] row@[a])@ == old(self)@.value_or_blank(
                            rect.min.x + a,
                            rect.min.y + j,
                        ),
                decreases width - i,
            {
                let x: u32 = (rect.min.x + i as i64) as u32;
                let ghost before_cell = self@.cells;
                let value = match self.remove(x, y) {
                    Some(v) => v,
                    None => CellValue::Blank,
                };
                proof {
                    assert(before_cell.contains_key((x as int, y as int)) == old(self)@.cells.contains_key((x as int, y as int)));
                    assert(before_cell.contains_key((x as int, y as int)) ==> before_cell[(
                        x as int,
                        y as int,
                    )] == old(self)@.cells[(x as int, y as int)]);
                    assert(self@.cells =~= before_row.remove_keys(
                        Set::new(
                            |p: (int, int)| rect.min.x <= p.0 < rect.min.x + i + 1 && p.1 == y,
                        ),
                    ));
                }
                row.push(value);
                i = i + 1;
            }
            proof {
                assert(self@.cells =~= old(self)@.cells.remove_keys(
                    Set::new(
                        |p: (int, int)|
                            rect.min.x <= p.0 <= rect.max.x && rect.min.y <= p.1 < rect.min.y + j
                                + 1,
                    ),
                ));
            }
            values.push(row);
            j = j + 1;
        }
        proof {
            assert(self@.cells =~= old(self)@.cells.remove_keys(
                Set::new(|p: (int, int)| rect.spec_contains(p.0, p.1)),
            ));
            assert forall|b: int| 0 <= b < values@.len() implies #[trigger] matrix_model(
                values@,
            )[b] =~= old(self)@.rect_rows(rect)[b] by {
                assert forall|a: int| 0 <= a < width implies matrix_model(values@)[b][a] == old(
                    self,
                )@.rect_rows(rect)[b][a] by {
                    assert(values@[b]@[a]@ == old(self)@.value_or_blank(
                        rect.min.x + a,
                        rect.min.y + b,
                    ));
                }
            }
            assert(matrix_model(values@) =~= old(self)@.rect_rows(rect));
        }
        values
    }

    /// Moves every cell out of the store into `h` rows of `w` values; a cell
    /// that was absent comes out as `Blank`. The bounds stay.
    pub fn into_vec(&mut self) -> (values: Vec<Vec<CellValue>>)
        requires
            old(self).wf(),
        ensures
            final(self).wf(),
            final(self)@.w == old(self)@.w,
            final(self)@.h == old(self)@.h,
            final(self)@.cells == Map::<(int, int), CellModel>::empty(),
            matrix_model(values@) == old(self)@.all_rows(),
    {
        if self.w == 0 || self.h == 0 {
            assert(self@.cells =~= Map::<(int, int), CellModel>::empty());
            let values = blank_rows(self.w, self.h);
            proof {
                assert forall|b: int| 0 <= b < values@.len() implies #[trigger] matrix_model(
                    values@,
                )[b] =~= self@.all_rows()[b] by {
                    assert forall|a: int| 0 <= a < self.w implies matrix_model(values@)[b][a]
                        == self@.all_rows()[b][a] by {
                        assert(values@[b]@[a]@ == CellModel::Blank);
                    }
                }
                assert(matrix_model(values@) =~= self@.all_rows());
            }
            return values;
        }
        let rect = Rect::new(0, 0, self.w as i64 - 1, self.h as i64 - 1);
        let values = self.get_rect(rect);
        proof {
            assert(self@.cells =~= Map::<(int, int), CellModel>::empty());
            assert forall|b: int| 0 <= b < old(self).h implies #[trigger] old(self)@.rect_rows(
                rect,
            )[b] =~= old(self)@.all_rows()[b] by {}
            assert(old(self)@.rect_rows(rect) =~= old(self)@.all_rows());
        }
        values
    }

    /// The cells of the store as `h` rows of `w` values; a cell that was
    /// absent comes out as `Blank`.
    pub fn into_owned_vec(self) -> (values: Vec<Vec<CellValue>>)
        requires
            self.wf(),
        ensures
            matrix_model(values@) == self@.all_rows(),
    {
        let mut store = self;
        store.into_vec()
    }

    /// The store that holds `values`, given row by row, in `w` columns and
    /// `h` rows.
    pub fn from_flat_array(w: u32, h: u32, values: Vec<CellValue>) -> (r: CellValues)
        requires
            w * h == values@.len(),
        ensures
            r.wf(),
            r@.w == w,
            r@.h == h,
            r@.cells.dom() == Set::new(|p: (int, int)| 0 <= p.0 < w && 0 <= p.1 < h),
            forall|x: int, y: int|
                0 <= x < w && 0 <= y < h ==> #[trigger] r@.cells[(x, y)] == values@[y * w + x]@,
    {
        let mut r = CellValues::new(w, h);
        let mut values = values;
        let ghost all = values@;
        let mut n: usize = values.len();
        proof {
            assert forall|p: (int, int)| 0 <= p.0 < w && 0 <= p.1 < h implies p.1 * w + p.0
                < n by {
                lemma_row_major_bound(p.0, p.1, w as int, h as int);
            }
            assert(r@.cells.dom() =~= Set::new(
                |p: (int, int)| 0 <= p.0 < w && 0 <= p.1 < h && n <= p.1 * w + p.0,
            ));
        }
        while n > 0
            invariant
                n == values@.len(),
                n <= all.len(),
                w * h == all.len(),
                values@ == all.subrange(0, n as int),
                r.wf(),
                r.w == w,
                r.h == h,
                r@.cells.dom() == Set::new(
                    |p: (int, int)| 0 <= p.0 < w && 0 <= p.1 < h && n <= p.1 * w + p.0,
                ),
                forall|x: int, y: int|
                    0 <= x < w && 0 <= y < h && n <= y * w + x ==> #[trigger] r@.cells[(x, y)]
                        == all[y * w + x]@,
            decreases n,
        {
            let value = values.pop().unwrap();
            n = n - 1;
            assert(w > 0 && h > 0) by (nonlinear_arith)
                requires
                    w * h == all.len(),
                    all.len() > 0,
            ;
            let x: u32 = (n % (w as usize)) as u32;
            let y: u32 = (n / (w as usize)) as u32;
            proof {
                lemma_row_major(n as int, w as int, h as int);
                assert(value@ == all[n as int]@);
            }
            r.set(x, y, value);
            proof {
                assert forall|p: (int, int)|
                    (0 <= p.0 < w && 0 <= p.1 < h && n <= p.1 * w + p.0) == (p == (
                        x as int,
                        y as int,
                    ) || (0 <= p.0 < w && 0 <= p.1 < h && n + 1 <= p.1 * w + p.0)) by {
                    if 0 <= p.0 < w {
                        lemma_row_major_unique(p.0, p.1, x as int, y as int, w as int);
                    }
                }
                assert(r@.cells.dom() =~= Set::new(
                    |p: (int, int)| 0 <= p.0 < w && 0 <= p.1 < h && n <= p.1 * w + p.0,
                ));
                assert forall|a: int, b: int|
                    0 <= a < w && 0 <= b < h && n <= b * w + a implies #[trigger] r@.cells[(a, b)]
                    == all[b * w + a]@ by {
                    lemma_row_major_unique(a, b, x as int, y as int, w as int);
                }
            }
        }
        proof {
            assert forall|p: (int, int)| (0 <= p.0 < w && 0 <= p.1 < h && 0 <= p.1 * w + p.0) == (0
                <= p.0 < w && 0 <= p.1 < h) by {
                if 0 <= p.0 < w && 0 <= p.1 < h {
                    lemma_row_major_bound(p.0, p.1, w as int, h as int);
                }
            }
            assert(r@.cells.dom() =~= Set::new(|p: (int, int)| 0 <= p.0 < w && 0 <= p.1 < h));
            assert forall|x: int, y: int| 0 <= x < w && 0 <= y < h implies #[trigger] r@.cells[(
                x,
                y,
            )] == all[y * w + x]@ by {
                lemma_row_major_bound(x, y, w as int, h as int);
            }
        }
        r
    }

    /// The store that holds `values[y][x]` at `(x, y)`: one row of the store
    /// for each of `values`, as many columns as the longest of them has.
    pub fn from_cell_value_vec(values: Vec<Vec<CellValue>>) -> (r: CellValues)
        requires
            lists_fit(values@),
        ensures
            r.wf(),
            r@.h == values@.len(),
            longest_is(values@, r@.w as int),
            r@.cells.dom() == Set::new(
                |p: (int, int)| 0 <= p.1 < values@.len() && 0 <= p.0 < values@[p.1]@.len(),
            ),
            forall|x: int, y: int|
                0 <= y < values@.len() && 0 <= x < values@[y]@.len() ==> #[trigger] r@.cells[(x, y)]
                    == values@[y]@[x]@,
    {
        let w: usize = longest(&values);
        let h: usize = values.len();
        let mut r = CellValues::new(w as u32, h as u32);
        let mut values = values;
        let ghost all = values@;
        let mut n: usize = h;
        proof {
            assert(r@.cells.dom() =~= Set::new(
                |p: (int, int)| n <= p.1 < all.len() && 0 <= p.0 < all[p.1]@.len(),
            ));
        }
        while n > 0
            invariant
                n == values@.len(),
                n <= all.len(),
                values@ == all.subrange(0, n as int),
                lists_fit(all),
                longest_is(all, w as int),
                h == all.len(),
                r.wf(),
                r.w == w,
                r.h == h,
                r@.cells.dom() == Set::new(
                    |p: (int, int)| n <= p.1 < all.len() && 0 <= p.0 < all[p.1]@.len(),
                ),
                forall|x: int, y: int|
                    n <= y < all.len() && 0 <= x < all[y]@.len() ==> #[trigger] r@.cells[(x, y)]
                        == all[y]@[x]@,
            decreases n,
        {
            let mut row = values.pop().unwrap();
            n = n - 1;
            let y: u32 = n as u32;
            let ghost whole = row@;
            assert(whole == all[n as int]@);
            let mut m: usize = row.len();
            proof {
                assert(r@.cells.dom() =~= Set::new(
                    |p: (int, int)|
                        (n + 1 <= p.1 < all.len() && 0 <= p.0 < all[p.1]@.len()) || (p.1 == n && m
                            <= p.0 < whole.len()),
                ));
            }
            while m > 0
                invariant
                    m == row@.len(),
                    m <= whole.len(),
                    row@ == whole.subrange(0, m as int),
                    whole == all[n as int]@,
                    n < all.len(),
                    y == n,
                    lists_fit(all),
                    longest_is(all, w as int),
                    h == all.len(),
                    r.wf(),
                    r.w == w,
                    r.h == h,
                    r@.cells.dom() == Set::new(
                        |p: (int, int)|
                            (n + 1 <= p.1 < all.len() && 0 <= p.0 < all[p.1]@.len()) || (p.1 == n
                                && m <= p.0 < whole.len()),
                    ),
                    forall|a: int, b: int|
                        n + 1 <= b < all.len() && 0 <= a < all[b]@.len() ==> #[trigger] r@.cells[(
                            a,
                            b,
                        )] == all[b]@[a]@,
                    forall|a: int|
                        m <= a < whole.len() ==> #[trigger] r@.cells[(a, n as int)] == whole[a]@,
                decreases m,
            {
                let value = row.pop().unwrap();
                m = m - 1;
                let x: u32 = m as u32;
                assert(value@ == whole[m as int]@);
                r.set(x, y, value);
                proof {
                    assert(r@.cells.dom() =~= Set::new(
                        |p: (int, int)|
                            (n + 1 <= p.1 < all.len() && 0 <= p.0 < all[p.1]@.len()) || (p.1 == n
                                && m <= p.0 < whole.len()),
                    ));
                }
            }
            proof {
                assert(r@.cells.dom() =~= Set::new(
                    |p: (int, int)| n <= p.1 < all.len() && 0 <= p.0 < all[p.1]@.len(),
                ));
            }
        }
        r
    }

    /// The cells of the store with their coordinates, column by column and,
    /// within a column, by increasing row.
    pub fn into_iter(&self) -> (items: Vec<(u32, u32, &CellValue)>)
        requires
            self.wf(),
        ensures
            self@.listed(items@.map_values(|t: (u32, u32, &CellValue)| (t.0 as int, t.1 as int, t.2@))),
    {
        let mut items: Vec<(u32, u32, &CellValue)> = Vec::new();
        let ghost model = |t: (u32, u32, &CellValue)| (t.0 as int, t.1 as int, t.2@);
        let mut x: u32 = 0;
        while x < self.w
            invariant
                x <= self.w,
                self.wf(),
                model == |t: (u32, u32, &CellValue)| (t.0 as int, t.1 as int, t.2@),
                self@.listed_before(items@.map_values(model), (x as int, 0)),
            decreases self.w - x,
        {
            let rows = column_rows(&self.columns[x as usize]);
            let mut i: usize = 0;
            let ghost mut bound: int = 0;
            while i < rows.len()
                invariant
                    x < self.w,
                    i <= rows@.len(),
                    self.wf(),
                    model == |t: (u32, u32, &CellValue)| (t.0 as int, t.1 as int, t.2@),
                    forall|a: int, b: int| 0 <= a < b < rows@.len() ==> rows@[a] < rows@[b],
                    forall|k: u64| self.columns@[x as int]@.contains_key(k) <==> rows@.contains(k),
                    0 <= bound,
                    i == 0 ==> bound == 0,
                    i > 0 ==> bound == rows@[i - 1] + 1,
                    self@.listed_before(items@.map_values(model), (x as int, bound)),
                decreases rows@.len() - i,
            {
                let row: u64 = rows[i];
                let ghost before = items@.map_values(model);
                proof {
                    assert(rows@.contains(row));
                    lemma_rows_absent(self, rows@, x as int, i as int, bound, row as int);
                    lemma_listing_skips_rows(self@, before, x as int, bound, row as int);
                }
                match self.get(x, row as u32) {
                    Some(value) => {
                        items.push((x, row as u32, value));
                        proof {
                            let after = items@.map_values(model);
                            assert(after =~= before.push((x as int, row as int, value@)));
                            lemma_listing_grows(self@, before, x as int, row as int);
                        }
                    },
                    None => {},
                }
                proof {
                    bound = row + 1;
                }
                i = i + 1;
            }
            proof {
                let entries = items@.map_values(model);
                if bound <= self.h {
                    lemma_rows_absent(
                        self,
                        rows@,
                        x as int,
                        rows@.len() as int,
                        bound,
                        self.h as int,
                    );
                    lemma_listing_skips_rows(self@, entries, x as int, bound, self.h as int);
                }
                lemma_listing_next_column(self, entries, x as int);
            }
            x = x + 1;
        }
        items
    }

    /// The cells of the store with their coordinates, column by column and,
    /// within a column, by increasing row.
    pub fn into_owned_iter(self) -> (items: Vec<(u32, u32, CellValue)>)
        requires
            self.wf(),
        ensures
            self@.listed(items@.map_values(|t: (u32, u32, CellValue)| (t.0 as int, t.1 as int, t.2@))),
    {
        let mut store = self;
        let mut items: Vec<(u32, u32, CellValue)> = Vec::new();
        let ghost model = |t: (u32, u32, CellValue)| (t.0 as int, t.1 as int, t.2@);
        let mut x: u32 = 0;
        while x < store.w
            invariant
                x <= store.w,
                store.wf(),
                self.wf(),
                store.w == self.w,
                store.h == self.h,
                model == |t: (u32, u32, CellValue)| (t.0 as int, t.1 as int, t.2@),
                store@.cells == self@.cells.remove_keys(
                    Set::new(|p: (int, int)| column_major_before(p, (x as int, 0))),
                ),
                self@.listed_before(items@.map_values(model), (x as int, 0)),
            decreases store.w - x,
        {
            let rows = column_rows(&store.columns[x as usize]);
            let mut i: usize = 0;
            let ghost mut bound: int = 0;
            proof {
                assert forall|k: u64| self.columns@[x as int]@.contains_key(k) <==> rows@.contains(
                    k,
                ) by {
                    assert(self@.cells.contains_key((x as int, k as int))
                        == store@.cells.contains_key((x as int, k as int)));
                }
            }
            while i < rows.len()
                invariant
                    x < store.w,
                    i <= rows@.len(),
                    store.wf(),
                    self.wf(),
                    store.w == self.w,
                    store.h == self.h,
                    model == |t: (u32, u32, CellValue)| (t.0 as int, t.1 as int, t.2@),
                    forall|a: int, b: int| 0 <= a < b < rows@.len() ==> rows@[a] < rows@[b],
                    forall|k: u64| self.columns@[x as int]@.contains_key(k) <==> rows@.contains(k),
                    0 <= bound,
                    i == 0 ==> bound == 0,
                    i > 0 ==> bound == rows@[i - 1] + 1,
                    store@.cells == self@.cells.remove_keys(
                        Set::new(|p: (int, int)| column_major_before(p, (x as int, bound))),
                    ),
                    self@.listed_before(items@.map_values(model), (x as int, bound)),
                decreases rows@.len() - i,
            {
                let row: u64 = rows[i];
                let ghost before = items@.map_values(model);
                proof {
                    assert(rows@.contains(row));
                    lemma_rows_absent(&self, rows@, x as int, i as int, bound, row as int);
                    lemma_listing_skips_rows(self@, before, x as int, bound, row as int);
                    assert(store@.cells.contains_key((x as int, row as int)));
                }
                match store.remove(x, row as u32) {
                    Some(value) => {
                        proof {
                            lemma_listing_grows(self@, before, x as int, row as int);
                            assert(before.push((x as int, row as int, value@)) =~= items@.push(
                                (x, row as u32, value),
                            ).map_values(model));
                        }
                        items.push((x, row as u32, value));
                    },
                    None => {},
                }
                proof {
                    assert(store@.cells =~= self@.cells.remove_keys(
                        Set::new(|p: (int, int)| column_major_before(p, (x as int, row + 1))),
                    )) by {
                        assert forall|p: (int, int)| self@.cells.contains_key(p) implies (
                        column_major_before(p, (x as int, row + 1)) <==> (column_major_before(
                            p,
                            (x as int, bound),
                        ) || p == (x as int, row as int))) by {
                            if p.0 == x && bound <= p.1 < row {
                                assert(!self@.cells.contains_key((x as int, p.1)));
                            }
                        }
                    }
                    bound = row + 1;
                }
                i = i + 1;
            }
            proof {
                let entries = items@.map_values(model);
                if bound <= store.h {
                    lemma_rows_absent(
                        &self,
                        rows@,
                        x as int,
                        rows@.len() as int,
                        bound,
                        self.h as int,
                    );
                    lemma_listing_skips_rows(self@, entries, x as int, bound, self.h as int);
                }
                lemma_listing_next_column(&self, entries, x as int);
                assert(store@.cells =~= self@.cells.remove_keys(
                    Set::new(|p: (int, int)| column_major_before(p, (x as int + 1, 0))),
                )) by {
                    assert forall|p: (int, int)| self@.cells.contains_key(p) implies (
                    column_major_before(p, (x as int + 1, 0)) <==> column_major_before(
                        p,
                        (x as int, bound),
                    )) by {
                        if p.0 == x && bound <= p.1 {
                            assert(self.columns@[p.0]@.contains_key(p.1 as u64));
                            if bound <= store.h {
                                assert(!self@.cells.contains_key((x as int, p.1)));
                            }
                        }
                    }
                }
            }
            x = x + 1;
        }
        items
    }

    /// The store of one column and one row that holds `value`.
    pub fn from_cell_value(value: CellValue) -> (r: CellValues)
        ensures
            r.wf(),
            r@.w == 1,
            r@.h == 1,
            r@.cells == Map::<(int, int), CellModel>::empty().insert((0, 0), value@),
    {
        let mut c = CellValues::new(1, 1);
        c.set(0, 0, value);
        c
    }

    /// Number of cells inside the bounds.
    pub fn size(&self) -> (n: u32)
        requires
            self.w * self.h <= u32::MAX,
        ensures
            n == self.w * self.h,
    {
        self.w * self.h
    }

    /// Whether the bounds enclose no cell at all.
    pub fn is_empty(&self) -> (b: bool)
        ensures
            b == (self.w * self.h == 0),
    {
        assert(self.w * self.h == 0 <==> self.w == 0 || self.h == 0) by (nonlinear_arith);
        self.w == 0 || self.h == 0
    }
}

impl Default for CellValues {
    fn default() -> (r: CellValues)
        ensures
            r.wf(),
            r@.w == 0,
            r@.h == 0,
            r@.cells == Map::<(int, int), CellModel>::empty(),
    {
        CellValues::new(0, 0)
    }
}

impl Clone for CellValues {
    fn clone(&self) -> (r: CellValues)
        ensures
            self.wf() ==> r.wf(),
            r@ == self@,
    {
        let mut columns: Vec<BTreeMap<u64, CellValue>> = Vec::new();
        let mut x: usize = 0;
        while x < self.columns.len()
            invariant
                x <= self.columns@.len(),
                columns@.len() == x,
                forall|i: int| 0 <= i < x ==> #[trigger] columns@[i]@ == self.columns@[i]@,
            decreases self.columns@.len() - x,
        {
            columns.push(self.columns[x].clone());
            x = x + 1;
        }
        let r = CellValues { columns, w: self.w, h: self.h };
        assert(r@.cells =~= self@.cells);
        r
    }
}

/// Rows of cells become a store: `values[y][x]` comes to stand at `(x, y)`.
/// A matrix too large to be indexed by `u32` gives the empty store.
impl From<Vec<Vec<CellValue>>> for CellValues {
    fn from(values: Vec<Vec<CellValue>>) -> (r: CellValues)
        ensures
            r.wf(),
            lists_fit(values@) ==> r@.h == values@.len() && longest_is(values@, r@.w as int)
                && r@.cells.dom() == Set::new(
                |p: (int, int)| 0 <= p.1 < values@.len() && 0 <= p.0 < values@[p.1]@.len(),
            ) && forall|x: int, y: int|
                0 <= y < values@.len() && 0 <= x < values@[y]@.len() ==> #[trigger] r@.cells[(x, y)]
                    == values@[y]@[x]@,
            !lists_fit(values@) ==> r@.w == 0 && r@.h == 0 && r@.cells == Map::<
                (int, int),
                CellModel,
            >::empty(),
    {
        if fits(&values) {
            CellValues::from_cell_value_vec(values)
        } else {
            CellValues::new(0, 0)
        }
    }
}

impl FromSpecImpl<Vec<Vec<CellValue>>> for CellValues {
    open spec fn obeys_from_spec() -> bool {
        false
    }

    open spec fn from_spec(values: Vec<Vec<CellValue>>) -> CellValues {
        arbitrary()
    }
}

/// Whether the column-major matrix `columns` has a value at `(x, y)`.
pub open spec fn present_at(columns: Seq<Vec<Option<CellValue>>>, x: int, y: int) -> bool {
    0 <= x < columns.len() && 0 <= y < columns[x]@.len() && columns[x]@[y] is Some
}

/// Whether `h` is the height of the store made from the column-major matrix
/// `columns`: the length of its first column, or more where a value stands
/// further down in another.
pub open spec fn height_of(columns: Seq<Vec<Option<CellValue>>>, h: int) -> bool {
    &&& columns.len() == 0 ==> h == 0
    &&& columns.len() > 0 ==> columns[0]@.len() <= h
    &&& forall|x: int, y: int| #[trigger] present_at(columns, x, y) ==> y < h
    &&& (columns.len() > 0 && h == columns[0]@.len()) || columns.len() == 0 || exists|
        x: int,
        y: int,
    | #[trigger]
        present_at(columns, x, y) && y + 1 == h
}

/// Columns of optional cells become a store: the value of `values[x][y]`,
/// where there is one, comes to stand at `(x, y)`. A matrix too large to be
/// indexed by `u32` gives the empty store.
impl From<Vec<Vec<Option<CellValue>>>> for CellValues {
    fn from(values: Vec<Vec<Option<CellValue>>>) -> (r: CellValues)
        ensures
            r.wf(),
            lists_fit(values@) ==> r@.w == values@.len() && height_of(values@, r@.h as int)
                && r@.cells.dom() == Set::new(|p: (int, int)| present_at(values@, p.0, p.1))
                && forall|x: int, y: int| #[trigger]
                present_at(values@, x, y) ==> r@.cells[(x, y)] == values@[x]@[y]->0@,
            !lists_fit(values@) ==> r@.w == 0 && r@.h == 0 && r@.cells == Map::<
                (int, int),
                CellModel,
            >::empty(),
    {
        if !fits(&values) {
            return CellValues::new(0, 0);
        }
        let w: usize = values.len();
        let first: usize = if w > 0 {
            values[0].len()
        } else {
            0
        };
        let mut r = CellValues::new(w as u32, first as u32);
        let mut values = values;
        let ghost all = values@;
        let mut n: usize = w;
        proof {
            assert(r@.cells.dom() =~= Set::new(
                |p: (int, int)| n <= p.0 && present_at(all, p.0, p.1),
            ));
        }
        while n > 0
            invariant
                n == values@.len(),
                n <= all.len(),
                values@ == all.subrange(0, n as int),
                lists_fit(all),
                w == all.len(),
                w > 0 ==> first == all[0]@.len(),
                r.wf(),
                r.w == w,
                first <= r.h,
                r.h == first || exists|x: int, y: int| #[trigger]
                    present_at(all, x, y) && y + 1 == r.h,
                r@.cells.dom() == Set::new(|p: (int, int)| n <= p.0 && present_at(all, p.0, p.1)),
                forall|x: int, y: int|
                    n <= x && #[trigger] present_at(all, x, y) ==> r@.cells[(x, y)]
                        == all[x]@[y]->0@,
            decreases n,
        {
            let mut column = values.pop().unwrap();
            n = n - 1;
            let x: u32 = n as u32;
            let ghost whole = column@;
            assert(whole == all[n as int]@);
            let mut m: usize = column.len();
            proof {
                assert(r@.cells.dom() =~= Set::new(
                    |p: (int, int)|
                        present_at(all, p.0, p.1) && (n + 1 <= p.0 || (p.0 == n && m <= p.1)),
                ));
            }
            while m > 0
                invariant
                    m == column@.len(),
                    m <= whole.len(),
                    column@ == whole.subrange(0, m as int),
                    whole == all[n as int]@,
                    n < all.len(),
                    x == n,
                    lists_fit(all),
                    w == all.len(),
                    w > 0 ==> first == all[0]@.len(),
                    r.wf(),
                    r.w == w,
                    first <= r.h,
                    r.h == first || exists|x: int, y: int| #[trigger]
                        present_at(all, x, y) && y + 1 == r.h,
                    r@.cells.dom() == Set::new(
                        |p: (int, int)|
                            present_at(all, p.0, p.1) && (n + 1 <= p.0 || (p.0 == n && m <= p.1)),
                    ),
                    forall|a: int, b: int|
                        (n + 1 <= a || (a == n && m <= b)) && #[trigger] present_at(all, a, b)
                            ==> r@.cells[(a, b)] == all[a]@[b]->0@,
                decreases m,
            {
                let entry = column.pop().unwrap();
                m = m - 1;
                let y: u32 = m as u32;
                assert(entry == whole[m as int]);
                match entry {
                    Some(value) => {
                        assert(present_at(all, n as int, m as int));
                        r.set(x, y, value);
                    },
                    None => {},
                }
                proof {
                    assert(r@.cells.dom() =~= Set::new(
                        |p: (int, int)|
                            present_at(all, p.0, p.1) && (n + 1 <= p.0 || (p.0 == n && m <= p.1)),
                    ));
                }
            }
            proof {
                assert(r@.cells.dom() =~= Set::new(
                    |p: (int, int)| n <= p.0 && present_at(all, p.0, p.1),
                ));
            }
        }
        proof {
            assert(r@.cells.dom() =~= Set::new(|p: (int, int)| present_at(all, p.0, p.1)));
            assert forall|x: int, y: int| #[trigger] present_at(all, x, y) implies y < r.h by {
                assert(r@.cells.contains_key((x, y)));
                assert(r.columns@[x]@.contains_key(y as u64));
            }
        }
        r
    }
}

impl FromSpecImpl<Vec<Vec<Option<CellValue>>>> for CellValues {
    open spec fn obeys_from_spec() -> bool {
        false
    }

    open spec fn from_spec(values: Vec<Vec<Option<CellValue>>>) -> CellValues {
        arbitrary()
    }
}

/// Whether the column-major matrix of texts `columns` has a text that is
/// not empty at `(x, y)`.
pub open spec fn text_at(columns: Seq<Vec<&str>>, x: int, y: int) -> bool {
    0 <= x < columns.len() && 0 <= y < columns[x]@.len() && columns[x]@[y]@.len() > 0
}

/// Columns of texts become a store: `values[x][y]`, unless it is empty, comes
/// to stand at `(x, y)` as text. A matrix too large to be indexed by `u32`
/// gives the empty store.
impl From<Vec<Vec<&str>>> for CellValues {
    fn from(values: Vec<Vec<&str>>) -> (r: CellValues)
        ensures
            r.wf(),
            lists_fit(values@) ==> r@.w == values@.len() && longest_is(values@, r@.h as int)
                && r@.cells.dom() == Set::new(|p: (int, int)| text_at(values@, p.0, p.1))
                && forall|x: int, y: int| #[trigger]
                text_at(values@, x, y) ==> r@.cells[(x, y)] == CellModel::Text(values@[x]@[y]@),
            !lists_fit(values@) ==> r@.w == 0 && r@.h == 0 && r@.cells == Map::<
                (int, int),
                CellModel,
            >::empty(),
    {
        if !fits(&values) {
            return CellValues::new(0, 0);
        }
        let w: usize = values.len();
        let h: usize = longest(&values);
        let mut r = CellValues::new(w as u32, h as u32);
        let mut x: usize = 0;
        proof {
            assert(r@.cells.dom() =~= Set::new(
                |p: (int, int)| p.0 < x && text_at(values@, p.0, p.1),
            ));
        }
        while x < w
            invariant
                x <= w,
                w == values@.len(),
                lists_fit(values@),
                longest_is(values@, h as int),
                r.wf(),
                r.w == w,
                r.h == h,
                r@.cells.dom() == Set::new(|p: (int, int)| p.0 < x && text_at(values@, p.0, p.1)),
                forall|a: int, b: int|
                    a < x && #[trigger] text_at(values@, a, b) ==> r@.cells[(a, b)]
                        == CellModel::Text(values@[a]@[b]@),
            decreases w - x,
        {
            let column = &values[x];
            let mut y: usize = 0;
            proof {
                assert(r@.cells.dom() =~= Set::new(
                    |p: (int, int)| text_at(values@, p.0, p.1) && (p.0 < x || (p.0 == x && p.1 < y)),
                ));
            }
            while y < column.len()
                invariant
                    x < w,
                    y <= column@.len(),
                    column@ == values@[x as int]@,
                    w == values@.len(),
                    lists_fit(values@),
                    longest_is(values@, h as int),
                    r.wf(),
                    r.w == w,
                    r.h == h,
                    r@.cells.dom() == Set::new(
                        |p: (int, int)|
                            text_at(values@, p.0, p.1) && (p.0 < x || (p.0 == x && p.1 < y)),
                    ),
                    forall|a: int, b: int|
                        (a < x || (a == x && b < y)) && #[trigger] text_at(values@, a, b)
                            ==> r@.cells[(a, b)] == CellModel::Text(values@[a]@[b]@),
                decreases column@.len() - y,
            {
                let text: &str = column[y];
                if !text.is_empty() {
                    assert(text_at(values@, x as int, y as int));
                    r.set(x as u32, y as u32, CellValue::from(text));
                }
                y = y + 1;
                proof {
                    assert(r@.cells.dom() =~= Set::new(
                        |p: (int, int)|
                            text_at(values@, p.0, p.1) && (p.0 < x || (p.0 == x && p.1 < y)),
                    ));
                }
            }
            x = x + 1;
            proof {
                assert(r@.cells.dom() =~= Set::new(
                    |p: (int, int)| p.0 < x && text_at(values@, p.0, p.1),
                ));
            }
        }
        proof {
            assert(r@.cells.dom() =~= Set::new(|p: (int, int)| text_at(values@, p.0, p.1)));
        }
        r
    }
}

impl FromSpecImpl<Vec<Vec<&str>>> for CellValues {
    open spec fn obeys_from_spec() -> bool {
        false
    }

    open spec fn from_spec(values: Vec<Vec<&str>>) -> CellValues {
        arbitrary()
    }
}

/// One value becomes the store of one column and one row that holds it.
impl From<CellValue> for CellValues {
    fn from(value: CellValue) -> (r: CellValues)
        ensures
            r.wf(),
            r@.w == 1,
            r@.h == 1,
            r@.cells == Map::<(int, int), CellModel>::empty().insert((0, 0), value@),
    {
        CellValues::from_cell_value(value)
    }
}

impl FromSpecImpl<CellValue> for CellValues {
    open spec fn obeys_from_spec() -> bool {
        false
    }

    open spec fn from_spec(value: CellValue) -> CellValues {
        arbitrary()
    }
}

/// A block of values becomes the store that holds each of them at its
/// place.
impl From<Array> for CellValues {
    fn from(array: Array) -> (r: CellValues)
        ensures
            r.wf(),
            r@.w == array@.w,
            r@.h == array@.h,
            r@.cells.dom() == Set::new(|p: (int, int)| 0 <= p.0 < array@.w && 0 <= p.1 < array@.h),
            forall|x: int, y: int|
                0 <= x < array@.w && 0 <= y < array@.h ==> #[trigger] r@.cells[(x, y)] == array@.at(
                    x,
                    y,
                ),
    {
        let size = array.size();
        let values = array.into_cell_values_vec();
        CellValues::from_flat_array(size.w, size.h, values)
    }
}

impl FromSpecImpl<Array> for CellValues {
    open spec fn obeys_from_spec() -> bool {
        false
    }

    open spec fn from_spec(array: Array) -> CellValues {
        arbitrary()
    }
}

/// A store after a write, `after`, against the store before it: its bounds
/// are those of before, grown to hold the cell written and no further; the
/// cell written lies within them, so that it can be read, and the read
/// gives the value written; every other cell reads as before; and a
/// checked read outside the new bounds fails.
pub proof fn lemma_write_then_read(
    before: CellValues,
    after: CellValues,
    x: u32,
    y: u32,
    value: CellValue,
)
    requires
        before.wf(),
        x < u32::MAX,
        y < u32::MAX,
        after@ == before@.with_cell(x as int, y as int, value@),
    ensures
        after.w == (if x < before.w {
            before.w as int
        } else {
            x + 1
        }),
        after.h == (if y < before.h {
            before.h as int
        } else {
            y + 1
        }),
        x < after.w && y < after.h,
        after@.cell(x as int, y as int) == Some(value@),
        after@.checked_cell(x, y) == Ok::<CellModel, CellValuesError>(value@),
        forall|a: u32, b: u32|
            (a, b) != (x, y) ==> #[trigger] after@.cell(a as int, b as int) == before@.cell(
                a as int,
                b as int,
            ),
        forall|a: u32, b: u32|
            !(a < after.w && b < after.h) ==> #[trigger] after@.checked_cell(a, b)
                == Err::<CellModel, CellValuesError>(
                CellValuesError::OutOfBounds { w: after.w, h: after.h, x: a, y: b },
            ),
{
}

impl CellValues {
    /// Whether the store is well formed: it has one column for each unit
    /// of its width, and every value stands within its height.
    pub fn is_well_formed(&self) -> (yes: bool)
        ensures
            yes == self.wf(),
    {
        if self.columns.len() != self.w as usize {
            return false;
        }
        let mut x: usize = 0;
        while x < self.columns.len()
            invariant
                x <= self.columns@.len(),
                forall|i: int, y: u64|
                    0 <= i < x && #[trigger] self.columns@[i]@.contains_key(y) ==> y < self.h,
            decreases self.columns@.len() - x,
        {
            let rows = column_rows(&self.columns[x]);
            let mut k: usize = 0;
            while k < rows.len()
                invariant
                    k <= rows@.len(),
                    x < self.columns@.len(),
                    forall|y: u64| self.columns@[x as int]@.contains_key(y) <==> rows@.contains(y),
                    forall|j: int| 0 <= j < k ==> rows@[j] < self.h,
                decreases rows@.len() - k,
            {
                if rows[k] >= self.h as u64 {
                    proof {
                        assert(rows@.contains(rows@[k as int]));
                        assert(self.columns@[x as int]@.contains_key(rows@[k as int]));
                    }
                    return false;
                }
                k = k + 1;
            }
            proof {
                assert forall|y: u64| #[trigger]
                    self.columns@[x as int]@.contains_key(y) implies y < self.h by {
                    assert(rows@.contains(y));
                }
            }
            x = x + 1;
        }
        true
    }
}

/// A store becomes its `h` rows of `w` values each; a cell that was absent
/// comes out as `Blank`. A store that is not well formed has no rows.
impl From<CellValues> for Vec<Vec<CellValue>> {
    fn from(store: CellValues) -> (rows: Vec<Vec<CellValue>>)
        ensures
            store.wf() ==> matrix_model(rows@) == store@.all_rows(),
            !store.wf() ==> rows@.len() == 0,
    {
        if store.is_well_formed() {
            store.into_owned_vec()
        } else {
            Vec::new()
        }
    }
}

impl FromSpecImpl<CellValues> for Vec<Vec<CellValue>> {
    open spec fn obeys_from_spec() -> bool {
        false
    }

    open spec fn from_spec(store: CellValues) -> Vec<Vec<CellValue>> {
        arbitrary()
    }
}

/// `h` rows of `w` blank values.
fn blank_rows(w: u32, h: u32) -> (values: Vec<Vec<CellValue>>)
    ensures
        values@.len() == h,
        forall|j: int| 0 <= j < values@.len() ==> (#[trigger] values@[j])@.len() == w,
        forall|i: int, j: int|
            0 <= j < h && 0 <= i < w ==> (#[trigger] values@[j]@[i])@ == CellModel::Blank,
{
    let mut values: Vec<Vec<CellValue>> = Vec::new();
    let mut j: u32 = 0;
    while j < h
        invariant
            j <= h,
            values@.len() == j,
            forall|b: int| 0 <= b < j ==> (#[trigger] values@[b])@.len() == w,
            forall|a: int, b: int|
                0 <= b < j && 0 <= a < w ==> (#[trigger] values@[b]@[a])@ == CellModel::Blank,
        decreases h - j,
    {
        let mut row: Vec<CellValue> = Vec::new();
        let mut i: u32 = 0;
        while i < w
            invariant
                i <= w,
                row@.len() == i,
                forall|a: int| 0 <= a < i ==> (#[trigger] row@[a])@ == CellModel::Blank,
            decreases w - i,
        {
            row.push(CellValue::Blank);
            i = i + 1;
        }
        values.push(row);
        j = j + 1;
    }
    values
}

/// The length of the longest of `lists`.
fn longest<T>(lists: &Vec<Vec<T>>) -> (n: usize)
    ensures
        longest_is(lists@, n as int),
{
    let mut n: usize = 0;
    let mut j: usize = 0;
    while j < lists.len()
        invariant
            j <= lists@.len(),
            forall|k: int| 0 <= k < j ==> (#[trigger] lists@[k])@.len() <= n,
            n == 0 || exists|k: int| 0 <= k < j && (#[trigger] lists@[k])@.len() == n,
        decreases lists@.len() - j,
    {
        if lists[j].len() > n {
            n = lists[j].len();
        }
        j = j + 1;
    }
    n
}

/// Whether every list of `lists`, and their number, can be indexed by `u32`.
fn fits<T>(lists: &Vec<Vec<T>>) -> (b: bool)
    ensures
        b == lists_fit(lists@),
{
    if lists.len() > u32::MAX as usize {
        return false;
    }
    let mut j: usize = 0;
    while j < lists.len()
        invariant
            j <= lists@.len(),
            forall|k: int| 0 <= k < j ==> (#[trigger] lists@[k])@.len() <= u32::MAX,
        decreases lists@.len() - j,
    {
        if lists[j].len() > u32::MAX as usize {
            return false;
        }
        j = j + 1;
    }
    true
}

/// The rows at which the column holds a value, in increasing order.
pub(crate) fn column_rows(column: &BTreeMap<u64, CellValue>) -> (rows: Vec<u64>)
    ensures
        forall|i: int, j: int| 0 <= i < j < rows@.len() ==> rows@[i] < rows@[j],
        forall|k: u64| column@.contains_key(k) <==> rows@.contains(k),
{
    let mut rows: Vec<u64> = Vec::new();
    let probe = column.iter();
    let ghost all = probe.remaining();
    proof {
        crate::ordered_rows::lemma_rows_increase(all.map_values(|kv: (&u64, &CellValue)| *kv.0));
    }
    for kv in it: column.iter()
        invariant
            it.seq() == all,
            rows@.len() == it.index(),
            forall|i: int| 0 <= i < rows@.len() ==> rows@[i] == *all[i].0,
    {
        rows.push(*kv.0);
    }
    proof {
        assert forall|i: int, j: int| 0 <= i < j < rows@.len() implies rows@[i] < rows@[j] by {
            let keys = all.map_values(|kv: (&u64, &CellValue)| *kv.0);
            assert(keys[i] < keys[j]);
        }
        assert forall|k: u64| column@.contains_key(k) implies rows@.contains(k) by {
            assert(all.contains((&k, &column@[k])));
            let i = choose|i: int| 0 <= i < all.len() && all[i] == (&k, &column@[k]);
            assert(rows@[i] == k);
        }
        assert forall|k: u64| rows@.contains(k) implies column@.contains_key(k) by {
            let i = choose|i: int| 0 <= i < rows@.len() && rows@[i] == k;
            assert(column@.contains_key(*all[i].0));
        }
    }
    rows
}

/// `BTreeMap::get_mut` on one column: a mutable reference to the value stored
/// under `row`, if there is one. The column afterwards differs from the column
/// before only in that value.
#[verifier::external_body]
fn column_value_mut<'a>(column: &'a mut BTreeMap<u64, CellValue>, row: u64) -> (r: Option<
    &'a mut CellValue,
>)
    ensures
        match r {
            Some(v) => old(column)@.contains_key(row) && *v == old(column)@[row] && final(column)@ == old(column)@.insert(row, *final(v)),
            None => !old(column)@.contains_key(row) && final(column)@ == old(column)@,
        },
{
    column.get_mut(&row)
}

/// A cell of a grid with `w` columns and `h` rows has a row-major position
/// below `w * h`.
proof fn lemma_row_major_bound(x: int, y: int, w: int, h: int)
    requires
        0 <= x < w,
        0 <= y < h,
    ensures
        0 <= y * w + x < w * h,
{
    assert(0 <= y * w && y * w + w <= w * h) by (nonlinear_arith)
        requires
            0 <= y,
            y + 1 <= h,
            0 < w,
    ;
}

/// Position `n` of a row-major listing of `w` columns and `h` rows lies in
/// column `n % w` of row `n / w`.
proof fn lemma_row_major(n: int, w: int, h: int)
    requires
        0 <= n < w * h,
        0 < w,
        0 <= h,
    ensures
        0 <= n % w < w,
        0 <= n / w < h,
        (n / w) * w + n % w == n,
{
    vstd::arithmetic::div_mod::lemma_fundamental_div_mod(n, w);
    vstd::arithmetic::div_mod::lemma_mod_bound(n, w);
    assert(w * (n / w) == (n / w) * w) by (nonlinear_arith);
    assert(0 <= n / w) by (nonlinear_arith)
        requires
            0 <= n,
            0 < w,
    ;
    assert(n / w < h) by (nonlinear_arith)
        requires
            (n / w) * w + n % w == n,
            0 <= n % w,
            n < w * h,
            0 < w,
    ;
}

/// Two cells of a grid with `w` columns share a row-major position only
/// when they are the same cell.
proof fn lemma_row_major_unique(a: int, b: int, x: int, y: int, w: int)
    requires
        0 <= a < w,
        0 <= x < w,
    ensures
        (b * w + a == y * w + x) <==> (a == x && b == y),
        b * w + a != y * w + x ==> (b * w + a < y * w + x <==> (b < y || (b == y && a < x))),
{
    if b < y {
        assert(b * w + w <= y * w) by (nonlinear_arith)
            requires
                b + 1 <= y,
                0 < w,
        ;
    } else if y < b {
        assert(y * w + w <= b * w) by (nonlinear_arith)
            requires
                y + 1 <= b,
                0 < w,
        ;
    }
}

/// A listing of the cells before `(x, y)`, extended by the cell at `(x, y)`,
/// lists the cells before `(x, y + 1)`.
proof fn lemma_listing_grows(grid: SparseGrid, before: Seq<(int, int, CellModel)>, x: int, y: int)
    requires
        grid.listed_before(before, (x, y)),
        grid.cells.contains_key((x, y)),
    ensures
        grid.listed_before(before.push((x, y, grid.cells[(x, y)])), (x, y + 1)),
{
    let after = before.push((x, y, grid.cells[(x, y)]));
    assert forall|p: (int, int)|
        #[trigger] grid.cells.contains_key(p) && column_major_before(p, (x, y + 1)) implies exists|
        i: int,
    |
        0 <= i < after.len() && #[trigger] entry_key(after[i]) == p by {
        if p == (x, y) {
            assert(entry_key(after[before.len() as int]) == p);
        } else {
            assert(column_major_before(p, (x, y)));
            let i = choose|i: int| 0 <= i < before.len() && #[trigger] entry_key(before[i]) == p;
            assert(entry_key(after[i]) == p);
        }
    }
    assert forall|i: int| 0 <= i < after.len() implies {
        let key = #[trigger] entry_key(after[i]);
        grid.cells.contains_key(key) && grid.cells[key] == after[i].2 && column_major_before(
            key,
            (x, y + 1),
        )
    } by {
        if i < before.len() {
            assert(entry_key(before[i]) == entry_key(after[i]));
        }
    }
    assert forall|i: int, j: int| 0 <= i < j < after.len() implies column_major_before(
        #[trigger] entry_key(after[i]),
        #[trigger] entry_key(after[j]),
    ) by {
        assert(entry_key(before[i]) == entry_key(after[i]));
        if j < before.len() {
            assert(entry_key(before[j]) == entry_key(after[j]));
        }
    }
}

/// A listing of the cells before `(x, from)` lists the cells before
/// `(x, to)` where the grid has no cell in column `x` from row `from` up to
/// row `to`.
proof fn lemma_listing_skips_rows(
    grid: SparseGrid,
    entries: Seq<(int, int, CellModel)>,
    x: int,
    from: int,
    to: int,
)
    requires
        grid.listed_before(entries, (x, from)),
        from <= to,
        forall|r: int| from <= r < to ==> !grid.cells.contains_key((x, r)),
    ensures
        grid.listed_before(entries, (x, to)),
{
    assert forall|p: (int, int)|
        #[trigger] grid.cells.contains_key(p) && column_major_before(p, (x, to)) implies exists|
        i: int,
    |
        0 <= i < entries.len() && #[trigger] entry_key(entries[i]) == p by {
        if p.0 == x && from <= p.1 {
            assert(!grid.cells.contains_key((x, p.1)));
        }
        assert(column_major_before(p, (x, from)));
    }
}

/// Where `rows` lists the rows of column `x` in increasing order and the
/// first `i` of them lie below `from`, the column has no cell from row
/// `from` up to row `to`, the next of them or the end.
proof fn lemma_rows_absent(store: &CellValues, rows: Seq<u64>, x: int, i: int, from: int, to: int)
    requires
        0 <= x < store.columns@.len(),
        0 <= i <= rows.len(),
        forall|a: int, b: int| 0 <= a < b < rows.len() ==> rows[a] < rows[b],
        forall|k: u64| store.columns@[x]@.contains_key(k) <==> rows.contains(k),
        0 <= from,
        i > 0 ==> rows[i - 1] < from,
        i < rows.len() ==> to <= rows[i],
    ensures
        forall|r: int| from <= r < to ==> !store@.cells.contains_key((x, r)),
{
    assert forall|r: int| from <= r < to implies !store@.cells.contains_key((x, r)) by {
        if store@.cells.contains_key((x, r)) {
            assert(rows.contains(r as u64));
            let j = choose|j: int| 0 <= j < rows.len() && rows[j] == r as u64;
            if j < i {
                if j < i - 1 {
                    assert(rows[j] < rows[i - 1]);
                }
            } else {
                if j > i {
                    assert(rows[i] < rows[j]);
                }
            }
        }
    }
}

/// A listing of the cells before the end of column `x` lists the cells
/// before column `x + 1`.
proof fn lemma_listing_next_column(store: &CellValues, entries: Seq<(int, int, CellModel)>, x: int)
    requires
        store.wf(),
        0 <= x < store.w,
        store@.listed_before(entries, (x, store.h as int)),
    ensures
        store@.listed_before(entries, (x + 1, 0)),
{
    let grid = store@;
    assert forall|p: (int, int)|
        #[trigger] grid.cells.contains_key(p) && column_major_before(p, (x + 1, 0)) implies exists|
        i: int,
    |
        0 <= i < entries.len() && #[trigger] entry_key(entries[i]) == p by {
        assert(store.columns@[p.0]@.contains_key(p.1 as u64));
        assert(column_major_before(p, (x, store.h as int)));
    }
}

} // verus!
