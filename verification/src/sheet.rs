//! A sheet as an import builds it: a name, an ordering key and cells.

use crate::cell_value::{CellModel, CellValue};
use crate::cell_values::column_rows;
use crate::pos::{Pos, SheetId};
use std::collections::BTreeMap;
use vstd::prelude::*;

verus! {

/// A sheet with the cells that an import has put on it. The cells are kept
/// in one map, under a key made of column and row.
#[derive(Debug, Clone, PartialEq)]
pub struct Sheet {
    pub id: SheetId,
    pub name: String,
    pub order: String,
    pub cells: BTreeMap<u64, CellValue>,
}

/// Mathematical model of a [`Sheet`]: its cells by position, columns and
/// rows counted from 1.
pub struct SheetModel {
    pub id: SheetId,
    pub name: Seq<char>,
    pub order: Seq<char>,
    pub cells: Map<(int, int), CellModel>,
}

/// Number of columns, and of rows, that a sheet has.
pub const SHEET_SPAN: u64 = 0x1_0000_0000;

/// Whether a sheet has a cell at column `x`, row `y`: columns and rows
/// count from 1 up to [`SHEET_SPAN`].
pub open spec fn on_sheet(x: int, y: int) -> bool {
    1 <= x <= SHEET_SPAN && 1 <= y <= SHEET_SPAN
}

/// The key under which the cell at column `x`, row `y` is kept: cells are
/// ordered by column and, within a column, by row.
pub open spec fn cell_key(x: int, y: int) -> int {
    (x - 1) * SHEET_SPAN + (y - 1)
}

impl View for Sheet {
    type V = SheetModel;

    open spec fn view(&self) -> SheetModel {
        SheetModel {
            id: self.id,
            name: self.name@,
            order: self.order@,
            cells: Map::new(
                |p: (int, int)|
                    on_sheet(p.0, p.1) && self.cells@.contains_key(cell_key(p.0, p.1) as u64),
                |p: (int, int)| self.cells@[cell_key(p.0, p.1) as u64]@,
            ),
        }
    }
}

impl SheetModel {
    /// Whether `entries` holds exactly the cells of the sheet, each once,
    /// column by column and, within a column, by increasing row.
    pub open spec fn listed(self, entries: Seq<(Pos, CellModel)>) -> bool {
        &&& forall|i: int|
            0 <= i < entries.len() ==> self.cells.contains_key(
                ((#[trigger] entries[i]).0.x as int, entries[i].0.y as int),
            ) && self.cells[(entries[i].0.x as int, entries[i].0.y as int)] == entries[i].1
        &&& forall|p: (int, int)| #[trigger]
            self.cells.contains_key(p) ==> exists|i: int|
                0 <= i < entries.len() && (#[trigger] entries[i]).0 == (Pos {
                    x: p.0 as i64,
                    y: p.1 as i64,
                })
        &&& forall|i: int, j: int|
            0 <= i < j < entries.len() ==> (#[trigger] entries[i]).0.x < (#[trigger] entries[j]).0.x
                || (entries[i].0.x == entries[j].0.x && entries[i].0.y < entries[j].0.y)
    }
}

impl Sheet {
    /// A sheet without cells.
    pub fn new(id: SheetId, name: String, order: String) -> (s: Sheet)
        ensures
            s@.id == id,
            s@.name == name@,
            s@.order == order@,
            s@.cells == Map::<(int, int), CellModel>::empty(),
    {
        let s = Sheet { id, name, order, cells: BTreeMap::new() };
        assert(s@.cells =~= Map::<(int, int), CellModel>::empty());
        s
    }

    /// Puts `value` at `pos`, over what was there. A position that the
    /// sheet does not have is refused and changes nothing.
    pub fn set_cell_value(&mut self, pos: Pos, value: CellValue) -> (done: bool)
        ensures
            done == on_sheet(pos.x as int, pos.y as int),
            final(self)@.id == old(self)@.id,
            final(self)@.name == old(self)@.name,
            final(self)@.order == old(self)@.order,
            done ==> final(self)@.cells == old(self)@.cells.insert(
                (pos.x as int, pos.y as int),
                value@,
            ),
            !done ==> final(self)@.cells == old(self)@.cells,
    {
        if pos.x < 1 || pos.x > SHEET_SPAN as i64 || pos.y < 1 || pos.y > SHEET_SPAN as i64 {
            return false;
        }
        let key: u64 = (pos.x - 1) as u64 * SHEET_SPAN + (pos.y - 1) as u64;
        self.cells.insert(key, value);
        assert(final(self)@.cells =~= old(self)@.cells.insert((pos.x as int, pos.y as int), value@));
        true
    }

    /// The value at `pos`, if there is one.
    pub fn cell_value(&self, pos: Pos) -> (r: Option<&CellValue>)
        ensures
            match r {
                Some(v) => self@.cells.contains_key((pos.x as int, pos.y as int)) && v@
                    == self@.cells[(pos.x as int, pos.y as int)],
                None => !self@.cells.contains_key((pos.x as int, pos.y as int)),
            },
    {
        if pos.x < 1 || pos.x > SHEET_SPAN as i64 || pos.y < 1 || pos.y > SHEET_SPAN as i64 {
            return None;
        }
        let key: u64 = (pos.x - 1) as u64 * SHEET_SPAN + (pos.y - 1) as u64;
        self.cells.get(&key)
    }

    /// The cells of the sheet with their positions, column by column and,
    /// within a column, by increasing row.
    pub fn cell_list(&self) -> (cells: Vec<(Pos, &CellValue)>)
        ensures
            self@.listed(cells@.map_values(|c: (Pos, &CellValue)| (c.0, c.1@))),
    {
        let keys = column_rows(&self.cells);
        let mut cells: Vec<(Pos, &CellValue)> = Vec::new();
        let ghost model = |c: (Pos, &CellValue)| (c.0, c.1@);
        let mut i: usize = 0;
        while i < keys.len()
            invariant
                i <= keys@.len(),
                model == |c: (Pos, &CellValue)| (c.0, c.1@),
                forall|a: int, b: int| 0 <= a < b < keys@.len() ==> keys@[a] < keys@[b],
                forall|k: u64| self.cells@.contains_key(k) <==> keys@.contains(k),
                cells@.len() == i,
                forall|a: int|
                    0 <= a < i ==> cell_key(
                        (#[trigger] cells@[a]).0.x as int,
                        cells@[a].0.y as int,
                    ) == keys@[a] && on_sheet(cells@[a].0.x as int, cells@[a].0.y as int)
                        && cells@[a].1@ == self.cells@[keys@[a]]@,
            decreases keys@.len() - i,
        {
            let key: u64 = keys[i];
            assert(keys@.contains(key));
            assert(self.cells@.contains_key(key));
            let column: u64 = key / SHEET_SPAN;
            let row: u64 = key % SHEET_SPAN;
            assert(column * SHEET_SPAN + row == key);
            assert(column <= 0xFFFF_FFFF && row <= 0xFFFF_FFFF) by {
                assert(SHEET_SPAN == 0x1_0000_0000);
                if column > 0xFFFF_FFFF {
                    assert(column * SHEET_SPAN >= 0x1_0000_0000 * 0x1_0000_0000) by (nonlinear_arith)
                        requires
                            column >= 0x1_0000_0000,
                            SHEET_SPAN == 0x1_0000_0000,
                    ;
                }
            }
            let pos = Pos { x: column as i64 + 1, y: row as i64 + 1 };
            assert(cell_key(pos.x as int, pos.y as int) == key);
            match self.cells.get(&key) {
                Some(value) => {
                    cells.push((pos, value));
                },
                None => {
                    assert(false);
                },
            }
            i = i + 1;
        }
        proof {
            let entries = cells@.map_values(model);
            assert forall|i: int| 0 <= i < entries.len() implies self@.cells.contains_key(
                ((#[trigger] entries[i]).0.x as int, entries[i].0.y as int),
            ) && self@.cells[(entries[i].0.x as int, entries[i].0.y as int)] == entries[i].1 by {
                assert(keys@.contains(keys@[i]));
                assert(cell_key(cells@[i].0.x as int, cells@[i].0.y as int) == keys@[i]);
            }
            assert forall|p: (int, int)| #[trigger] self@.cells.contains_key(p) implies exists|
                i: int,
            |
                0 <= i < entries.len() && (#[trigger] entries[i]).0 == (Pos {
                    x: p.0 as i64,
                    y: p.1 as i64,
                }) by {
                let key = cell_key(p.0, p.1) as u64;
                assert(keys@.contains(key));
                let i = choose|i: int| 0 <= i < keys@.len() && keys@[i] == key;
                assert(cell_key(cells@[i].0.x as int, cells@[i].0.y as int) == key);
                assert(entries[i].0 == (Pos { x: p.0 as i64, y: p.1 as i64 }));
            }
            assert forall|i: int, j: int| 0 <= i < j < entries.len() implies (
            #[trigger] entries[i]).0.x < (#[trigger] entries[j]).0.x || (entries[i].0.x
                == entries[j].0.x && entries[i].0.y < entries[j].0.y) by {
                assert(keys@[i] < keys@[j]);
                assert(cell_key(cells@[i].0.x as int, cells@[i].0.y as int) == keys@[i]);
                assert(cell_key(cells@[j].0.x as int, cells@[j].0.y as int) == keys@[j]);
            }
        }
        cells
    }
}

} // verus!
