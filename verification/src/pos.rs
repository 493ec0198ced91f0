//! Positions and rectangles on a sheet.

use vstd::prelude::*;

verus! {

/// Identifier of a sheet.
#[derive(Clone, Copy, Debug, PartialEq, Eq, Structural)]
pub struct SheetId {
    pub id: u64,
}

/// A cell position; columns and rows of a sheet are counted from 1.
#[derive(Clone, Copy, Debug, PartialEq, Eq, Structural)]
pub struct Pos {
    pub x: i64,
    pub y: i64,
}

/// A cell position on a given sheet.
#[derive(Clone, Copy, Debug, PartialEq, Eq, Structural)]
pub struct SheetPos {
    pub x: i64,
    pub y: i64,
    pub sheet_id: SheetId,
}

/// A rectangle of cells; both corners belong to it.
#[derive(Clone, Copy, Debug, PartialEq, Eq, Structural)]
pub struct Rect {
    pub min: Pos,
    pub max: Pos,
}

impl Pos {
    /// The position at column `x`, row `y`.
    pub fn new(x: i64, y: i64) -> (p: Pos)
        ensures
            p == (Pos { x, y }),
    {
        Pos { x, y }
    }

    /// This position on the sheet `sheet_id`.
    pub fn to_sheet_pos(&self, sheet_id: SheetId) -> (p: SheetPos)
        ensures
            p == (SheetPos { x: self.x, y: self.y, sheet_id }),
    {
        SheetPos { x: self.x, y: self.y, sheet_id }
    }
}

impl SheetPos {
    /// The position at column `x`, row `y` of the sheet `sheet_id`.
    pub fn new(sheet_id: SheetId, x: i64, y: i64) -> (p: SheetPos)
        ensures
            p == (SheetPos { x, y, sheet_id }),
    {
        SheetPos { x, y, sheet_id }
    }
}

impl Rect {
    /// The rectangle with corners `(x0, y0)` and `(x1, y1)`, in any order.
    pub fn new(x0: i64, y0: i64, x1: i64, y1: i64) -> (r: Rect)
        ensures
            r.min.x == if x0 <= x1 { x0 } else { x1 },
            r.max.x == if x0 <= x1 { x1 } else { x0 },
            r.min.y == if y0 <= y1 { y0 } else { y1 },
            r.max.y == if y0 <= y1 { y1 } else { y0 },
            r.wf(),
    {
        let (min_x, max_x) = if x0 <= x1 { (x0, x1) } else { (x1, x0) };
        let (min_y, max_y) = if y0 <= y1 { (y0, y1) } else { (y1, y0) };
        Rect { min: Pos { x: min_x, y: min_y }, max: Pos { x: max_x, y: max_y } }
    }

    /// A rectangle is well formed when its corners are in order.
    pub open spec fn wf(&self) -> bool {
        self.min.x <= self.max.x && self.min.y <= self.max.y
    }

    /// Number of columns, as a mathematical integer.
    pub open spec fn spec_width(&self) -> int {
        self.max.x - self.min.x + 1
    }

    /// Number of rows, as a mathematical integer.
    pub open spec fn spec_height(&self) -> int {
        self.max.y - self.min.y + 1
    }

    /// Whether the cell `(x, y)` lies in the rectangle.
    pub open spec fn spec_contains(&self, x: int, y: int) -> bool {
        self.min.x <= x <= self.max.x && self.min.y <= y <= self.max.y
    }

    /// Number of columns.
    pub fn width(&self) -> (n: u32)
        requires
            self.wf(),
            self.spec_width() <= u32::MAX,
        ensures
            n == self.spec_width(),
    {
        let n: i128 = self.max.x as i128 - self.min.x as i128 + 1;
        n as u32
    }

    /// Number of rows.
    pub fn height(&self) -> (n: u32)
        requires
            self.wf(),
            self.spec_height() <= u32::MAX,
        ensures
            n == self.spec_height(),
    {
        let n: i128 = self.max.y as i128 - self.min.y as i128 + 1;
        n as u32
    }

    /// Whether `pos` lies in the rectangle.
    pub fn contains(&self, pos: Pos) -> (b: bool)
        ensures
            b == self.spec_contains(pos.x as int, pos.y as int),
    {
        self.min.x <= pos.x && pos.x <= self.max.x && self.min.y <= pos.y && pos.y <= self.max.y
    }
}

} // verus!
