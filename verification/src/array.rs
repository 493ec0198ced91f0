//! A rectangular block of cell values of fixed size.

use crate::cell_value::{CellKind, CellModel, CellValue};
use vstd::prelude::*;

verus! {

/// Width and height of an [`Array`]; neither is zero, and the number of
/// cells fits in `u32`.
#[derive(Clone, Copy, Debug, PartialEq, Eq, Structural)]
pub struct ArraySize {
    pub w: u32,
    pub h: u32,
}

/// Why an [`Array`] or its size could not be made, read or written.
#[derive(Clone, Copy, Debug, PartialEq, Eq, Structural)]
pub enum ArrayError {
    /// The width or the height is zero.
    ZeroSize { w: u32, h: u32 },
    /// The block would hold more cells than `u32` can count.
    TooLarge { w: u32, h: u32 },
    /// The coordinate lies outside the block.
    OutOfBounds { x: u32, y: u32 },
}

impl ArraySize {
    /// Neither side is zero and the number of cells fits in `u32`.
    pub open spec fn wf(&self) -> bool {
        self.w >= 1 && self.h >= 1 && self.w * self.h <= u32::MAX
    }

    /// The size `w` by `h`, unless a side is zero or the block too large.
    pub fn new_or_err(w: u32, h: u32) -> (r: Result<ArraySize, ArrayError>)
        ensures
            match r {
                Ok(size) => size.wf() && size.w == w && size.h == h,
                Err(e) => if w == 0 || h == 0 {
                    e == (ArrayError::ZeroSize { w, h })
                } else {
                    w * h > u32::MAX && e == (ArrayError::TooLarge { w, h })
                },
            },
            r is Ok <==> w >= 1 && h >= 1 && w * h <= u32::MAX,
    {
        if w == 0 || h == 0 {
            return Err(ArrayError::ZeroSize { w, h });
        }
        assert(w * h <= 0xFFFF_FFFF * 0xFFFF_FFFF) by (nonlinear_arith)
            requires
                w <= 0xFFFF_FFFF,
                h <= 0xFFFF_FFFF,
        ;
        let cells: u64 = w as u64 * h as u64;
        if cells > u32::MAX as u64 {
            return Err(ArrayError::TooLarge { w, h });
        }
        Ok(ArraySize { w, h })
    }

    /// Number of cells of a block of this size.
    pub fn len(&self) -> (n: u32)
        requires
            self.wf(),
        ensures
            n == self.w * self.h,
    {
        self.w * self.h
    }
}

/// A rectangular block of values; every cell has one, `Blank` if never set.
#[derive(Debug, PartialEq)]
pub struct Array {
    size: ArraySize,
    rows: Vec<Vec<CellValue>>,
}

/// Mathematical model of an [`Array`]: its rows, each a sequence of values.
pub struct Block {
    pub w: nat,
    pub h: nat,
    pub rows: Seq<Seq<CellModel>>,
}

impl Block {
    /// As many rows as the height says, each as long as the width says.
    pub open spec fn wf(self) -> bool {
        &&& self.rows.len() == self.h
        &&& forall|y: int| 0 <= y < self.h ==> (#[trigger] self.rows[y]).len() == self.w
    }

    /// The value at column `x` of row `y`.
    pub open spec fn at(self, x: int, y: int) -> CellModel {
        self.rows[y][x]
    }

    /// The variants of the values of row `y`, or nothing if there is no such
    /// row.
    pub open spec fn row_kinds(self, y: int) -> Seq<CellKind> {
        if 0 <= y < self.rows.len() {
            self.rows[y].map_values(|c: CellModel| c.kind())
        } else {
            Seq::empty()
        }
    }

    /// The header rule: there are at least three rows, the first differs in
    /// its variants from the second, and the second agrees with the third.
    pub open spec fn first_row_looks_like_header(self) -> bool {
        &&& self.h >= 3
        &&& self.row_kinds(0) != self.row_kinds(1)
        &&& self.row_kinds(1) == self.row_kinds(2)
    }
}

/// The models of the values of one row.
pub open spec fn row_model(row: Seq<CellValue>) -> Seq<CellModel> {
    row.map_values(|c: CellValue| c@)
}

impl View for Array {
    type V = Block;

    closed spec fn view(&self) -> Block {
        Block {
            w: self.size.w as nat,
            h: self.size.h as nat,
            rows: self.rows@.map_values(|row: Vec<CellValue>| row_model(row@)),
        }
    }
}

impl Array {
    #[verifier::type_invariant]
    spec fn inv(&self) -> bool {
        &&& self.size.wf()
        &&& self.rows@.len() == self.size.h
        &&& forall|y: int| 0 <= y < self.rows@.len() ==> (#[trigger] self.rows@[y])@.len() == self.size.w
    }

    /// An array of the given size in which every cell is `Blank`.
    pub fn new_empty(size: ArraySize) -> (r: Array)
        requires
            size.wf(),
        ensures
            r@.wf(),
            r@.w == size.w,
            r@.h == size.h,
            forall|x: int, y: int| 0 <= x < size.w && 0 <= y < size.h ==> r@.at(x, y) == CellModel::Blank,
    {
        let mut rows: Vec<Vec<CellValue>> = Vec::new();
        let mut y: u32 = 0;
        while y < size.h
            invariant
                y <= size.h,
                rows@.len() == y,
                forall|b: int| 0 <= b < y ==> (#[trigger] rows@[b])@.len() == size.w,
                forall|a: int, b: int|
                    0 <= b < y && 0 <= a < size.w ==> (#[trigger] rows@[b]@[a])@ == CellModel::Blank,
            decreases size.h - y,
        {
            let mut row: Vec<CellValue> = Vec::new();
            let mut x: u32 = 0;
            while x < size.w
                invariant
                    x <= size.w,
                    row@.len() == x,
                    forall|a: int| 0 <= a < x ==> (#[trigger] row@[a])@ == CellModel::Blank,
                decreases size.w - x,
            {
                row.push(CellValue::Blank);
                x = x + 1;
            }
            rows.push(row);
            y = y + 1;
        }
        Array { size, rows }
    }

    /// The size of the array.
    pub fn size(&self) -> (s: ArraySize)
        ensures
            s.wf(),
            s.w == self@.w,
            s.h == self@.h,
            self@.wf(),
    {
        proof {
            use_type_invariant(self);
        }
        self.size
    }

    /// Number of columns.
    pub fn width(&self) -> (w: u32)
        ensures
            w == self@.w,
            w >= 1,
            self@.wf(),
    {
        proof {
            use_type_invariant(self);
        }
        self.size.w
    }

    /// Number of rows.
    pub fn height(&self) -> (h: u32)
        ensures
            h == self@.h,
            h >= 1,
            self@.wf(),
    {
        proof {
            use_type_invariant(self);
        }
        self.size.h
    }

    /// The value at column `x` of row `y`.
    pub fn get(&self, x: u32, y: u32) -> (r: Result<&CellValue, ArrayError>)
        ensures
            self@.wf(),
            self@.w >= 1,
            self@.h >= 1,
            match r {
                Ok(v) => x < self@.w && y < self@.h && v@ == self@.at(x as int, y as int),
                Err(e) => !(x < self@.w && y < self@.h) && e == (ArrayError::OutOfBounds { x, y }),
            },
    {
        proof {
            use_type_invariant(self);
        }
        if x < self.size.w && y < self.size.h {
            Ok(&self.rows[y as usize][x as usize])
        } else {
            Err(ArrayError::OutOfBounds { x, y })
        }
    }

    /// Writes `value` at column `x` of row `y`; a coordinate outside the
    /// array is refused and changes nothing.
    pub fn set(&mut self, x: u32, y: u32, value: CellValue) -> (r: Result<(), ArrayError>)
        ensures
            final(self)@.wf(),
            final(self)@.w == old(self)@.w,
            final(self)@.h == old(self)@.h,
            match r {
                Ok(_) => x < old(self)@.w && y < old(self)@.h && final(self)@.rows == old(
                    self,
                )@.rows.update(y as int, old(self)@.rows[y as int].update(x as int, value@)),
                Err(e) => !(x < old(self)@.w && y < old(self)@.h) && e == (ArrayError::OutOfBounds {
                    x,
                    y,
                }) && final(self)@ == old(self)@,
            },
    {
        proof {
            use_type_invariant(&*self);
        }
        if x < self.size.w && y < self.size.h {
            write_cell(&mut self.rows, x as usize, y as usize, value);
            proof {
                assert(row_model(self.rows@[y as int]@) =~= row_model(
                    old(self).rows@[y as int]@,
                ).update(x as int, value@));
                assert(self@.rows =~= old(self)@.rows.update(
                    y as int,
                    old(self)@.rows[y as int].update(x as int, value@),
                ));
            }
            Ok(())
        } else {
            Err(ArrayError::OutOfBounds { x, y })
        }
    }

    /// The variants of the values of row `y`, or nothing if there is no such
    /// row.
    pub fn row_types(&self, y: u32) -> (kinds: Vec<CellKind>)
        ensures
            kinds@ == self@.row_kinds(y as int),
    {
        proof {
            use_type_invariant(self);
        }
        let mut kinds: Vec<CellKind> = Vec::new();
        if y >= self.size.h {
            assert(kinds@ =~= self@.row_kinds(y as int));
            return kinds;
        }
        let row = &self.rows[y as usize];
        let mut x: usize = 0;
        while x < row.len()
            invariant
                x <= row@.len(),
                kinds@.len() == x,
                forall|a: int| 0 <= a < x ==> #[trigger] kinds@[a] == row@[a]@.kind(),
            decreases row@.len() - x,
        {
            kinds.push(row[x].type_id());
            x = x + 1;
        }
        assert(kinds@ =~= self@.row_kinds(y as int));
        kinds
    }

    /// The values of the array in one list, row after row.
    pub fn into_cell_values_vec(self) -> (values: Vec<CellValue>)
        ensures
            self@.wf(),
            values@.len() == self@.w * self@.h,
            forall|x: int, y: int|
                0 <= x < self@.w && 0 <= y < self@.h ==> (#[trigger] values@[y * self@.w + x])@
                    == self@.at(x, y),
    {
        proof {
            use_type_invariant(&self);
        }
        let w: usize = self.size.w as usize;
        let h: usize = self.size.h as usize;
        let mut values: Vec<CellValue> = Vec::new();
        let mut y: usize = 0;
        while y < h
            invariant
                y <= h,
                w == self.size.w,
                h == self.size.h,
                self.size.wf(),
                self.rows@.len() == h,
                forall|b: int| 0 <= b < self.rows@.len() ==> (#[trigger] self.rows@[b])@.len() == w,
                values@.len() == y * w,
                forall|a: int, b: int|
                    0 <= a < w && 0 <= b < y ==> (#[trigger] values@[b * w + a])@
                        == self.rows@[b]@[a]@,
            decreases h - y,
        {
            let row = &self.rows[y];
            let mut x: usize = 0;
            while x < w
                invariant
                    x <= w,
                    y < h,
                    w == self.size.w,
                    h == self.size.h,
                    self.size.wf(),
                    row@ == self.rows@[y as int]@,
                    row@.len() == w,
                    values@.len() == y * w + x,
                    forall|a: int, b: int|
                        0 <= a < w && 0 <= b < y ==> (#[trigger] values@[b * w + a])@
                            == self.rows@[b]@[a]@,
                    forall|a: int| 0 <= a < x ==> (#[trigger] values@[y * w + a])@ == row@[a]@,
                decreases w - x,
            {
                let ghost before = values@;
                values.push(row[x].clone());
                proof {
                    assert forall|a: int, b: int| 0 <= a < w && 0 <= b < y implies (
                    #[trigger] values@[b * w + a])@ == self.rows@[b]@[a]@ by {
                        lemma_flat_index(a, b, w as int, y as int);
                        assert(values@[b * w + a] == before[b * w + a]);
                    }
                }
                x = x + 1;
            }
            proof {
                assert((y + 1) * w == y * w + w) by (nonlinear_arith);
            }
            y = y + 1;
        }
        proof {
            assert(h * w == w * h) by (nonlinear_arith);
        }
        values
    }
}

impl Clone for Array {
    fn clone(&self) -> (r: Array)
        ensures
            r@ == self@,
    {
        proof {
            use_type_invariant(self);
        }
        let mut rows: Vec<Vec<CellValue>> = Vec::new();
        let mut y: usize = 0;
        while y < self.rows.len()
            invariant
                y <= self.rows@.len(),
                rows@.len() == y,
                forall|b: int|
                    0 <= b < y ==> row_model((#[trigger] rows@[b])@) == row_model(self.rows@[b]@),
            decreases self.rows@.len() - y,
        {
            let source = &self.rows[y];
            let mut row: Vec<CellValue> = Vec::new();
            let mut x: usize = 0;
            while x < source.len()
                invariant
                    x <= source@.len(),
                    row@.len() == x,
                    forall|a: int| 0 <= a < x ==> (#[trigger] row@[a])@ == source@[a]@,
                decreases source@.len() - x,
            {
                row.push(source[x].clone());
                x = x + 1;
            }
            assert(row_model(row@) =~= row_model(source@));
            rows.push(row);
            y = y + 1;
        }
        proof {
            assert forall|b: int| 0 <= b < rows@.len() implies (#[trigger] rows@[b])@.len()
                == self.size.w by {
                assert(row_model(rows@[b]@).len() == row_model(self.rows@[b]@).len());
            }
        }
        let r = Array { size: self.size, rows };
        assert(r@.rows =~= self@.rows);
        r
    }
}

/// Replaces the value at column `x` of row `y` of `rows`.
fn write_cell(rows: &mut Vec<Vec<CellValue>>, x: usize, y: usize, value: CellValue)
    requires
        y < old(rows)@.len(),
        x < old(rows)@[y as int]@.len(),
    ensures
        final(rows)@.len() == old(rows)@.len(),
        forall|b: int| 0 <= b < old(rows)@.len() && b != y ==> final(rows)@[b] == old(rows)@[b],
        final(rows)@[y as int]@ == old(rows)@[y as int]@.update(x as int, value),
    no_unwind
{
    rows[y][x] = value;
}

/// The cell at column `a` of row `b` stands, in a row-major list of rows of
/// `w` cells, before the start of any row `y` further down.
proof fn lemma_flat_index(a: int, b: int, w: int, y: int)
    requires
        0 <= a < w,
        0 <= b < y,
    ensures
        0 <= b * w + a < y * w,
{
    assert(0 <= b * w && b * w + w <= y * w) by (nonlinear_arith)
        requires
            0 <= b,
            b + 1 <= y,
            0 < w,
    ;
}

} // verus!
