//! Importing a columnar file: from its field names and batches of columns
//! to one data table with a header and the one operation that adds it.
//!
//! The reading of the file is the caller's, who hands what was read to
//! [`GridController::import_parquet_operations`] as a [`ColumnarRead`]. It
//! lies outside this crate, because `parquet` panics on some malformed
//! files, which nothing known of the bytes of a file rules out, and no
//! function of this crate panics.

use crate::array::{Array, ArraySize, Block};
use crate::cell_value::{CellModel, CellValue, Import};
use crate::coerce::{coerce, coerced};
use crate::columnar_source::{
    arrow_error_text, batch_columns, batch_content, batch_height, batch_rows, column_is_text,
    column_texts, optional_text, optional_texts, Batch, ColumnRead,
};
use crate::controller::GridController;
use crate::text::texts_of;
use crate::csv_import::adds_table;
use crate::data_table::{DataTable, TableModel};
use crate::error::{progress_models, ImportError, ImportProgress, ImportSource, ProgressModel};
use crate::formats::FormatUpdate;
use crate::operation::Operation;
use crate::pos::{Pos, SheetId, SheetPos};
use vstd::prelude::*;

verus! {

/// The values of one column of a batch, as texts; a null has none.
#[derive(Clone, Debug, PartialEq, Eq)]
pub struct ColumnData {
    /// Whether the column holds text, which is taken as it is.
    pub is_text: bool,
    pub values: Vec<Option<String>>,
}

/// One batch of records: its columns, each with a value for every row.
#[derive(Clone, Debug, PartialEq, Eq)]
pub struct BatchData {
    pub num_rows: usize,
    pub columns: Vec<ColumnData>,
}

/// What was read of a columnar file: the number of rows and the names of
/// the fields that its metadata declares, and its batches in order.
#[derive(Clone, Debug, PartialEq, Eq)]
pub struct ColumnarData {
    pub num_rows: i64,
    pub field_names: Vec<String>,
    pub batches: Vec<BatchData>,
}

/// Mathematical model of a [`ColumnData`].
pub struct ColumnModel {
    pub is_text: bool,
    pub values: Seq<Option<Seq<char>>>,
}

/// Mathematical model of a [`BatchData`].
pub struct BatchModel {
    pub num_rows: int,
    pub columns: Seq<ColumnModel>,
}

/// Mathematical model of a [`ColumnarData`].
pub struct ColumnarModel {
    pub num_rows: int,
    pub field_names: Seq<Seq<char>>,
    pub batches: Seq<BatchModel>,
}

impl View for ColumnData {
    type V = ColumnModel;

    open spec fn view(&self) -> ColumnModel {
        ColumnModel {
            is_text: self.is_text,
            values: optional_texts(self.values@),
        }
    }
}

impl View for BatchData {
    type V = BatchModel;

    open spec fn view(&self) -> BatchModel {
        BatchModel {
            num_rows: self.num_rows as int,
            columns: self.columns@.map_values(|c: ColumnData| c@),
        }
    }
}

/// The models of a list of batches.
pub open spec fn batches_model(batches: Seq<BatchData>) -> Seq<BatchModel> {
    batches.map_values(|b: BatchData| b@)
}

impl View for ColumnarData {
    type V = ColumnarModel;

    open spec fn view(&self) -> ColumnarModel {
        ColumnarModel {
            num_rows: self.num_rows as int,
            field_names: texts_of(self.field_names@),
            batches: batches_model(self.batches@),
        }
    }
}

/// Why what was read of a columnar file makes no table.
#[derive(Clone, Copy, Debug, PartialEq, Eq, Structural)]
pub enum ColumnarFault {
    /// The file declares no field.
    Empty,
    /// The file declares a number of rows below 0, or more cells than can
    /// be counted.
    TooLarge,
    /// This batch, counted from 0, has more columns than there are fields,
    /// a column that has not a value for each of its rows, or rows beyond
    /// the number that the file declares.
    Misshapen { batch: usize },
}

/// The value of row `k` of the column `column`: nothing for a null, the
/// text itself in a column of text, else what the text is read as,
/// strictly.
pub open spec fn column_cell(column: ColumnModel, k: int) -> CellModel {
    match column.values[k] {
        None => CellModel::Blank,
        Some(text) => if column.is_text {
            CellModel::Text(text)
        } else {
            coerced(text, true).0
        },
    }
}

/// Row `k` of the batch `batch` in a table of `width` columns: the value
/// of each column, then blanks.
pub open spec fn batch_row(batch: BatchModel, k: int, width: int) -> Seq<CellModel> {
    Seq::new(
        width as nat,
        |x: int|
            if x < batch.columns.len() {
                column_cell(batch.columns[x], k)
            } else {
                CellModel::Blank
            },
    )
}

/// The rows of the batches `batches`, one batch after the other.
pub open spec fn batches_rows(batches: Seq<BatchModel>, width: int) -> Seq<Seq<CellModel>>
    decreases batches.len(),
{
    if batches.len() == 0 {
        Seq::empty()
    } else {
        batches_rows(batches.drop_last(), width) + Seq::new(
            batches.last().num_rows as nat,
            |k: int| batch_row(batches.last(), k, width),
        )
    }
}

/// Number of rows of the batches `batches` together.
pub open spec fn rows_of(batches: Seq<BatchModel>) -> int
    decreases batches.len(),
{
    if batches.len() == 0 {
        0
    } else {
        rows_of(batches.drop_last()) + batches.last().num_rows
    }
}

/// The greatest number of rows of one of the batches `batches`.
pub open spec fn most_rows(batches: Seq<BatchModel>) -> int
    decreases batches.len(),
{
    if batches.len() == 0 {
        0
    } else if batches.last().num_rows > most_rows(batches.drop_last()) {
        batches.last().num_rows
    } else {
        most_rows(batches.drop_last())
    }
}

/// The header row of the table: the names of the fields.
pub open spec fn header_row(names: Seq<Seq<char>>) -> Seq<CellModel> {
    names.map_values(|name: Seq<char>| CellModel::Text(name))
}

/// A row of `width` blanks.
pub open spec fn blank_row(width: int) -> Seq<CellModel> {
    Seq::new(width as nat, |x: int| CellModel::Blank)
}

/// The block of values of the table: the header row, the rows of the
/// batches, then blank rows up to the number of rows that the file
/// declares.
pub open spec fn columnar_block(data: ColumnarModel) -> Block {
    let width = data.field_names.len() as int;
    let filled = seq![header_row(data.field_names)] + batches_rows(data.batches, width);
    Block {
        w: width as nat,
        h: (data.num_rows + 1) as nat,
        rows: Seq::new(
            (data.num_rows + 1) as nat,
            |y: int|
                if y < filled.len() {
                    filled[y]
                } else {
                    blank_row(width)
                },
        ),
    }
}

/// Whether a table for `width` fields and `num_rows` rows can be made at
/// all.
pub open spec fn columnar_shape_fault(width: int, num_rows: int) -> Option<ColumnarFault> {
    if num_rows < 0 || num_rows >= u32::MAX {
        Some(ColumnarFault::TooLarge)
    } else if width == 0 {
        Some(ColumnarFault::Empty)
    } else if width > u32::MAX || width * (num_rows + 1) > u32::MAX {
        Some(ColumnarFault::TooLarge)
    } else {
        None
    }
}

/// Whether the batch at position `b` has its place in a table of `width`
/// columns and `num_rows` rows of data.
pub open spec fn batch_fits(batches: Seq<BatchModel>, b: int, width: int, num_rows: int) -> bool {
    &&& batches[b].columns.len() <= width
    &&& forall|x: int|
        0 <= x < batches[b].columns.len() ==> (#[trigger] batches[b].columns[x]).values.len()
            == batches[b].num_rows
    &&& rows_of(batches.take(b + 1)) <= num_rows
}

/// Position of the first batch from `from` on that does not fit, or the
/// number of batches where all of them fit.
pub open spec fn first_unfit(batches: Seq<BatchModel>, width: int, num_rows: int, from: int) -> int
    decreases batches.len() - from,
{
    if from < 0 || from >= batches.len() {
        batches.len() as int
    } else if !batch_fits(batches, from, width, num_rows) {
        from
    } else {
        first_unfit(batches, width, num_rows, from + 1)
    }
}

/// Why `data` makes no table, if it makes none.
pub open spec fn columnar_fault(data: ColumnarModel) -> Option<ColumnarFault> {
    let width = data.field_names.len() as int;
    if columnar_shape_fault(width, data.num_rows) is Some {
        columnar_shape_fault(width, data.num_rows)
    } else {
        let f = first_unfit(data.batches, width, data.num_rows, 0);
        if f >= data.batches.len() {
            None
        } else {
            Some(ColumnarFault::Misshapen { batch: f as usize })
        }
    }
}

/// Number of batches that are read before the import ends.
pub open spec fn batches_read(data: ColumnarModel) -> int {
    let width = data.field_names.len() as int;
    if columnar_shape_fault(width, data.num_rows) is Some {
        0
    } else {
        first_unfit(data.batches, width, data.num_rows, 0)
    }
}

/// The notices of progress for the batches `batches`: for each batch one
/// for each of its columns, with the rows read up to and with this batch
/// and the greatest number of rows of a batch so far.
pub open spec fn columnar_notices(
    file_name: Seq<char>,
    batches: Seq<BatchModel>,
    insert_at: Pos,
    width: int,
    total: int,
) -> Seq<ProgressModel>
    decreases batches.len(),
{
    if batches.len() == 0 {
        Seq::empty()
    } else {
        columnar_notices(file_name, batches.drop_last(), insert_at, width, total) + Seq::new(
            batches.last().columns.len(),
            |i: int|
                ProgressModel {
                    file_name,
                    current: rows_of(batches),
                    total,
                    x: insert_at.x as int,
                    y: insert_at.y as int,
                    width,
                    height: most_rows(batches),
                },
        )
    }
}

/// The table that `data` makes: its first row is the header.
pub open spec fn columnar_table(data: ColumnarModel, file_name: Seq<char>, now: int) -> TableModel {
    TableModel {
        name: CellModel::Text(file_name),
        header_is_first_row: true,
        value: columnar_block(data),
        formats: Seq::empty(),
        last_modified: now,
    }
}

/// The model of a column that was read and could be displayed.
pub open spec fn column_read(column: ColumnRead) -> ColumnModel {
    ColumnModel { is_text: column.is_text, values: column.values->0 }
}

/// Whether every one of the columns could be displayed.
pub open spec fn columns_displayed(columns: Seq<ColumnRead>) -> bool {
    forall|x: int| 0 <= x < columns.len() ==> (#[trigger] columns[x]).values is Some
}

/// Whether every column of the batch could be displayed.
pub open spec fn batch_displayed(batch: Batch) -> bool {
    columns_displayed(batch_content(batch))
}

/// Whether every column of every batch could be displayed.
pub open spec fn batches_displayed(batches: Seq<Batch>) -> bool {
    forall|b: int| 0 <= b < batches.len() ==> batch_displayed(#[trigger] batches[b])
}

/// The plain content of a batch of `rows` rows whose columns could be
/// displayed.
pub open spec fn read_plain(rows: nat, columns: Seq<ColumnRead>) -> BatchModel {
    BatchModel {
        num_rows: rows as int,
        columns: columns.map_values(|column: ColumnRead| column_read(column)),
    }
}

/// The plain content of a batch whose columns could be displayed.
pub open spec fn batch_plain(batch: Batch) -> BatchModel {
    read_plain(batch_height(batch), batch_content(batch))
}

/// The plain content of batches whose columns could be displayed.
pub open spec fn batches_plain(batches: Seq<Batch>) -> Seq<BatchModel> {
    batches.map_values(|batch: Batch| batch_plain(batch))
}

/// What was read of a columnar file: the number of rows and the names of
/// the fields that its metadata declares, and its batches of records in
/// order.
pub struct ColumnarRead {
    pub num_rows: i64,
    pub field_names: Vec<String>,
    pub batches: Vec<Batch>,
}

/// The plain content of what was read of a columnar file, where every
/// column of it could be displayed.
pub open spec fn read_data(read: ColumnarRead) -> ColumnarModel {
    ColumnarModel {
        num_rows: read.num_rows as int,
        field_names: texts_of(read.field_names@),
        batches: batches_plain(read.batches@),
    }
}

/// Whether the error `error` reports the fault `fault` of the file
/// `file_name`.
pub open spec fn reports_columnar_fault(
    error: ImportError,
    fault: ColumnarFault,
    file_name: Seq<char>,
) -> bool {
    match fault {
        ColumnarFault::Empty => error == ImportError::EmptyInput,
        ColumnarFault::TooLarge => error == ImportError::SizeOverflow,
        ColumnarFault::Misshapen { batch } => error matches ImportError::MalformedInput {
            source,
            file_name: name,
            line,
            detail,
        } && source == ImportSource::Parquet && name@ == file_name && line is None && detail@
            == "batch outside the table"@,
    }
}

/// Whether the error `error` says that a column of the file `file_name`
/// could not be displayed.
pub open spec fn reports_unreadable(error: ImportError, file_name: Seq<char>) -> bool {
    error matches ImportError::MalformedInput { source, file_name: name, line, detail } && source
        == ImportSource::Parquet && name@ == file_name && line is None
}

/// Whether the error `error` says that the file `file_name` could not be
/// read, and gives `detail` as the reason.
pub open spec fn reports_unread(error: ImportError, file_name: Seq<char>, detail: Seq<char>) -> bool {
    reports_unreadable(error, file_name) && error->MalformedInput_detail@ == detail
}

/// What an import of what was read of the file `file_name` comes to, with
/// the notices of progress it leaves behind: a file that could not be read
/// and a column that cannot be displayed are errors and leave no notice;
/// any other file is imported as its plain content is.
pub open spec fn columnar_outcome(
    result: Result<Vec<Operation>, ImportError>,
    notices: Seq<ProgressModel>,
    read: Result<ColumnarRead, String>,
    sheet_id: SheetId,
    file_name: Seq<char>,
    insert_at: Pos,
    now: int,
) -> bool {
    match read {
        Err(detail) => result matches Err(error) && reports_unread(error, file_name, detail@)
            && notices.len() == 0,
        Ok(read) => if !batches_displayed(read.batches@) {
            result matches Err(error) && reports_unreadable(error, file_name) && notices.len() == 0
        } else {
            let data = read_data(read);
            &&& notices == columnar_notices(
                file_name,
                data.batches.take(batches_read(data)),
                insert_at,
                data.field_names.len() as int,
                data.num_rows,
            )
            &&& match result {
                Ok(ops) => columnar_fault(data) is None && ops@.len() == 1 && adds_table(
                    ops@[0],
                    SheetPos { x: insert_at.x, y: insert_at.y, sheet_id },
                    columnar_table(data, file_name, now),
                    file_name,
                ),
                Err(error) => columnar_fault(data) is Some && reports_columnar_fault(
                    error,
                    columnar_fault(data)->0,
                    file_name,
                ),
            }
        },
    }
}

impl GridController {
    /// Leaves `count` notices of progress behind, all alike.
    fn note_columns(
        &mut self,
        file_name: &str,
        count: usize,
        current: u32,
        total: u32,
        insert_at: Pos,
        width: u32,
        height: u32,
    )
        ensures
            final(self).sheet_names == old(self).sheet_names,
            final(self).next_sheet_id == old(self).next_sheet_id,
            final(self).now == old(self).now,
            progress_models(final(self).progress@) == progress_models(old(self).progress@)
                + Seq::new(
                count as nat,
                |i: int|
                    ProgressModel {
                        file_name: file_name@,
                        current: current as int,
                        total: total as int,
                        x: insert_at.x as int,
                        y: insert_at.y as int,
                        width: width as int,
                        height: height as int,
                    },
            ),
    {
        let ghost before = progress_models(self.progress@);
        let ghost notice = ProgressModel {
            file_name: file_name@,
            current: current as int,
            total: total as int,
            x: insert_at.x as int,
            y: insert_at.y as int,
            width: width as int,
            height: height as int,
        };
        let mut i: usize = 0;
        proof {
            assert(before + Seq::new(0, |k: int| notice) =~= before);
        }
        while i < count
            invariant
                i <= count,
                self.sheet_names == old(self).sheet_names,
                self.next_sheet_id == old(self).next_sheet_id,
                self.now == old(self).now,
                notice == (ProgressModel {
                    file_name: file_name@,
                    current: current as int,
                    total: total as int,
                    x: insert_at.x as int,
                    y: insert_at.y as int,
                    width: width as int,
                    height: height as int,
                }),
                progress_models(self.progress@) == before + Seq::new(i as nat, |k: int| notice),
            decreases count - i,
        {
            let ghost earlier = progress_models(self.progress@);
            let made = ImportProgress {
                file_name: file_name.to_owned(),
                current,
                total,
                x: insert_at.x,
                y: insert_at.y,
                width,
                height,
            };
            self.progress.push(made);
            proof {
                assert(made@ == notice);
                assert(progress_models(self.progress@) =~= earlier.push(notice));
                assert(before + Seq::new((i + 1) as nat, |k: int| notice) =~= (before + Seq::new(
                    i as nat,
                    |k: int| notice,
                )).push(notice));
            }
            i = i + 1;
        }
    }

    /// Makes the data table of what was read of the columnar file
    /// `file_name` and returns the one operation that adds it at
    /// `insert_at` on the sheet `sheet_id`. The names of the fields are the
    /// first row of the table and its header; the rows of the batches
    /// follow, one batch after the other. A batch that has no place in the
    /// table ends the import without an operation.
    pub fn import_columns(
        &mut self,
        sheet_id: SheetId,
        file_name: &str,
        insert_at: Pos,
        data: &ColumnarData,
    ) -> (r: Result<Vec<Operation>, ColumnarFault>)
        ensures
            final(self).sheet_names == old(self).sheet_names,
            final(self).next_sheet_id == old(self).next_sheet_id,
            final(self).now == old(self).now,
            progress_models(final(self).progress@) == progress_models(old(self).progress@)
                + columnar_notices(
                file_name@,
                data@.batches.take(batches_read(data@)),
                insert_at,
                data@.field_names.len() as int,
                data@.num_rows,
            ),
            match r {
                Ok(ops) => columnar_fault(data@) is None && ops@.len() == 1 && adds_table(
                    ops@[0],
                    SheetPos { x: insert_at.x, y: insert_at.y, sheet_id },
                    columnar_table(data@, file_name@, old(self).now as int),
                    file_name@,
                ),
                Err(fault) => columnar_fault(data@) == Some(fault),
            },
    {
        let ghost model = data@;
        let ghost batches = model.batches;
        let ghost before = progress_models(self.progress@);
        let width: usize = data.field_names.len();
        let ghost w = width as int;
        let size = match columnar_size(width, data.num_rows) {
            Ok(size) => size,
            Err(fault) => {
                proof {
                    assert(batches.take(0) =~= Seq::<BatchModel>::empty());
                    assert(before + columnar_notices(
                        file_name@,
                        batches.take(0),
                        insert_at,
                        w,
                        model.num_rows,
                    ) =~= before);
                }
                return Err(fault);
            },
        };
        let total: u32 = data.num_rows as u32;
        let mut cell_values = Array::new_empty(size);
        proof {
            assert forall|y: int| 0 <= y < size.h implies #[trigger] cell_values@.rows[y]
                == blank_row(w) by {
                assert forall|a: int| 0 <= a < w implies cell_values@.rows[y][a]
                    == CellModel::Blank by {
                    assert(cell_values@.at(a, y) == CellModel::Blank);
                }
                assert(cell_values@.rows[y] =~= blank_row(w));
            }
        }
        fill_header(&mut cell_values, &data.field_names);
        let mut offset: u32 = 0;
        let mut tallest: u32 = 0;
        let mut b: usize = 0;
        proof {
            assert(batches.take(0) =~= Seq::<BatchModel>::empty());
            assert(before + columnar_notices(file_name@, batches.take(0), insert_at, w, total as int)
                =~= before);
        }
        while b < data.batches.len()
            invariant
                b <= data.batches@.len(),
                model == data@,
                batches == model.batches,
                w == width,
                width == model.field_names.len(),
                total == model.num_rows,
                columnar_shape_fault(w, model.num_rows) is None,
                size.w == width,
                size.h == total + 1,
                cell_values@.wf(),
                cell_values@.w == width,
                cell_values@.h == total + 1,
                forall|i: int| 0 <= i < b ==> batch_fits(batches, i, w, total as int),
                offset == rows_of(batches.take(b as int)),
                offset <= total,
                tallest == most_rows(batches.take(b as int)),
                batches_rows(batches.take(b as int), w).len() == offset,
                cell_values@.rows[0] == header_row(model.field_names),
                forall|y: int|
                    1 <= y <= offset ==> #[trigger] cell_values@.rows[y] == batches_rows(
                        batches.take(b as int),
                        w,
                    )[y - 1],
                forall|y: int| offset < y <= total ==> #[trigger] cell_values@.rows[y] == blank_row(w),
                self.sheet_names == old(self).sheet_names,
                self.next_sheet_id == old(self).next_sheet_id,
                self.now == old(self).now,
                before == progress_models(old(self).progress@),
                progress_models(self.progress@) == before + columnar_notices(
                    file_name@,
                    batches.take(b as int),
                    insert_at,
                    w,
                    total as int,
                ),
            decreases data.batches@.len() - b,
        {
            let batch = &data.batches[b];
            let ghost done_rows = batches_rows(batches.take(b as int), w);
            proof {
                assert(batches[b as int] == batch@);
                assert(batches.take(b + 1).drop_last() =~= batches.take(b as int));
                assert(batches.take(b + 1).last() == batch@);
            }
            if !batch_is_whole(batch, width) || batch.num_rows > (total - offset) as usize {
                proof {
                    lemma_first_unfit_skip(batches, w, total as int, 0, b as int);
                }
                return Err(ColumnarFault::Misshapen { batch: b });
            }
            let rows: u32 = batch.num_rows as u32;
            let mut k: u32 = 0;
            while k < rows
                invariant
                    k <= rows,
                    rows == batch@.num_rows,
                    offset + rows <= total,
                    w == width,
                    batch@.columns.len() <= width,
                    forall|x: int|
                        0 <= x < batch@.columns.len() ==> (#[trigger] batch@.columns[x]).values.len()
                            == batch@.num_rows,
                    cell_values@.wf(),
                    cell_values@.w == width,
                    cell_values@.h == total + 1,
                    done_rows.len() == offset,
                    cell_values@.rows[0] == header_row(model.field_names),
                    forall|y: int| 1 <= y <= offset ==> #[trigger] cell_values@.rows[y] == done_rows[y - 1],
                    forall|y: int|
                        offset < y <= offset + k ==> #[trigger] cell_values@.rows[y] == batch_row(
                            batch@,
                            y - 1 - offset,
                            w,
                        ),
                    forall|y: int|
                        offset + k < y <= total ==> #[trigger] cell_values@.rows[y] == blank_row(w),
                decreases rows - k,
            {
                fill_batch_row(&mut cell_values, batch, k as usize, offset + k + 1);
                k = k + 1;
            }
            proof {
                let next_rows = batches_rows(batches.take(b + 1), w);
                assert(next_rows =~= done_rows + Seq::new(
                    batch@.num_rows as nat,
                    |i: int| batch_row(batch@, i, w),
                ));
                assert forall|y: int| 1 <= y <= offset + rows implies #[trigger] cell_values@.rows[y]
                    == next_rows[y - 1] by {
                    if y > offset {
                        assert(next_rows[y - 1] == batch_row(batch@, y - 1 - offset, w));
                    }
                }
            }
            offset = offset + rows;
            if rows > tallest {
                tallest = rows;
            }
            self.note_columns(
                file_name,
                batch.columns.len(),
                offset,
                total,
                insert_at,
                width as u32,
                tallest,
            );
            proof {
                assert(progress_models(self.progress@) =~= before + columnar_notices(
                    file_name@,
                    batches.take(b + 1),
                    insert_at,
                    w,
                    total as int,
                ));
            }
            b = b + 1;
        }
        proof {
            lemma_first_unfit_skip(batches, w, total as int, 0, b as int);
            assert(batches.take(b as int) =~= batches);
            assert(cell_values@.rows =~= columnar_block(model).rows);
        }
        let import = Import::new(file_name.to_owned());
        let mut data_table = DataTable::new(&import, cell_values, self.now);
        data_table.apply_first_row_as_header();
        let mut ops: Vec<Operation> = Vec::new();
        ops.push(
            Operation::AddDataTable {
                sheet_pos: SheetPos { x: insert_at.x, y: insert_at.y, sheet_id },
                data_table,
                cell_value: CellValue::Import(import),
                index: None,
            },
        );
        Ok(ops)
    }
}

impl GridController {
    /// Imports what was read of the columnar file `file_name` as one data
    /// table at `insert_at` on the sheet `sheet_id`: see
    /// [`GridController::import_columns`]. Where the file could not be
    /// opened, or a batch of it could not be read, `read` holds the reason
    /// in place of what was read. That and a column that cannot be
    /// displayed end the import with an error and without a notice.
    pub fn import_parquet_operations(
        &mut self,
        sheet_id: SheetId,
        read: Result<ColumnarRead, String>,
        file_name: &str,
        insert_at: Pos,
    ) -> (r: Result<Vec<Operation>, ImportError>)
        ensures
            final(self).sheet_names == old(self).sheet_names,
            final(self).next_sheet_id == old(self).next_sheet_id,
            final(self).now == old(self).now,
            progress_models(old(self).progress@).is_prefix_of(progress_models(final(self).progress@)),
            columnar_outcome(
                r,
                progress_models(final(self).progress@).skip(old(self).progress@.len() as int),
                read,
                sheet_id,
                file_name@,
                insert_at,
                old(self).now as int,
            ),
    {
        let ghost before = progress_models(self.progress@);
        proof {
            assert(before.skip(before.len() as int) =~= Seq::<ProgressModel>::empty());
        }
        let read = match read {
            Ok(read) => read,
            Err(detail) => {
                return Err(
                    ImportError::MalformedInput {
                        source: ImportSource::Parquet,
                        file_name: file_name.to_owned(),
                        line: None,
                        detail,
                    },
                );
            },
        };
        let ghost whole = read_data(read);
        let plain = match plain_batches(&read.batches, file_name) {
            Ok(plain) => plain,
            Err(error) => {
                return Err(error);
            },
        };
        let data =
            ColumnarData { num_rows: read.num_rows, field_names: read.field_names, batches: plain };
        assert(data@ == whole);
        let r = self.import_columns(sheet_id, file_name, insert_at, &data);
        proof {
            let after = progress_models(self.progress@);
            let notices = columnar_notices(
                file_name@,
                whole.batches.take(batches_read(whole)),
                insert_at,
                whole.field_names.len() as int,
                whole.num_rows,
            );
            assert(after == before + notices);
            assert(after.skip(before.len() as int) =~= notices);
            assert(before.is_prefix_of(after));
        }
        match r {
            Ok(ops) => Ok(ops),
            Err(fault) => Err(error_of_columnar_fault(fault, file_name)),
        }
    }
}

/// The value of row `k` of the column `column`.
fn cell_of_column(column: &ColumnData, k: usize) -> (value: CellValue)
    requires
        k < column.values@.len(),
    ensures
        value@ == column_cell(column@, k as int),
{
    assert(column@.values[k as int] == optional_text(column.values@[k as int]));
    match &column.values[k] {
        None => CellValue::Blank,
        Some(text) => {
            if column.is_text {
                CellValue::Text(text.clone())
            } else {
                coerce(text.as_str(), true).0
            }
        },
    }
}

/// Whether the batch has no more than `width` columns and a value for each
/// row in each of them.
fn batch_is_whole(batch: &BatchData, width: usize) -> (yes: bool)
    ensures
        yes == (batch@.columns.len() <= width && forall|x: int|
            0 <= x < batch@.columns.len() ==> (#[trigger] batch@.columns[x]).values.len()
                == batch@.num_rows),
{
    if batch.columns.len() > width {
        return false;
    }
    let mut x: usize = 0;
    while x < batch.columns.len()
        invariant
            x <= batch.columns@.len(),
            forall|a: int|
                0 <= a < x ==> (#[trigger] batch@.columns[a]).values.len() == batch@.num_rows,
        decreases batch.columns@.len() - x,
    {
        assert(batch@.columns[x as int] == batch.columns@[x as int]@);
        if batch.columns[x].values.len() != batch.num_rows {
            return false;
        }
        x = x + 1;
    }
    true
}

/// Writes row `k` of the batch into row `y` of `array`, which is still
/// blank.
fn fill_batch_row(array: &mut Array, batch: &BatchData, k: usize, y: u32)
    requires
        old(array)@.wf(),
        y < old(array)@.h,
        batch@.columns.len() <= old(array)@.w,
        k < batch@.num_rows,
        forall|x: int|
            0 <= x < batch@.columns.len() ==> (#[trigger] batch@.columns[x]).values.len()
                == batch@.num_rows,
        old(array)@.rows[y as int] == blank_row(old(array)@.w as int),
    ensures
        final(array)@.wf(),
        final(array)@.w == old(array)@.w,
        final(array)@.h == old(array)@.h,
        final(array)@.rows == old(array)@.rows.update(
            y as int,
            batch_row(batch@, k as int, old(array)@.w as int),
        ),
{
    let width: u32 = array.width();
    let mut x: usize = 0;
    while x < batch.columns.len()
        invariant
            x <= batch.columns@.len(),
            batch@.columns.len() <= width,
            k < batch@.num_rows,
            forall|a: int|
                0 <= a < batch@.columns.len() ==> (#[trigger] batch@.columns[a]).values.len()
                    == batch@.num_rows,
            array@.wf(),
            array@.w == width,
            array@.w == old(array)@.w,
            array@.h == old(array)@.h,
            y < array@.h,
            forall|b: int| 0 <= b < array@.h && b != y ==> array@.rows[b] == old(array)@.rows[b],
            array@.rows[y as int] == Seq::new(
                width as nat,
                |a: int|
                    if a < x {
                        column_cell(batch@.columns[a], k as int)
                    } else {
                        CellModel::Blank
                    },
            ),
        decreases batch.columns@.len() - x,
    {
        proof {
            assert(batch@.columns[x as int] == batch.columns@[x as int]@);
            assert(batch@.columns[x as int].values.len() == batch.columns@[x as int].values@.len());
        }
        let value = cell_of_column(&batch.columns[x], k);
        let done = array.set(x as u32, y, value);
        proof {
            assert(array@.rows[y as int] =~= Seq::new(
                width as nat,
                |a: int|
                    if a < x + 1 {
                        column_cell(batch@.columns[a], k as int)
                    } else {
                        CellModel::Blank
                    },
            ));
        }
        x = x + 1;
    }
    proof {
        assert(array@.rows[y as int] =~= batch_row(batch@, k as int, width as int));
        assert(array@.rows =~= old(array)@.rows.update(
            y as int,
            batch_row(batch@, k as int, width as int),
        ));
    }
}

/// Writes the names of the fields into the first row of `array`, which is
/// still blank.
fn fill_header(array: &mut Array, names: &Vec<String>)
    requires
        old(array)@.wf(),
        old(array)@.h >= 1,
        names@.len() == old(array)@.w,
        old(array)@.rows[0] == blank_row(old(array)@.w as int),
    ensures
        final(array)@.wf(),
        final(array)@.w == old(array)@.w,
        final(array)@.h == old(array)@.h,
        final(array)@.rows == old(array)@.rows.update(0, header_row(texts_of(names@))),
{
    let width: u32 = array.width();
    let mut x: usize = 0;
    while x < names.len()
        invariant
            x <= names@.len(),
            names@.len() == width,
            array@.wf(),
            array@.w == width,
            array@.w == old(array)@.w,
            array@.h == old(array)@.h,
            array@.h >= 1,
            forall|b: int| 1 <= b < array@.h ==> array@.rows[b] == old(array)@.rows[b],
            array@.rows[0] == Seq::new(
                width as nat,
                |a: int|
                    if a < x {
                        CellModel::Text(names@[a]@)
                    } else {
                        CellModel::Blank
                    },
            ),
        decreases names@.len() - x,
    {
        let done = array.set(x as u32, 0, CellValue::Text(names[x].clone()));
        proof {
            assert(array@.rows[0] =~= Seq::new(
                width as nat,
                |a: int|
                    if a < x + 1 {
                        CellModel::Text(names@[a]@)
                    } else {
                        CellModel::Blank
                    },
            ));
        }
        x = x + 1;
    }
    proof {
        assert(array@.rows[0] =~= header_row(texts_of(names@)));
        assert(array@.rows =~= old(array)@.rows.update(0, header_row(texts_of(names@))));
    }
}

/// The size of the table for `width` fields and `num_rows` rows of data.
fn columnar_size(width: usize, num_rows: i64) -> (r: Result<ArraySize, ColumnarFault>)
    ensures
        match r {
            Ok(size) => columnar_shape_fault(width as int, num_rows as int) is None && size.wf()
                && size.w == width && size.h == num_rows + 1,
            Err(fault) => columnar_shape_fault(width as int, num_rows as int) == Some(fault),
        },
{
    if num_rows < 0 || num_rows >= u32::MAX as i64 {
        return Err(ColumnarFault::TooLarge);
    }
    if width == 0 {
        return Err(ColumnarFault::Empty);
    }
    if width > u32::MAX as usize {
        return Err(ColumnarFault::TooLarge);
    }
    match ArraySize::new_or_err(width as u32, num_rows as u32 + 1) {
        Ok(size) => Ok(size),
        Err(_) => Err(ColumnarFault::TooLarge),
    }
}

/// The error that reports the fault `fault` of the file `file_name`.
fn error_of_columnar_fault(fault: ColumnarFault, file_name: &str) -> (error: ImportError)
    ensures
        reports_columnar_fault(error, fault, file_name@),
{
    match fault {
        ColumnarFault::Empty => ImportError::EmptyInput,
        ColumnarFault::TooLarge => ImportError::SizeOverflow,
        ColumnarFault::Misshapen { batch } => ImportError::MalformedInput {
            source: ImportSource::Parquet,
            file_name: file_name.to_owned(),
            line: None,
            detail: "batch outside the table".to_owned(),
        },
    }
}

/// The columns of the batches `batches` as plain values, or the error
/// where `arrow` cannot display a column of one of them.
fn plain_batches(batches: &Vec<Batch>, file_name: &str) -> (r: Result<Vec<BatchData>, ImportError>)
    ensures
        match r {
            Ok(plain) => batches_displayed(batches@) && batches_model(plain@) == batches_plain(
                batches@,
            ),
            Err(error) => !batches_displayed(batches@) && reports_unreadable(error, file_name@),
        },
{
    let mut plain: Vec<BatchData> = Vec::new();
    let mut b: usize = 0;
    while b < batches.len()
        invariant
            b <= batches@.len(),
            plain@.len() == b,
            forall|k: int| 0 <= k < b ==> batch_displayed(#[trigger] batches@[k]),
            forall|k: int| 0 <= k < b ==> (#[trigger] plain@[k])@ == batch_plain(batches@[k]),
        decreases batches@.len() - b,
    {
        let batch = &batches[b];
        let count: usize = batch_columns(batch);
        let mut columns: Vec<ColumnData> = Vec::new();
        let mut x: usize = 0;
        while x < count
            invariant
                x <= count,
                b < batches@.len(),
                *batch == batches@[b as int],
                count == batch_content(*batch).len(),
                columns@.len() == x,
                forall|a: int| 0 <= a < x ==> (#[trigger] batch_content(*batch)[a]).values is Some,
                forall|a: int|
                    0 <= a < x ==> (#[trigger] columns@[a])@ == column_read(batch_content(*batch)[a]),
            decreases count - x,
        {
            let values = match column_texts(batch, x) {
                Ok(values) => values,
                Err(e) => {
                    assert(batch_content(*batch)[x as int].values is None);
                    assert(!batch_displayed(batches@[b as int]));
                    return Err(
                        ImportError::MalformedInput {
                            source: ImportSource::Parquet,
                            file_name: file_name.to_owned(),
                            line: None,
                            detail: arrow_error_text(&e),
                        },
                    );
                },
            };
            columns.push(ColumnData { is_text: column_is_text(batch, x), values });
            x = x + 1;
        }
        let made = BatchData { num_rows: batch_rows(batch), columns };
        proof {
            assert(made@.columns =~= batch_plain(*batch).columns);
        }
        plain.push(made);
        b = b + 1;
    }
    proof {
        assert(batches_model(plain@) =~= batches_plain(batches@));
    }
    Ok(plain)
}

/// Where the batches from `from` up to `b` fit, the first that does not
/// fit from `from` on is the first from `b` on.
proof fn lemma_first_unfit_skip(
    batches: Seq<BatchModel>,
    width: int,
    num_rows: int,
    from: int,
    b: int,
)
    requires
        0 <= from <= b <= batches.len(),
        forall|i: int| from <= i < b ==> batch_fits(batches, i, width, num_rows),
    ensures
        first_unfit(batches, width, num_rows, from) == first_unfit(batches, width, num_rows, b),
    decreases b - from,
{
    if from < b {
        lemma_first_unfit_skip(batches, width, num_rows, from + 1, b);
    }
}

} // verus!
