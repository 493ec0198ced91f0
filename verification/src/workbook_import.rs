//! Importing a workbook: from the cells of its sheets to one operation
//! that adds each sheet and one that asks for each formula to be run.
//!
//! A workbook is imported in two steps, around the reading of the file,
//! which is the caller's. The caller opens the file and hands the names of
//! its sheets to [`GridController::check_sheet_names`], which refuses the
//! workbook where one of them is taken. The caller then reads the range of
//! values and the range of formulas of each sheet and keeps them with
//! [`SheetData::read`]; [`GridController::import_excel_operations`] makes
//! the operations of what was read. The reading lies outside this crate,
//! because `calamine` panics on some malformed workbooks, which nothing
//! known of the bytes of a file rules out, and no function of this crate
//! panics.

use crate::cell_value::{
    CellModel, CellValue, CodeCellLanguage, CodeCellValue, Date, DateTime, Time,
};
use crate::coerce::{
    date_or_time, number_of, unpack_date_time, unpack_str_float, whole_part_digits,
};
use crate::controller::{chars_equal, GridController};
use crate::text::texts_of;
use crate::pos::{Pos, SheetId, SheetPos};
use crate::sheet::{on_sheet, Sheet};
use crate::error::{progress_models, ImportError, ImportProgress, ImportSource, ProgressModel};
use crate::operation::Operation;
use crate::workbook_source::{
    cell_is_datetime, cell_kind, cell_moment, cell_text, formula_rows, key_after, key_like,
    moment_askable, next_order_key, range_cells, range_size, sorts_before, text_of, ExcelKind,
};
use vstd::prelude::*;

verus! {

/// The content of one cell of a workbook, as plain values.
#[derive(Clone, Debug, PartialEq, Eq)]
pub struct ExcelCell {
    /// The kind of content.
    pub kind: ExcelKind,
    /// The content as the workbook reader displays it.
    pub text: String,
    /// For a date or time: whether it is one, and not a duration.
    pub is_datetime: bool,
    /// For a date or time: the date and time of day it stands for.
    pub moment: Option<DateTime>,
}

/// Mathematical model of an [`ExcelCell`].
pub struct ExcelCellModel {
    pub kind: ExcelKind,
    pub text: Seq<char>,
    pub is_datetime: bool,
    pub moment: Option<DateTime>,
}

impl View for ExcelCell {
    type V = ExcelCellModel;

    open spec fn view(&self) -> ExcelCellModel {
        ExcelCellModel {
            kind: self.kind,
            text: self.text@,
            is_datetime: self.is_datetime,
            moment: self.moment,
        }
    }
}

/// What was read of one sheet of a workbook: the range of its values and
/// the range of its formulas, each with the row and column, counted from 0,
/// at which it starts.
#[derive(Clone, Debug, PartialEq, Eq)]
pub struct SheetData {
    pub name: String,
    pub values_start: Option<(u32, u32)>,
    pub values: Vec<Vec<ExcelCell>>,
    pub formulas_start: Option<(u32, u32)>,
    pub formulas: Vec<Vec<String>>,
}

/// Mathematical model of a [`SheetData`].
pub struct SheetDataModel {
    pub name: Seq<char>,
    pub values_start: Option<(u32, u32)>,
    pub values: Seq<Seq<ExcelCellModel>>,
    pub formulas_start: Option<(u32, u32)>,
    pub formulas: Seq<Seq<Seq<char>>>,
}

/// The models of the cells of a row.
pub open spec fn cells_model(row: Seq<ExcelCell>) -> Seq<ExcelCellModel> {
    row.map_values(|cell: ExcelCell| cell@)
}

/// The models of the rows of a range of values.
pub open spec fn values_model(rows: Seq<Vec<ExcelCell>>) -> Seq<Seq<ExcelCellModel>> {
    rows.map_values(|row: Vec<ExcelCell>| cells_model(row@))
}

/// The texts of the rows of a range of formulas.
pub open spec fn formulas_model(rows: Seq<Vec<String>>) -> Seq<Seq<Seq<char>>> {
    formula_rows(rows)
}

impl View for SheetData {
    type V = SheetDataModel;

    open spec fn view(&self) -> SheetDataModel {
        SheetDataModel {
            name: self.name@,
            values_start: self.values_start,
            values: values_model(self.values@),
            formulas_start: self.formulas_start,
            formulas: formulas_model(self.formulas@),
        }
    }
}

/// Whether a cell of a workbook is asked for the moment it stands for: it
/// is a date or time, not a duration, and its number is one that can be
/// asked.
pub open spec fn asks_moment(cell: ExcelCellModel) -> bool {
    cell.kind == ExcelKind::DateTime && cell.is_datetime && moment_askable(cell.text)
}

/// A cell as it is read: with its moment where it is asked for it, and
/// with none where it is not.
pub open spec fn asked_cell(cell: ExcelCellModel) -> ExcelCellModel {
    ExcelCellModel {
        moment: if asks_moment(cell) {
            cell.moment
        } else {
            None
        },
        ..cell
    }
}

/// The cells of a range as they are read.
pub open spec fn asked_rows(rows: Seq<Seq<ExcelCellModel>>) -> Seq<Seq<ExcelCellModel>> {
    rows.map_values(|row: Seq<ExcelCellModel>| row.map_values(|cell: ExcelCellModel| asked_cell(cell)))
}

/// The time of day at which a date has no time.
pub open spec fn zero_time() -> Time {
    Time { hour: 0, minute: 0, second: 0, nanosecond: 0 }
}

/// The date on which a time has no date: the day before the first day that
/// a workbook counts.
pub open spec fn zero_date() -> Date {
    Date { year: 1899, month: 12, day: 31 }
}

/// The value of a date with a time read from a workbook: the date alone
/// where the time of day is zero, else the time alone where the date is the
/// zero date, else both.
pub open spec fn moment_value(moment: DateTime) -> CellModel {
    if moment.time == zero_time() {
        CellModel::Date(moment.date)
    } else if moment.date == zero_date() {
        CellModel::Time(moment.time)
    } else {
        CellModel::DateTime(moment)
    }
}

/// The number that `text` writes, or blank where it writes none.
pub open spec fn number_or_blank(text: Seq<char>) -> CellModel {
    match number_of(text, true) {
        Some((value, _)) => CellModel::Number(value),
        None => CellModel::Blank,
    }
}

/// The value that a cell of a workbook brings to its sheet; an empty cell
/// and an error bring none.
pub open spec fn excel_value(cell: ExcelCellModel) -> Option<CellModel> {
    match cell.kind {
        ExcelKind::Empty => None,
        ExcelKind::Error => None,
        ExcelKind::String => Some(CellModel::Text(cell.text)),
        ExcelKind::DurationIso => Some(CellModel::Text(cell.text)),
        ExcelKind::DateTimeIso => Some(
            match date_or_time(cell.text) {
                Some(value) => value,
                None => CellModel::Text(cell.text),
            },
        ),
        ExcelKind::DateTime => Some(
            if cell.is_datetime {
                match cell.moment {
                    Some(moment) => moment_value(moment),
                    None => CellModel::Blank,
                }
            } else {
                CellModel::Text(cell.text)
            },
        ),
        ExcelKind::Float => Some(number_or_blank(cell.text)),
        ExcelKind::Int => Some(number_or_blank(cell.text)),
        ExcelKind::Bool => Some(CellModel::Logical(cell.text == "true"@)),
    }
}

/// The sheet position of the first cell of a range that starts at row and
/// column `start`, counted from 0: the column and the row, counted from 1.
/// A range without a start begins at the first cell of the sheet.
pub open spec fn range_origin(start: Option<(u32, u32)>) -> (int, int) {
    match start {
        Some((row, column)) => (column + 1, row + 1),
        None => (1, 1),
    }
}

/// Whether every cell of rows of the lengths `lens`, laid out from the
/// start `start` on, lies among the columns and rows that `u32` counts.
pub open spec fn range_on_sheet(start: Option<(u32, u32)>, lens: Seq<int>) -> bool {
    forall|j: int|
        0 <= j < lens.len() && #[trigger] lens[j] > 0 ==> range_origin(start).0 + lens[j] - 1
            <= u32::MAX && range_origin(start).1 + j <= u32::MAX
}

/// The lengths of the lists of `lists`.
pub open spec fn lens_of<T>(lists: Seq<Vec<T>>) -> Seq<int> {
    lists.map_values(|list: Vec<T>| list@.len() as int)
}

/// The model of an optional value.
pub open spec fn option_model(value: Option<CellValue>) -> Option<CellModel> {
    match value {
        Some(v) => Some(v@),
        None => None,
    }
}

/// The models of rows of optional values.
pub open spec fn options_model(rows: Seq<Vec<Option<CellValue>>>) -> Seq<Seq<Option<CellModel>>> {
    rows.map_values(|row: Vec<Option<CellValue>>| row@.map_values(|v: Option<CellValue>| option_model(v)))
}

/// The cells that the rows `rows` put on a sheet when they are laid out
/// from the start `start` on: a cell for every value there is.
pub open spec fn placed(start: Option<(u32, u32)>, rows: Seq<Seq<Option<CellModel>>>) -> Map<
    (int, int),
    CellModel,
> {
    let (x0, y0) = range_origin(start);
    Map::new(
        |p: (int, int)|
            0 <= p.1 - y0 < rows.len() && 0 <= p.0 - x0 < rows[p.1 - y0].len() && rows[p.1
                - y0][p.0 - x0] is Some,
        |p: (int, int)| rows[p.1 - y0][p.0 - x0]->0,
    )
}

/// The cells that the rows behind row `n` put on a sheet, and of row `n`
/// those from column `m` on.
spec fn placed_from(
    start: Option<(u32, u32)>,
    rows: Seq<Seq<Option<CellModel>>>,
    n: int,
    m: int,
) -> Map<(int, int), CellModel> {
    let (x0, y0) = range_origin(start);
    Map::new(
        |p: (int, int)|
            0 <= p.1 - y0 < rows.len() && 0 <= p.0 - x0 < rows[p.1 - y0].len() && rows[p.1
                - y0][p.0 - x0] is Some && (n < p.1 - y0 || (p.1 - y0 == n && m <= p.0 - x0)),
        |p: (int, int)| rows[p.1 - y0][p.0 - x0]->0,
    )
}

/// The values that the cells of a row of a workbook bring.
pub open spec fn row_values(row: Seq<ExcelCellModel>) -> Seq<Option<CellModel>> {
    row.map_values(|cell: ExcelCellModel| excel_value(cell))
}

/// The code cell that a formula makes; an empty text makes none.
pub open spec fn formula_value(text: Seq<char>) -> Option<CellModel> {
    if text.len() > 0 {
        Some(CellModel::Code(CodeCellLanguage::Formula, text))
    } else {
        None
    }
}

/// The code cells that the formulas of a row make.
pub open spec fn row_formulas(row: Seq<Seq<char>>) -> Seq<Option<CellModel>> {
    row.map_values(|text: Seq<char>| formula_value(text))
}

/// The value cells of a sheet by position.
pub open spec fn values_cells(start: Option<(u32, u32)>, rows: Seq<Seq<ExcelCellModel>>) -> Map<
    (int, int),
    CellModel,
> {
    placed(start, rows.map_values(|row: Seq<ExcelCellModel>| row_values(row)))
}

/// The formula cells of a sheet by position.
pub open spec fn formula_cells(start: Option<(u32, u32)>, rows: Seq<Seq<Seq<char>>>) -> Map<
    (int, int),
    CellModel,
> {
    placed(start, rows.map_values(|row: Seq<Seq<char>>| row_formulas(row)))
}

/// The cells of the sheet read as `data`: its values, and its formulas over
/// them.
pub open spec fn sheet_cells(data: SheetDataModel) -> Map<(int, int), CellModel> {
    values_cells(data.values_start, data.values).union_prefer_right(
        formula_cells(data.formulas_start, data.formulas),
    )
}

/// What an operation of an import of a workbook does.
pub enum OpModel {
    /// It adds this sheet.
    AddSheet(crate::sheet::SheetModel),
    /// It asks for the code at this position to be run.
    Compute(SheetPos),
    /// It does something else.
    Other,
}

/// What the operation `op` does.
pub open spec fn op_model(op: Operation) -> OpModel {
    match op {
        Operation::AddSheetSchema { schema } => OpModel::AddSheet(schema@),
        Operation::ComputeCode { sheet_pos } => OpModel::Compute(sheet_pos),
        _ => OpModel::Other,
    }
}

/// What the operations `ops` do.
pub open spec fn ops_model(ops: Seq<Operation>) -> Seq<OpModel> {
    ops.map_values(|op: Operation| op_model(op))
}

/// The positions of the formulas of the row `row`, which lies in row `y`
/// of the sheet and starts at column `x0`, from left to right.
pub open spec fn row_formula_positions(x0: int, y: int, row: Seq<Seq<char>>) -> Seq<(int, int)>
    decreases row.len(),
{
    if row.len() == 0 {
        Seq::empty()
    } else if row.last().len() > 0 {
        row_formula_positions(x0, y, row.drop_last()).push((x0 + row.len() - 1, y))
    } else {
        row_formula_positions(x0, y, row.drop_last())
    }
}

/// The positions of the formulas of a range, row after row.
pub open spec fn formula_positions(start: Option<(u32, u32)>, rows: Seq<Seq<Seq<char>>>) -> Seq<
    (int, int),
>
    decreases rows.len(),
{
    if rows.len() == 0 {
        Seq::empty()
    } else {
        formula_positions(start, rows.drop_last()) + row_formula_positions(
            range_origin(start).0,
            range_origin(start).1 + rows.len() - 1,
            rows.last(),
        )
    }
}

/// The operations that ask for the code at the positions `positions` of the
/// sheet `sheet_id` to be run.
pub open spec fn compute_models(positions: Seq<(int, int)>, sheet_id: SheetId) -> Seq<OpModel> {
    positions.map_values(
        |p: (int, int)| OpModel::Compute(SheetPos { x: p.0 as i64, y: p.1 as i64, sheet_id }),
    )
}

/// The ordering key behind `previous`, or the first of all where there is
/// no previous one: the one that the crate of fractional indices gives, or
/// `A0` where it gives none or cannot be asked.
pub open spec fn order_step(previous: Option<Seq<char>>) -> Seq<char> {
    if previous is Some && !key_like(previous->0) {
        "A0"@
    } else {
        match key_after(previous) {
            Some(key) => key,
            None => "A0"@,
        }
    }
}

/// Whether the key behind `previous` sorts after it, where the crate of
/// fractional indices gives that key.
pub open spec fn step_rises(previous: Seq<char>) -> bool {
    key_like(previous) && key_after(Some(previous)) is Some ==> sorts_before(
        previous,
        order_step(Some(previous)),
    )
}

/// Whether the ordering keys of the first `n` sheets of a workbook rise
/// from each sheet to the next, wherever the crate of fractional indices
/// gives the next key.
pub open spec fn orders_rise(n: int) -> bool {
    forall|i: int| 0 <= i && i + 1 < n ==> step_rises(#[trigger] sheet_order(i as nat))
}

/// The ordering key of the sheet at position `i` of a workbook: each lies
/// between the one before and no successor.
pub open spec fn sheet_order(i: nat) -> Seq<char>
    decreases i,
{
    if i == 0 {
        order_step(None)
    } else {
        order_step(Some(sheet_order((i - 1) as nat)))
    }
}

/// The models of what was read of the sheets of a workbook.
pub open spec fn sheets_model(sheets: Seq<SheetData>) -> Seq<SheetDataModel> {
    sheets.map_values(|sheet: SheetData| sheet@)
}

/// The names of the sheets read.
pub open spec fn sheets_names(sheets: Seq<SheetDataModel>) -> Seq<Seq<char>> {
    sheets.map_values(|sheet: SheetDataModel| sheet.name)
}

/// Whether the error `error` says that the workbook `file_name`, or a
/// sheet of it, could not be read, and gives `detail` as the reason.
pub open spec fn reports_unreadable_workbook(
    error: ImportError,
    file_name: Seq<char>,
    detail: Seq<char>,
) -> bool {
    error matches ImportError::MalformedInput { source, file_name: name, line, detail: reason }
        && source == ImportSource::Excel && name@ == file_name && line is None && reason@
        == detail
}

/// What looking at the names of the sheets of a workbook comes to: an
/// error that names the first of `names` that a sheet of the grid has
/// already, or nothing to object to where none of them is taken.
pub open spec fn names_checked(
    r: Result<(), ImportError>,
    existing: Seq<Seq<char>>,
    names: Seq<Seq<char>>,
) -> bool {
    let c = first_collision(existing, names, 0);
    if c < names.len() {
        r matches Err(ImportError::NameCollision { name }) && name@ == names[c]
    } else {
        r is Ok
    }
}

/// What is kept of a sheet whose values are `values` and whose formulas
/// are `formulas`, each with the start of its range.
pub open spec fn sheet_read(
    name: Seq<char>,
    values: (Option<(u32, u32)>, Seq<Seq<ExcelCellModel>>),
    formulas: (Option<(u32, u32)>, Seq<Seq<Seq<char>>>),
) -> SheetDataModel {
    SheetDataModel {
        name,
        values_start: values.0,
        values: asked_rows(values.1),
        formulas_start: formulas.0,
        formulas: formulas.1,
    }
}

/// Position of the first of `names` from `from` on that is among
/// `existing`, or the number of names where none is.
pub open spec fn first_collision(existing: Seq<Seq<char>>, names: Seq<Seq<char>>, from: int) -> int
    decreases names.len() - from,
{
    if from < 0 || from >= names.len() {
        names.len() as int
    } else if existing.contains(names[from]) {
        from
    } else {
        first_collision(existing, names, from + 1)
    }
}

/// The widths of the rows of a sheet in the order in which they are read:
/// the rows of values, then the rows of formulas.
pub open spec fn sheet_row_widths(sheet: SheetDataModel) -> Seq<int> {
    sheet.values.map_values(|row: Seq<ExcelCellModel>| row.len() as int) + sheet.formulas.map_values(
        |row: Seq<Seq<char>>| row.len() as int,
    )
}

/// The widths of the rows of a workbook in the order in which they are
/// read.
pub open spec fn workbook_row_widths(sheets: Seq<SheetDataModel>) -> Seq<int>
    decreases sheets.len(),
{
    if sheets.len() == 0 {
        Seq::empty()
    } else {
        workbook_row_widths(sheets.drop_last()) + sheet_row_widths(sheets.last())
    }
}

/// The total against which the progress of an import of a workbook is
/// counted: the rows of values of all sheets, twice.
pub open spec fn workbook_total(sheets: Seq<SheetDataModel>) -> int
    decreases sheets.len(),
{
    if sheets.len() == 0 {
        0
    } else {
        workbook_total(sheets.drop_last()) + 2 * sheets.last().values.len()
    }
}

/// The notices of progress for rows of the widths `widths`: one for each
/// row, which counts the rows before it.
pub open spec fn row_notices(file_name: Seq<char>, widths: Seq<int>, total: int) -> Seq<
    ProgressModel,
> {
    Seq::new(
        widths.len(),
        |k: int|
            ProgressModel {
                file_name,
                current: k,
                total,
                x: 0,
                y: 1,
                width: widths[k],
                height: total,
            },
    )
}

/// The notices of progress of an import of a workbook: one for each row of
/// values and each row of formulas.
pub open spec fn workbook_notices(file_name: Seq<char>, sheets: Seq<SheetDataModel>) -> Seq<
    ProgressModel,
> {
    row_notices(file_name, workbook_row_widths(sheets), workbook_total(sheets))
}

/// Whether one sheet read can be put on a sheet.
pub open spec fn sheet_fits(sheet: SheetDataModel) -> bool {
    &&& range_on_sheet(
        sheet.values_start,
        sheet.values.map_values(|row: Seq<ExcelCellModel>| row.len() as int),
    )
    &&& range_on_sheet(
        sheet.formulas_start,
        sheet.formulas.map_values(|row: Seq<Seq<char>>| row.len() as int),
    )
}

/// Whether the workbook read can be imported: its sheets can get their
/// identifiers from `first_id` on, its rows can be counted, and its cells
/// lie on their sheets.
pub open spec fn workbook_fits(sheets: Seq<SheetDataModel>, first_id: int) -> bool {
    &&& first_id + sheets.len() <= u64::MAX
    &&& workbook_total(sheets) <= u32::MAX
    &&& workbook_row_widths(sheets).len() <= u32::MAX
    &&& forall|i: int| 0 <= i < sheets.len() ==> sheet_fits(#[trigger] sheets[i])
}

/// The operations for one sheet read: one that adds the sheet, then one
/// for each of its formulas.
pub open spec fn sheet_ops(sheet: SheetDataModel, id: SheetId, order: Seq<char>) -> Seq<OpModel> {
    seq![
        OpModel::AddSheet(
            crate::sheet::SheetModel { id, name: sheet.name, order, cells: sheet_cells(sheet) },
        ),
    ] + compute_models(formula_positions(sheet.formulas_start, sheet.formulas), id)
}

/// The operations of an import of a workbook whose sheets get their
/// identifiers from `first_id` on.
pub open spec fn workbook_ops(sheets: Seq<SheetDataModel>, first_id: int) -> Seq<OpModel>
    decreases sheets.len(),
{
    if sheets.len() == 0 {
        Seq::empty()
    } else {
        workbook_ops(sheets.drop_last(), first_id) + sheet_ops(
            sheets.last(),
            SheetId { id: (first_id + sheets.len() - 1) as u64 },
            sheet_order((sheets.len() - 1) as nat),
        )
    }
}

/// What an import of the workbook read as `sheets` comes to. The ordering
/// key of its first sheet is `a0`.
pub open spec fn workbook_outcome(
    result: Result<Vec<Operation>, ImportError>,
    notices: Seq<ProgressModel>,
    existing: Seq<Seq<char>>,
    first_id: int,
    file_name: Seq<char>,
    sheets: Seq<SheetDataModel>,
) -> bool {
    let c = first_collision(existing, sheets_names(sheets), 0);
    if c < sheets.len() {
        &&& result matches Err(ImportError::NameCollision { name })
        &&& name@ == sheets[c].name
        &&& notices.len() == 0
    } else if !workbook_fits(sheets, first_id) {
        &&& result == Err::<Vec<Operation>, ImportError>(ImportError::SizeOverflow)
        &&& notices.len() == 0
    } else {
        &&& result matches Ok(ops)
        &&& ops_model(ops@) == workbook_ops(sheets, first_id)
        &&& notices == workbook_notices(file_name, sheets)
        &&& orders_rise(sheets.len() as int)
        &&& sheets.len() > 0 ==> sheet_order(0) == "a0"@
    }
}

/// The value of a date with a time read from a workbook.
pub fn value_of_moment(moment: DateTime) -> (value: CellValue)
    ensures
        value@ == moment_value(moment),
{
    let time = moment.time;
    let date = moment.date;
    if time.hour == 0 && time.minute == 0 && time.second == 0 && time.nanosecond == 0 {
        CellValue::Date(date)
    } else if date.year == 1899 && date.month == 12 && date.day == 31 {
        CellValue::Time(time)
    } else {
        CellValue::DateTime(moment)
    }
}

/// The value that the cell `cell` of a workbook brings to its sheet.
pub fn cell_value_of(cell: &ExcelCell) -> (value: Option<CellValue>)
    ensures
        match value {
            Some(v) => excel_value(cell@) == Some(v@),
            None => excel_value(cell@) is None,
        },
{
    match cell.kind {
        ExcelKind::Empty => None,
        ExcelKind::Error => None,
        ExcelKind::String => Some(CellValue::Text(cell.text.clone())),
        ExcelKind::DurationIso => Some(CellValue::Text(cell.text.clone())),
        ExcelKind::DateTimeIso => match unpack_date_time(cell.text.as_str()) {
            Some(value) => Some(value),
            None => Some(CellValue::Text(cell.text.clone())),
        },
        ExcelKind::DateTime => {
            if cell.is_datetime {
                match cell.moment {
                    Some(moment) => Some(value_of_moment(moment)),
                    None => Some(CellValue::Blank),
                }
            } else {
                Some(CellValue::Text(cell.text.clone()))
            }
        },
        ExcelKind::Float => Some(unpack_str_float(cell.text.as_str(), CellValue::Blank)),
        ExcelKind::Int => Some(unpack_str_float(cell.text.as_str(), CellValue::Blank)),
        ExcelKind::Bool => Some(CellValue::Logical(chars_equal(cell.text.as_str(), "true"))),
    }
}

/// Whether every cell of `rows`, laid out from the start `start` on, lies
/// among the columns and rows that `u32` counts.
pub fn rows_on_sheet<T>(start: Option<(u32, u32)>, rows: &Vec<Vec<T>>) -> (yes: bool)
    ensures
        yes == range_on_sheet(start, lens_of(rows@)),
{
    let (x0, y0): (u64, u64) = match start {
        Some((row, column)) => (column as u64 + 1, row as u64 + 1),
        None => (1, 1),
    };
    let mut j: usize = 0;
    while j < rows.len()
        invariant
            j <= rows@.len(),
            x0 == range_origin(start).0,
            y0 == range_origin(start).1,
            forall|k: int|
                0 <= k < j && #[trigger] lens_of(rows@)[k] > 0 ==> x0 + lens_of(rows@)[k] - 1
                    <= u32::MAX && y0 + k <= u32::MAX,
        decreases rows@.len() - j,
    {
        let len: usize = rows[j].len();
        assert(lens_of(rows@)[j as int] == len);
        if len > 0 && (x0 as u128 + len as u128 - 1 > u32::MAX as u128 || y0 as u128 + j as u128
            > u32::MAX as u128) {
            return false;
        }
        j = j + 1;
    }
    true
}

/// The ordering key behind `previous`, or the first of all, which is
/// `a0`. The key that the crate of fractional indices gives sorts after the
/// previous one.
pub fn next_order(previous: &Option<String>) -> (key: String)
    ensures
        key@ == order_step(text_of(*previous)),
        previous matches Some(p) ==> step_rises(p@),
        previous is None ==> key@ == "a0"@,
{
    match previous {
        Some(k) => {
            if !is_key_like(k.as_str()) {
                return "A0".to_owned();
            }
        },
        None => {},
    }
    match next_order_key(previous) {
        Some(key) => key,
        None => "A0".to_owned(),
    }
}

impl GridController {
    /// Position of the first of `names` that a sheet of the grid has
    /// already.
    pub fn first_taken(&self, names: &Vec<String>) -> (r: Option<usize>)
        ensures
            match r {
                Some(c) => c < names@.len() && first_collision(
                    texts_of(self.sheet_names@),
                    texts_of(names@),
                    0,
                ) == c,
                None => first_collision(texts_of(self.sheet_names@), texts_of(names@), 0)
                    == names@.len(),
            },
    {
        let ghost existing = texts_of(self.sheet_names@);
        let ghost model = texts_of(names@);
        let mut i: usize = 0;
        while i < names.len()
            invariant
                i <= names@.len(),
                existing == texts_of(self.sheet_names@),
                model == texts_of(names@),
                forall|k: int| 0 <= k < i ==> !existing.contains(#[trigger] model[k]),
            decreases names@.len() - i,
        {
            assert(model[i as int] == names@[i as int]@);
            if self.has_sheet_named(names[i].as_str()) {
                proof {
                    lemma_first_collision_skip(existing, model, 0, i as int);
                }
                return Some(i);
            }
            i = i + 1;
        }
        proof {
            lemma_first_collision_skip(existing, model, 0, i as int);
        }
        None
    }

    /// Leaves one notice of progress behind for each row of `sheets`.
    fn note_workbook_progress(&mut self, file_name: &str, sheets: &Vec<SheetData>)
        requires
            workbook_total(sheets_model(sheets@)) <= u32::MAX,
            workbook_row_widths(sheets_model(sheets@)).len() <= u32::MAX,
            forall|i: int| 0 <= i < sheets@.len() ==> sheet_fits(#[trigger] sheets_model(sheets@)[i]),
        ensures
            final(self).sheet_names == old(self).sheet_names,
            final(self).next_sheet_id == old(self).next_sheet_id,
            final(self).now == old(self).now,
            progress_models(final(self).progress@) == progress_models(old(self).progress@)
                + workbook_notices(file_name@, sheets_model(sheets@)),
    {
        let ghost model = sheets_model(sheets@);
        let ghost before = progress_models(self.progress@);
        let ghost full = workbook_total(model);
        let mut total: u64 = 0;
        let mut i: usize = 0;
        proof {
            assert(model.take(0) =~= Seq::<SheetDataModel>::empty());
        }
        while i < sheets.len()
            invariant
                i <= sheets@.len(),
                model == sheets_model(sheets@),
                total == workbook_total(model.take(i as int)),
                full == workbook_total(model),
                full <= u32::MAX,
            decreases sheets@.len() - i,
        {
            proof {
                assert(model.take(i + 1).drop_last() =~= model.take(i as int));
                assert(model.take(i + 1).last() == sheets@[i as int]@);
                lemma_totals_grow(model, i + 1, model.len() as int);
                assert(model.take(model.len() as int) =~= model);
            }
            total = total + 2 * sheets[i].values.len() as u64;
            i = i + 1;
        }
        proof {
            assert(model.take(i as int) =~= model);
        }
        let total: u32 = total as u32;
        let mut done: u32 = 0;
        let mut k: usize = 0;
        proof {
            assert(before + row_notices(file_name@, workbook_row_widths(model.take(0)), full as int)
                =~= before);
        }
        while k < sheets.len()
            invariant
                k <= sheets@.len(),
                model == sheets_model(sheets@),
                total == full,
                full == workbook_total(model),
                workbook_row_widths(model).len() <= u32::MAX,
                forall|i: int| 0 <= i < sheets@.len() ==> sheet_fits(#[trigger] model[i]),
                done == workbook_row_widths(model.take(k as int)).len(),
                self.sheet_names == old(self).sheet_names,
                self.next_sheet_id == old(self).next_sheet_id,
                self.now == old(self).now,
                progress_models(self.progress@) == before + row_notices(
                    file_name@,
                    workbook_row_widths(model.take(k as int)),
                    full as int,
                ),
            decreases sheets@.len() - k,
        {
            let sheet = &sheets[k];
            let ghost earlier = workbook_row_widths(model.take(k as int));
            proof {
                assert(model.take(k + 1).drop_last() =~= model.take(k as int));
                assert(model.take(k + 1).last() == sheet@);
                assert(model[k as int] == sheet@);
                assert(sheet_fits(model[k as int]));
                lemma_totals_grow(model, k + 1, model.len() as int);
                assert(model.take(model.len() as int) =~= model);
                assert(lens_of(sheet.values@) =~= sheet@.values.map_values(
                    |row: Seq<ExcelCellModel>| row.len() as int,
                ));
                assert(lens_of(sheet.formulas@) =~= sheet@.formulas.map_values(
                    |row: Seq<Seq<char>>| row.len() as int,
                ));
            }
            done = self.note_rows(
                file_name,
                sheet.values_start,
                &sheet.values,
                done,
                total,
                Ghost(before),
                Ghost(earlier),
            );
            done = self.note_rows(
                file_name,
                sheet.formulas_start,
                &sheet.formulas,
                done,
                total,
                Ghost(before),
                Ghost(earlier + lens_of(sheet.values@)),
            );
            proof {
                assert(earlier + lens_of(sheet.values@) + lens_of(sheet.formulas@)
                    =~= workbook_row_widths(model.take(k + 1)));
            }
            k = k + 1;
        }
        proof {
            assert(model.take(k as int) =~= model);
        }
    }

    /// Leaves one notice of progress behind for each row of `rows`; `done`
    /// rows were read before. Returns the number of rows read after.
    fn note_rows<T>(
        &mut self,
        file_name: &str,
        start: Option<(u32, u32)>,
        rows: &Vec<Vec<T>>,
        done: u32,
        total: u32,
        Ghost(before): Ghost<Seq<ProgressModel>>,
        Ghost(earlier): Ghost<Seq<int>>,
    ) -> (after: u32)
        requires
            range_on_sheet(start, lens_of(rows@)),
            done == earlier.len(),
            earlier.len() + rows@.len() <= u32::MAX,
            progress_models(old(self).progress@) == before + row_notices(
                file_name@,
                earlier,
                total as int,
            ),
        ensures
            after == done + rows@.len(),
            final(self).sheet_names == old(self).sheet_names,
            final(self).next_sheet_id == old(self).next_sheet_id,
            final(self).now == old(self).now,
            progress_models(final(self).progress@) == before + row_notices(
                file_name@,
                earlier + lens_of(rows@),
                total as int,
            ),
    {
        let mut done: u32 = done;
        let mut j: usize = 0;
        proof {
            assert(earlier + lens_of(rows@).take(0) =~= earlier);
        }
        while j < rows.len()
            invariant
                j <= rows@.len(),
                range_on_sheet(start, lens_of(rows@)),
                done == earlier.len() + j,
                earlier.len() + rows@.len() <= u32::MAX,
                self.sheet_names == old(self).sheet_names,
                self.next_sheet_id == old(self).next_sheet_id,
                self.now == old(self).now,
                progress_models(self.progress@) == before + row_notices(
                    file_name@,
                    earlier + lens_of(rows@).take(j as int),
                    total as int,
                ),
            decreases rows@.len() - j,
        {
            let len: usize = rows[j].len();
            let ghost widths = earlier + lens_of(rows@).take(j as int);
            proof {
                assert(lens_of(rows@)[j as int] == len);
                assert(range_origin(start).0 >= 1);
            }
            let notice = ImportProgress {
                file_name: file_name.to_owned(),
                current: done,
                total,
                x: 0,
                y: 1,
                width: len as u32,
                height: total,
            };
            let ghost old_models = progress_models(self.progress@);
            self.progress.push(notice);
            proof {
                assert(progress_models(self.progress@) =~= old_models.push(notice@));
                assert(earlier + lens_of(rows@).take(j + 1) =~= widths.push(len as int));
                assert(row_notices(file_name@, widths.push(len as int), total as int)
                    =~= row_notices(file_name@, widths, total as int).push(notice@));
                assert(before + row_notices(file_name@, widths, total as int).push(notice@) =~= (
                before + row_notices(file_name@, widths, total as int)).push(notice@));
            }
            done = done + 1;
            j = j + 1;
        }
        proof {
            assert(lens_of(rows@).take(j as int) =~= lens_of(rows@));
        }
        done
    }

    /// Imports the workbook read as `sheets` from the file `file_name`:
    /// one operation adds each sheet, with its cells and an ordering key of
    /// its own, and one operation for each formula asks for it to be run.
    /// Where a sheet has the name of a sheet of the grid, nothing is
    /// imported.
    pub fn import_workbook(&mut self, file_name: &str, sheets: &Vec<SheetData>) -> (r: Result<
        Vec<Operation>,
        ImportError,
    >)
        ensures
            final(self).sheet_names == old(self).sheet_names,
            final(self).next_sheet_id == old(self).next_sheet_id,
            final(self).now == old(self).now,
            progress_models(old(self).progress@).is_prefix_of(progress_models(final(self).progress@)),
            workbook_outcome(
                r,
                progress_models(final(self).progress@).skip(old(self).progress@.len() as int),
                texts_of(old(self).sheet_names@),
                old(self).next_sheet_id as int,
                file_name@,
                sheets_model(sheets@),
            ),
    {
        let ghost model = sheets_model(sheets@);
        let ghost before = progress_models(self.progress@);
        let names = names_of(sheets);
        proof {
            assert(before.skip(before.len() as int) =~= Seq::<ProgressModel>::empty());
        }
        match self.first_taken(&names) {
            Some(c) => {
                return Err(ImportError::NameCollision { name: sheets[c].name.clone() });
            },
            None => {},
        }
        if !sheets_fit(sheets, self.next_sheet_id) {
            return Err(ImportError::SizeOverflow);
        }
        let mut ops: Vec<Operation> = Vec::new();
        let mut order: Option<String> = None;
        let mut i: usize = 0;
        proof {
            assert(model.take(0) =~= Seq::<SheetDataModel>::empty());
            assert(ops_model(ops@) =~= workbook_ops(model.take(0), self.next_sheet_id as int));
        }
        while i < sheets.len()
            invariant
                i <= sheets@.len(),
                model == sheets_model(sheets@),
                workbook_fits(model, self.next_sheet_id as int),
                ops_model(ops@) == workbook_ops(model.take(i as int), self.next_sheet_id as int),
                i == 0 ==> order is None,
                i > 0 ==> order is Some && order->0@ == sheet_order((i - 1) as nat),
                orders_rise(i as int),
                i > 0 ==> sheet_order(0) == "a0"@,
            decreases sheets@.len() - i,
        {
            let key = next_order(&order);
            let id = SheetId { id: self.next_sheet_id + i as u64 };
            let kept = key.clone();
            proof {
                assert(key@ == sheet_order(i as nat));
                assert(orders_rise(i + 1)) by {
                    if i > 0 {
                        assert(step_rises(sheet_order((i - 1) as nat)));
                    }
                }
                assert(model[i as int] == sheets@[i as int]@);
                assert(model.take(i + 1).drop_last() =~= model.take(i as int));
                assert(model.take(i + 1).last() == sheets@[i as int]@);
            }
            push_sheet_ops(&mut ops, &sheets[i], id, key);
            order = Some(kept);
            i = i + 1;
        }
        proof {
            assert(model.take(i as int) =~= model);
        }
        self.note_workbook_progress(file_name, sheets);
        proof {
            let after = progress_models(self.progress@);
            assert(after.skip(before.len() as int) =~= workbook_notices(file_name@, model));
        }
        Ok(ops)
    }
}

impl SheetData {
    /// What is kept of the sheet `name` of a workbook, where the reader of
    /// workbooks has read `values` as the range of its values, starting at
    /// `values_start`, and `formulas` as the rows of the range of its
    /// formulas, starting at `formulas_start`. Of the values each cell is
    /// kept with its kind and its text; only a date or time is asked for
    /// the moment it stands for.
    pub fn read(
        name: String,
        values_start: Option<(u32, u32)>,
        values: &calamine::Range<calamine::Data>,
        formulas_start: Option<(u32, u32)>,
        formulas: Vec<Vec<String>>,
    ) -> (sheet: SheetData)
        ensures
            sheet@ == sheet_read(
                name@,
                (values_start, range_cells(*values)),
                (formulas_start, formula_rows(formulas@)),
            ),
    {
        SheetData { name, values_start, values: plain_rows(values), formulas_start, formulas }
    }
}

impl GridController {
    /// Looks whether the sheets of a workbook, called `names`, can join
    /// the grid: the first step of importing a workbook. Where a sheet of
    /// the grid has one of the names already, the workbook is refused, and
    /// none of its sheets is to be read. Otherwise the values and the
    /// formulas of each sheet are read and handed to
    /// [`GridController::import_excel_operations`].
    pub fn check_sheet_names(&self, names: &Vec<String>) -> (r: Result<(), ImportError>)
        ensures
            names_checked(r, texts_of(self.sheet_names@), texts_of(names@)),
    {
        match self.first_taken(names) {
            Some(c) => Err(ImportError::NameCollision { name: names[c].clone() }),
            None => Ok(()),
        }
    }

    /// Imports the sheets read from the workbook `file_name`, the second
    /// step of importing a workbook: see
    /// [`GridController::import_workbook`]. Where the file could not be
    /// opened as a workbook, or a sheet of it could not be read, `read`
    /// holds the reason in place of the sheets, and the import ends with
    /// an error that gives it.
    pub fn import_excel_operations(
        &mut self,
        read: Result<Vec<SheetData>, String>,
        file_name: &str,
    ) -> (r: Result<Vec<Operation>, ImportError>)
        ensures
            final(self).sheet_names == old(self).sheet_names,
            final(self).next_sheet_id == old(self).next_sheet_id,
            final(self).now == old(self).now,
            progress_models(old(self).progress@).is_prefix_of(progress_models(final(self).progress@)),
            match read {
                Err(detail) => r matches Err(error) && reports_unreadable_workbook(
                    error,
                    file_name@,
                    detail@,
                ) && final(self).progress@.len() == old(self).progress@.len(),
                Ok(sheets) => workbook_outcome(
                    r,
                    progress_models(final(self).progress@).skip(old(self).progress@.len() as int),
                    texts_of(old(self).sheet_names@),
                    old(self).next_sheet_id as int,
                    file_name@,
                    sheets_model(sheets@),
                ),
            },
    {
        match read {
            Err(detail) => Err(
                ImportError::MalformedInput {
                    source: ImportSource::Excel,
                    file_name: file_name.to_owned(),
                    line: None,
                    detail,
                },
            ),
            Ok(sheets) => self.import_workbook(file_name, &sheets),
        }
    }
}

/// The values that the cells of the rows `rows` of a workbook bring.
fn values_of_rows(rows: &Vec<Vec<ExcelCell>>) -> (values: Vec<Vec<Option<CellValue>>>)
    ensures
        options_model(values@) == values_model(rows@).map_values(
            |row: Seq<ExcelCellModel>| row_values(row),
        ),
        lens_of(values@) == lens_of(rows@),
{
    let mut values: Vec<Vec<Option<CellValue>>> = Vec::new();
    let mut j: usize = 0;
    while j < rows.len()
        invariant
            j <= rows@.len(),
            values@.len() == j,
            forall|b: int|
                0 <= b < j ==> (#[trigger] options_model(values@)[b]) == row_values(
                    cells_model(rows@[b]@),
                ),
        decreases rows@.len() - j,
    {
        let row = &rows[j];
        let mut out: Vec<Option<CellValue>> = Vec::new();
        let mut i: usize = 0;
        while i < row.len()
            invariant
                i <= row@.len(),
                out@.len() == i,
                forall|a: int|
                    0 <= a < i ==> option_model(#[trigger] out@[a]) == excel_value(row@[a]@),
            decreases row@.len() - i,
        {
            out.push(cell_value_of(&row[i]));
            i = i + 1;
        }
        let ghost before = options_model(values@);
        proof {
            assert(out@.map_values(|v: Option<CellValue>| option_model(v)) =~= row_values(
                cells_model(row@),
            ));
        }
        values.push(out);
        proof {
            assert(options_model(values@) =~= before.push(row_values(cells_model(row@))));
        }
        j = j + 1;
    }
    proof {
        assert(options_model(values@) =~= values_model(rows@).map_values(
            |row: Seq<ExcelCellModel>| row_values(row),
        ));
        assert forall|b: int| 0 <= b < rows@.len() implies lens_of(values@)[b] == lens_of(
            rows@,
        )[b] by {
            assert(options_model(values@)[b].len() == row_values(
                cells_model(rows@[b]@),
            ).len());
        }
        assert(lens_of(values@) =~= lens_of(rows@));
    }
    values
}

/// The code cells that the formulas of the rows `rows` make.
fn formulas_of_rows(rows: &Vec<Vec<String>>) -> (values: Vec<Vec<Option<CellValue>>>)
    ensures
        options_model(values@) == formulas_model(rows@).map_values(
            |row: Seq<Seq<char>>| row_formulas(row),
        ),
        lens_of(values@) == lens_of(rows@),
{
    let mut values: Vec<Vec<Option<CellValue>>> = Vec::new();
    let mut j: usize = 0;
    while j < rows.len()
        invariant
            j <= rows@.len(),
            values@.len() == j,
            forall|b: int|
                0 <= b < j ==> (#[trigger] options_model(values@)[b]) == row_formulas(
                    texts_of(rows@[b]@),
                ),
        decreases rows@.len() - j,
    {
        let row = &rows[j];
        let mut out: Vec<Option<CellValue>> = Vec::new();
        let mut i: usize = 0;
        while i < row.len()
            invariant
                i <= row@.len(),
                out@.len() == i,
                forall|a: int|
                    0 <= a < i ==> option_model(#[trigger] out@[a]) == formula_value(row@[a]@),
            decreases row@.len() - i,
        {
            if row[i].as_str().is_empty() {
                out.push(None);
            } else {
                out.push(
                    Some(
                        CellValue::Code(
                            CodeCellValue {
                                language: CodeCellLanguage::Formula,
                                code: row[i].clone(),
                            },
                        ),
                    ),
                );
            }
            i = i + 1;
        }
        let ghost before = options_model(values@);
        proof {
            assert(out@.map_values(|v: Option<CellValue>| option_model(v)) =~= row_formulas(
                texts_of(row@),
            ));
        }
        values.push(out);
        proof {
            assert(options_model(values@) =~= before.push(
                row_formulas(texts_of(row@)),
            ));
        }
        j = j + 1;
    }
    proof {
        assert(options_model(values@) =~= formulas_model(rows@).map_values(
            |row: Seq<Seq<char>>| row_formulas(row),
        ));
        assert forall|b: int| 0 <= b < rows@.len() implies lens_of(values@)[b] == lens_of(
            rows@,
        )[b] by {
            assert(options_model(values@)[b].len() == row_formulas(
                texts_of(rows@[b]@),
            ).len());
        }
        assert(lens_of(values@) =~= lens_of(rows@));
    }
    values
}

/// Puts the values of `rows` on the sheet, laid out from the start `start`
/// on, over what is there.
fn write_cells(sheet: &mut Sheet, start: Option<(u32, u32)>, rows: Vec<Vec<Option<CellValue>>>)
    requires
        range_on_sheet(start, lens_of(rows@)),
    ensures
        final(sheet)@.id == old(sheet)@.id,
        final(sheet)@.name == old(sheet)@.name,
        final(sheet)@.order == old(sheet)@.order,
        final(sheet)@.cells == old(sheet)@.cells.union_prefer_right(
            placed(start, options_model(rows@)),
        ),
{
    let (x0, y0): (i64, i64) = match start {
        Some((row, column)) => (column as i64 + 1, row as i64 + 1),
        None => (1, 1),
    };
    let mut rows = rows;
    let ghost all = rows@;
    let ghost model = options_model(all);
    let mut n: usize = rows.len();
    proof {
        assert(sheet@.cells =~= old(sheet)@.cells.union_prefer_right(
            placed_from(start, model, n as int, 0),
        ));
    }
    while n > 0
        invariant
            n == rows@.len(),
            n <= all.len(),
            rows@ == all.subrange(0, n as int),
            model == options_model(all),
            range_on_sheet(start, lens_of(all)),
            x0 == range_origin(start).0,
            y0 == range_origin(start).1,
            sheet@.id == old(sheet)@.id,
            sheet@.name == old(sheet)@.name,
            sheet@.order == old(sheet)@.order,
            sheet@.cells == old(sheet)@.cells.union_prefer_right(
                placed_from(start, model, n as int, 0),
            ),
        decreases n,
    {
        let mut row = rows.pop().unwrap();
        n = n - 1;
        let ghost whole = row@;
        let mut m: usize = row.len();
        proof {
            assert(whole == all[n as int]@);
            assert(model[n as int].len() == whole.len());
            assert(lens_of(all)[n as int] == whole.len());
            assert(placed_from(start, model, n + 1, 0) =~= placed_from(
                start,
                model,
                n as int,
                m as int,
            ));
        }
        while m > 0
            invariant
                m == row@.len(),
                m <= whole.len(),
                row@ == whole.subrange(0, m as int),
                whole == all[n as int]@,
                n < all.len(),
                model == options_model(all),
                range_on_sheet(start, lens_of(all)),
                lens_of(all)[n as int] == whole.len(),
                x0 == range_origin(start).0,
                y0 == range_origin(start).1,
                    sheet@.id == old(sheet)@.id,
                sheet@.name == old(sheet)@.name,
                sheet@.order == old(sheet)@.order,
                sheet@.cells == old(sheet)@.cells.union_prefer_right(
                    placed_from(start, model, n as int, m as int),
                ),
            decreases m,
        {
            let entry = row.pop().unwrap();
            m = m - 1;
            let ghost before = sheet@.cells;
            proof {
                assert(entry == whole[m as int]);
                assert(model[n as int][m as int] == option_model(entry));
            }
            match entry {
                Some(value) => {
                    let pos = Pos { x: x0 + m as i64, y: y0 + n as i64 };
                    let done = sheet.set_cell_value(pos, value);
                    assert(done);
                },
                None => {},
            }
            proof {
                assert(sheet@.cells =~= old(sheet)@.cells.union_prefer_right(
                    placed_from(start, model, n as int, m as int),
                ));
            }
        }
    }
    proof {
        assert(placed_from(start, model, 0, 0) =~= placed(start, model));
    }
}

/// Appends to `ops` one operation for each formula of `rows` that asks for
/// it to be run.
fn push_compute_ops(
    ops: &mut Vec<Operation>,
    start: Option<(u32, u32)>,
    rows: &Vec<Vec<String>>,
    sheet_id: SheetId,
)
    requires
        range_on_sheet(start, lens_of(rows@)),
    ensures
        ops_model(final(ops)@) == ops_model(old(ops)@) + compute_models(
            formula_positions(start, formulas_model(rows@)),
            sheet_id,
        ),
{
    let (x0, y0): (i64, i64) = match start {
        Some((row, column)) => (column as i64 + 1, row as i64 + 1),
        None => (1, 1),
    };
    let ghost model = formulas_model(rows@);
    let ghost before = ops_model(ops@);
    let mut j: usize = 0;
    proof {
        assert(model.take(0) =~= Seq::<Seq<Seq<char>>>::empty());
        assert(before + compute_models(formula_positions(start, model.take(0)), sheet_id)
            =~= before);
    }
    while j < rows.len()
        invariant
            j <= rows@.len(),
            model == formulas_model(rows@),
            range_on_sheet(start, lens_of(rows@)),
            x0 == range_origin(start).0,
            y0 == range_origin(start).1,
            ops_model(ops@) == before + compute_models(
                formula_positions(start, model.take(j as int)),
                sheet_id,
            ),
        decreases rows@.len() - j,
    {
        let row = &rows[j];
        let ghost texts = texts_of(row@);
        let ghost done = formula_positions(start, model.take(j as int));
        let mut i: usize = 0;
        proof {
            assert(texts == model[j as int]);
            assert(lens_of(rows@)[j as int] == row@.len());
            assert(texts.take(0) =~= Seq::<Seq<char>>::empty());
            assert(done + row_formula_positions(x0 as int, y0 + j, texts.take(0)) =~= done);
        }
        while i < row.len()
            invariant
                i <= row@.len(),
                j < rows@.len(),
                texts == texts_of(row@),
                range_on_sheet(start, lens_of(rows@)),
                lens_of(rows@)[j as int] == row@.len(),
                x0 == range_origin(start).0,
                y0 == range_origin(start).1,
                ops_model(ops@) == before + compute_models(
                    done + row_formula_positions(x0 as int, y0 + j, texts.take(i as int)),
                    sheet_id,
                ),
            decreases row@.len() - i,
        {
            let ghost so_far = done + row_formula_positions(x0 as int, y0 + j, texts.take(i as int));
            proof {
                assert(texts.take(i + 1).drop_last() =~= texts.take(i as int));
                assert(texts.take(i + 1).last() == row@[i as int]@);
            }
            if !row[i].as_str().is_empty() {
                let sheet_pos = SheetPos { x: x0 + i as i64, y: y0 + j as i64, sheet_id };
                let ghost earlier = ops_model(ops@);
                ops.push(Operation::ComputeCode { sheet_pos });
                proof {
                    assert(ops_model(ops@) =~= earlier.push(OpModel::Compute(sheet_pos)));
                    assert(done + row_formula_positions(x0 as int, y0 + j, texts.take(i + 1))
                        =~= so_far.push((x0 + i, y0 + j)));
                    assert(compute_models(so_far.push((x0 + i, y0 + j)), sheet_id)
                        =~= compute_models(so_far, sheet_id).push(OpModel::Compute(sheet_pos)));
                    assert(before + compute_models(so_far, sheet_id).push(
                        OpModel::Compute(sheet_pos),
                    ) =~= (before + compute_models(so_far, sheet_id)).push(
                        OpModel::Compute(sheet_pos),
                    ));
                }
            }
            i = i + 1;
        }
        proof {
            assert(texts.take(i as int) =~= texts);
            assert(model.take(j + 1).drop_last() =~= model.take(j as int));
            assert(model.take(j + 1).last() == texts);
        }
        j = j + 1;
    }
    proof {
        assert(model.take(j as int) =~= model);
    }
}

/// Whether `key` is made of digits and letters only, one at least.
fn is_key_like(key: &str) -> (yes: bool)
    ensures
        yes == key_like(key@),
{
    let chars = crate::text::chars_of(key);
    if chars.len() == 0 {
        return false;
    }
    let mut i: usize = 0;
    while i < chars.len()
        invariant
            i <= chars@.len(),
            chars@ == key@,
            forall|k: int| 0 <= k < i ==> crate::workbook_source::is_key_char(#[trigger] key@[k]),
        decreases chars@.len() - i,
    {
        let c: char = chars[i];
        if !((c >= '0' && c <= '9') || (c >= 'A' && c <= 'Z') || (c >= 'a' && c <= 'z')) {
            return false;
        }
        i = i + 1;
    }
    true
}

/// Whether the rows of the sheet `sheet` can be put on a sheet.
fn data_fits(sheet: &SheetData) -> (yes: bool)
    ensures
        yes == sheet_fits(sheet@),
{
    proof {
        assert(lens_of(sheet.values@) =~= sheet@.values.map_values(
            |row: Seq<ExcelCellModel>| row.len() as int,
        ));
        assert(lens_of(sheet.formulas@) =~= sheet@.formulas.map_values(
            |row: Seq<Seq<char>>| row.len() as int,
        ));
    }
    rows_on_sheet(sheet.values_start, &sheet.values) && rows_on_sheet(
        sheet.formulas_start,
        &sheet.formulas,
    )
}

/// Whether the workbook read as `sheets` can be imported with identifiers
/// from `first_id` on.
fn sheets_fit(sheets: &Vec<SheetData>, first_id: u64) -> (yes: bool)
    ensures
        yes == workbook_fits(sheets_model(sheets@), first_id as int),
{
    let ghost model = sheets_model(sheets@);
    if sheets.len() as u128 + first_id as u128 > u64::MAX as u128 {
        return false;
    }
    let mut total: u64 = 0;
    let mut rows: u64 = 0;
    let mut i: usize = 0;
    proof {
        assert(model.take(0) =~= Seq::<SheetDataModel>::empty());
    }
    while i < sheets.len()
        invariant
            i <= sheets@.len(),
            model == sheets_model(sheets@),
            total == workbook_total(model.take(i as int)),
            rows == workbook_row_widths(model.take(i as int)).len(),
            total <= u32::MAX,
            rows <= u32::MAX,
            forall|k: int| 0 <= k < i ==> sheet_fits(#[trigger] model[k]),
        decreases sheets@.len() - i,
    {
        let sheet = &sheets[i];
        proof {
            assert(model.take(i + 1).drop_last() =~= model.take(i as int));
            assert(model.take(i + 1).last() == sheet@);
            assert(model[i as int] == sheet@);
            lemma_totals_grow(model, i + 1, model.len() as int);
            assert(model.take(model.len() as int) =~= model);
            assert(sheet@.values.len() == sheet.values@.len());
            assert(sheet_row_widths(sheet@).len() == sheet.values@.len() + sheet.formulas@.len());
        }
        let values: usize = sheet.values.len();
        let formulas: usize = sheet.formulas.len();
        if values as u128 * 2 + total as u128 > u32::MAX as u128 || values as u128 + formulas as u128
            + rows as u128 > u32::MAX as u128 {
            return false;
        }
        if !data_fits(sheet) {
            return false;
        }
        total = total + 2 * values as u64;
        rows = rows + values as u64 + formulas as u64;
        i = i + 1;
    }
    proof {
        assert(model.take(i as int) =~= model);
    }
    true
}

/// Builds the sheet read as `data` and appends its operations to `ops`.
fn push_sheet_ops(ops: &mut Vec<Operation>, data: &SheetData, id: SheetId, order: String)
    requires
        sheet_fits(data@),
    ensures
        ops_model(final(ops)@) == ops_model(old(ops)@) + sheet_ops(data@, id, order@),
{
    let ghost before = ops_model(ops@);
    proof {
        assert(lens_of(data.values@) =~= data@.values.map_values(
            |row: Seq<ExcelCellModel>| row.len() as int,
        ));
        assert(lens_of(data.formulas@) =~= data@.formulas.map_values(
            |row: Seq<Seq<char>>| row.len() as int,
        ));
    }
    let mut sheet = Sheet::new(id, data.name.clone(), order);
    write_cells(&mut sheet, data.values_start, values_of_rows(&data.values));
    write_cells(&mut sheet, data.formulas_start, formulas_of_rows(&data.formulas));
    proof {
        assert(sheet@.cells =~= sheet_cells(data@));
    }
    let ghost added = OpModel::AddSheet(sheet@);
    ops.push(Operation::AddSheetSchema { schema: sheet });
    proof {
        assert(ops_model(ops@) =~= before.push(added));
    }
    push_compute_ops(ops, data.formulas_start, &data.formulas, id);
    proof {
        assert(ops_model(ops@) =~= before + sheet_ops(data@, id, order@));
    }
}

/// The names of the sheets read.
fn names_of(sheets: &Vec<SheetData>) -> (names: Vec<String>)
    ensures
        texts_of(names@) == sheets_names(sheets_model(sheets@)),
{
    let mut names: Vec<String> = Vec::new();
    let mut i: usize = 0;
    while i < sheets.len()
        invariant
            i <= sheets@.len(),
            names@.len() == i,
            forall|k: int| 0 <= k < i ==> (#[trigger] names@[k])@ == sheets@[k].name@,
        decreases sheets@.len() - i,
    {
        names.push(sheets[i].name.clone());
        i = i + 1;
    }
    assert(texts_of(names@) =~= sheets_names(sheets_model(sheets@)));
    names
}

/// The plain content of each cell of the range `rows`, row by row. Only a
/// date or time is asked for its moment.
fn plain_rows(rows: &calamine::Range<calamine::Data>) -> (cells: Vec<Vec<ExcelCell>>)
    ensures
        values_model(cells@) == asked_rows(range_cells(*rows)),
{
    let (height, width) = range_size(rows);
    let mut cells: Vec<Vec<ExcelCell>> = Vec::new();
    let mut j: usize = 0;
    while j < height
        invariant
            j <= height,
            height == range_cells(*rows).len(),
            forall|row: int|
                0 <= row < range_cells(*rows).len() ==> (#[trigger] range_cells(*rows)[row]).len()
                    == width,
            cells@.len() == j,
            forall|b: int|
                0 <= b < j ==> #[trigger] values_model(cells@)[b] == asked_rows(
                    range_cells(*rows),
                )[b],
        decreases height - j,
    {
        let mut out: Vec<ExcelCell> = Vec::new();
        let mut i: usize = 0;
        while i < width
            invariant
                i <= width,
                j < height,
                height == range_cells(*rows).len(),
                range_cells(*rows)[j as int].len() == width,
                out@.len() == i,
                forall|a: int|
                    0 <= a < i ==> (#[trigger] out@[a])@ == asked_cell(
                        range_cells(*rows)[j as int][a],
                    ),
            decreases width - i,
        {
            let kind = cell_kind(rows, j, i);
            let text = cell_text(rows, j, i);
            let is_datetime = cell_is_datetime(rows, j, i);
            let count: usize = whole_part_digits(text.as_str());
            let asks: bool = match kind {
                ExcelKind::DateTime => is_datetime && 1 <= count && count <= 10,
                _ => false,
            };
            let moment = if asks {
                cell_moment(rows, j, i)
            } else {
                None
            };
            out.push(ExcelCell { kind, text, is_datetime, moment });
            i = i + 1;
        }
        let ghost before = values_model(cells@);
        proof {
            assert(cells_model(out@) =~= asked_rows(range_cells(*rows))[j as int]);
        }
        cells.push(out);
        proof {
            assert(values_model(cells@) =~= before.push(asked_rows(range_cells(*rows))[j as int]));
        }
        j = j + 1;
    }
    proof {
        assert(values_model(cells@) =~= asked_rows(range_cells(*rows)));
    }
    cells
}

/// The totals of the first `n` sheets are no more than those of the first
/// `m`, for `n` up to `m`.
proof fn lemma_totals_grow(sheets: Seq<SheetDataModel>, n: int, m: int)
    requires
        0 <= n <= m <= sheets.len(),
    ensures
        workbook_total(sheets.take(n)) <= workbook_total(sheets.take(m)),
        workbook_row_widths(sheets.take(n)).len() <= workbook_row_widths(sheets.take(m)).len(),
    decreases m - n,
{
    if n < m {
        lemma_totals_grow(sheets, n, m - 1);
        assert(sheets.take(m).drop_last() =~= sheets.take(m - 1));
    }
}

/// Where none of the names from `from` up to `to` is taken, the first
/// collision from `from` on is the first from `to` on.
proof fn lemma_first_collision_skip(
    existing: Seq<Seq<char>>,
    names: Seq<Seq<char>>,
    from: int,
    to: int,
)
    requires
        0 <= from <= to <= names.len(),
        forall|k: int| from <= k < to ==> !existing.contains(#[trigger] names[k]),
    ensures
        first_collision(existing, names, from) == first_collision(existing, names, to),
    decreases to - from,
{
    if from < to {
        lemma_first_collision_skip(existing, names, from + 1, to);
    }
}

} // verus!
