//! Importing delimited text: from the records of a file to one data table
//! and the one operation that adds it.

use crate::array::{Array, ArrayError, ArraySize, Block};
use crate::cell_value::{CellModel, CellValue, Import};
use crate::coerce::{coerce, coerced};
use crate::controller::{GridController, IMPORT_LINES_PER_OPERATION};
use crate::csv_source::{
    csv_error_text, csv_records, parse_records, records_model, sniff_delimiter, sniffable,
    sniffed_delimiter, SNIFF_SAMPLE_BYTES,
};
use crate::text::texts_of;
use crate::encoding::{recover_text, recovered};
use crate::error::{lemma_preview_message, ImportError, ImportSource};
use crate::data_table::{DataTable, TableModel};
use crate::error::{progress_models, ImportProgress, ProgressModel};
use crate::formats::{FormatUpdate, Formats};
use crate::operation::Operation;
use crate::pos::{Pos, SheetId, SheetPos};
use vstd::prelude::*;

verus! {

/// Why the records of a file make no table.
#[derive(Clone, Copy, Debug, PartialEq, Eq, Structural)]
pub enum TableFault {
    /// There is no column or no row.
    Empty,
    /// There are more cells than can be counted.
    TooLarge,
    /// The record on this line could not be read.
    BadRecord { line: u64 },
    /// The record on this line has more fields than the table has columns,
    /// or stands behind its last row.
    RecordOutside { line: u64 },
}

/// Number of columns of the table: the number of fields of the last
/// record, 0 where there is none or it could not be read.
pub open spec fn csv_width(records: Seq<Option<Seq<Seq<char>>>>) -> int {
    if records.len() > 0 && records.last() is Some {
        records.last()->0.len() as int
    } else {
        0
    }
}

/// Whether the record `record`, the one at position `y`, was read and has
/// its place in a table of the given width and height.
pub open spec fn record_fits(record: Option<Seq<Seq<char>>>, y: int, width: int, height: int) -> bool {
    record is Some && y < height && record->0.len() <= width
}

/// Position of the first record from `from` on that does not fit, or the
/// number of records where all of them fit.
pub open spec fn first_misfit(
    records: Seq<Option<Seq<Seq<char>>>>,
    width: int,
    height: int,
    from: int,
) -> int
    decreases records.len() - from,
{
    if from < 0 || from >= records.len() {
        records.len() as int
    } else if !record_fits(records[from], from, width, height) {
        from
    } else {
        first_misfit(records, width, height, from + 1)
    }
}

/// Whether a table of this width and height can be made at all.
pub open spec fn csv_shape_fault(width: int, height: int) -> Option<TableFault> {
    if width == 0 || height == 0 {
        Some(TableFault::Empty)
    } else if width > u32::MAX || height > u32::MAX || width * height > u32::MAX {
        Some(TableFault::TooLarge)
    } else {
        None
    }
}

/// Why the records `records` make no table of `height` rows, if they make
/// none.
pub open spec fn csv_fault(records: Seq<Option<Seq<Seq<char>>>>, height: int) -> Option<
    TableFault,
> {
    let width = csv_width(records);
    if csv_shape_fault(width, height) is Some {
        csv_shape_fault(width, height)
    } else {
        let f = first_misfit(records, width, height, 0);
        if f >= records.len() {
            None
        } else if records[f] is None {
            Some(TableFault::BadRecord { line: (f + 1) as u64 })
        } else {
            Some(TableFault::RecordOutside { line: (f + 1) as u64 })
        }
    }
}

/// Number of records that are read before the import ends.
pub open spec fn csv_rows_read(records: Seq<Option<Seq<Seq<char>>>>, height: int) -> int {
    let width = csv_width(records);
    if csv_shape_fault(width, height) is Some {
        0
    } else {
        first_misfit(records, width, height, 0)
    }
}

/// The row of the table that a record fills: the value of each field, then
/// blanks up to the width.
pub open spec fn csv_row(record: Option<Seq<Seq<char>>>, width: int) -> Seq<CellModel> {
    Seq::new(
        width as nat,
        |x: int|
            if record is Some && x < record->0.len() {
                coerced(record->0[x], false).0
            } else {
                CellModel::Blank
            },
    )
}

/// The changes of format that a record brings to its row: that of each
/// field, then none up to the width.
pub open spec fn csv_row_formats(record: Option<Seq<Seq<char>>>, width: int) -> Seq<FormatUpdate> {
    Seq::new(
        width as nat,
        |x: int|
            if record is Some && x < record->0.len() {
                coerced(record->0[x], false).1
            } else {
                FormatUpdate::spec_default()
            },
    )
}

/// The block of values of the table: a row for each record, then blank
/// rows up to the height.
pub open spec fn csv_block(records: Seq<Option<Seq<Seq<char>>>>, width: int, height: int) -> Block {
    Block {
        w: width as nat,
        h: height as nat,
        rows: Seq::new(
            height as nat,
            |y: int|
                if y < records.len() {
                    csv_row(records[y], width)
                } else {
                    csv_row(None, width)
                },
        ),
    }
}

/// The changes of format of the table, row after row.
pub open spec fn csv_formats(records: Seq<Option<Seq<Seq<char>>>>, width: int) -> Seq<FormatUpdate>
    decreases records.len(),
{
    if records.len() == 0 {
        Seq::empty()
    } else {
        csv_formats(records.drop_last(), width) + csv_row_formats(records.last(), width)
    }
}

/// The table that the records make.
pub open spec fn csv_table(
    records: Seq<Option<Seq<Seq<char>>>>,
    height: int,
    file_name: Seq<char>,
    header_is_first_row: Option<bool>,
    now: int,
) -> TableModel {
    let block = csv_block(records, csv_width(records), height);
    TableModel {
        name: CellModel::Text(file_name),
        header_is_first_row: match header_is_first_row {
            Some(yes) => yes,
            None => block.first_row_looks_like_header(),
        },
        value: block,
        formats: csv_formats(records, csv_width(records)),
        last_modified: now,
    }
}

/// The notices of progress of an import of text that has read `rows`
/// records: one after every [`IMPORT_LINES_PER_OPERATION`] records.
pub open spec fn csv_notices(
    file_name: Seq<char>,
    rows: int,
    insert_at: Pos,
    width: int,
    height: int,
) -> Seq<ProgressModel> {
    Seq::new(
        (rows / (IMPORT_LINES_PER_OPERATION as int)) as nat,
        |i: int|
            ProgressModel {
                file_name,
                current: (i + 1) * IMPORT_LINES_PER_OPERATION,
                total: height,
                x: insert_at.x as int,
                y: insert_at.y as int,
                width,
                height,
            },
    )
}

/// Whether `op` adds the table `table`, read from the file `file_name`, at
/// `sheet_pos`.
pub open spec fn adds_table(
    op: Operation,
    sheet_pos: SheetPos,
    table: TableModel,
    file_name: Seq<char>,
) -> bool {
    &&& op matches Operation::AddDataTable { sheet_pos: at, data_table, cell_value, index }
    &&& at == sheet_pos
    &&& data_table@ == table
    &&& cell_value@ == CellModel::Import(file_name)
    &&& index is None
}

/// Where the last line ends that ends among the first `limit` bytes: behind
/// its line feed; 0 where no line ends there.
pub open spec fn last_line_end(bytes: Seq<u8>, limit: int) -> int
    decreases limit,
{
    if limit <= 0 {
        0
    } else if bytes[limit - 1] == 0x0A {
        limit
    } else {
        last_line_end(bytes, limit - 1)
    }
}

/// The sample of a text file that its delimiter is looked for in: its whole
/// lines among the first [`SNIFF_SAMPLE_BYTES`] bytes.
pub open spec fn sniff_sample(bytes: Seq<u8>) -> Seq<u8> {
    let limit = if bytes.len() <= SNIFF_SAMPLE_BYTES {
        bytes.len() as int
    } else {
        SNIFF_SAMPLE_BYTES as int
    };
    bytes.take(last_line_end(bytes, limit))
}

/// The delimiter found for a text file: the one found in its sample, or a
/// comma where the sample cannot be looked at or none is found in it.
pub open spec fn detected_delimiter(bytes: Seq<u8>) -> u8 {
    let sample = sniff_sample(bytes);
    if sniffable(sample) {
        match sniffed_delimiter(sample) {
            Some(delimiter) => delimiter,
            None => 0x2C,
        }
    } else {
        0x2C
    }
}

/// The delimiter that a text file is read with: the one that was chosen,
/// or else the one that is found for it.
pub open spec fn delimiter_for(bytes: Seq<u8>, chosen: Option<u8>) -> u8 {
    match chosen {
        Some(delimiter) => delimiter,
        None => detected_delimiter(bytes),
    }
}

/// Whether the error `error` reports the fault `fault` of the file
/// `file_name`.
pub open spec fn reports_fault(error: ImportError, fault: TableFault, file_name: Seq<char>) -> bool {
    match fault {
        TableFault::Empty => error == ImportError::EmptyInput,
        TableFault::TooLarge => error == ImportError::SizeOverflow,
        TableFault::BadRecord { line } => error matches ImportError::MalformedInput {
            source,
            file_name: name,
            line: at,
            detail,
        } && source == ImportSource::Csv && name@ == file_name && at == Some(line),
        TableFault::RecordOutside { line } => error matches ImportError::MalformedInput {
            source,
            file_name: name,
            line: at,
            detail,
        } && source == ImportSource::Csv && name@ == file_name && at == Some(line) && detail@
            == "record outside the table"@,
    }
}

/// The first `count` records of `records`, if all of them were read, else
/// the position of the first of them that was not.
pub open spec fn csv_preview(records: Seq<Option<Seq<Seq<char>>>>, count: int) -> Result<
    Seq<Seq<Seq<char>>>,
    int,
>
    decreases count,
{
    if count <= 0 || count > records.len() {
        Ok(Seq::empty())
    } else {
        match csv_preview(records, count - 1) {
            Ok(rows) => match records[count - 1] {
                Some(fields) => Ok(rows.push(fields)),
                None => Err(count - 1),
            },
            Err(at) => Err(at),
        }
    }
}

/// Number of records that a preview of at most `max_rows` rows shows.
pub open spec fn preview_len(records: Seq<Option<Seq<Seq<char>>>>, max_rows: int) -> int {
    if max_rows < records.len() {
        max_rows
    } else {
        records.len() as int
    }
}

/// The texts of the rows of a preview.
pub open spec fn rows_model(rows: Seq<Vec<String>>) -> Seq<Seq<Seq<char>>> {
    rows.map_values(|row: Vec<String>| texts_of(row@))
}

/// Finds the delimiter of the text file `bytes`.
pub fn detect_delimiter(bytes: &[u8]) -> (delimiter: u8)
    ensures
        delimiter == detected_delimiter(bytes@),
{
    let limit: usize = if bytes.len() <= SNIFF_SAMPLE_BYTES {
        bytes.len()
    } else {
        SNIFF_SAMPLE_BYTES
    };
    let mut end: usize = limit;
    while end > 0 && bytes[end - 1] != 0x0A
        invariant
            end <= limit <= bytes@.len(),
            last_line_end(bytes@, limit as int) == last_line_end(bytes@, end as int),
        decreases end,
    {
        end = end - 1;
    }
    let sample = vstd::slice::slice_subrange(bytes, 0, end);
    assert(sample@ =~= sniff_sample(bytes@));
    if !can_sniff(sample) {
        return 0x2C;
    }
    match sniff_delimiter(sample) {
        Some(delimiter) => delimiter,
        None => 0x2C,
    }
}

impl GridController {
    /// Leaves a notice of progress behind if `rows`, the number of records
    /// read so far, is a multiple of [`IMPORT_LINES_PER_OPERATION`].
    fn note_csv_progress(
        &mut self,
        file_name: &str,
        rows: u32,
        insert_at: Pos,
        width: u32,
        height: u32,
        Ghost(before): Ghost<Seq<ProgressModel>>,
    )
        requires
            rows >= 1,
            progress_models(old(self).progress@) == before + csv_notices(
                file_name@,
                rows - 1,
                insert_at,
                width as int,
                height as int,
            ),
        ensures
            final(self).sheet_names == old(self).sheet_names,
            final(self).next_sheet_id == old(self).next_sheet_id,
            final(self).now == old(self).now,
            progress_models(final(self).progress@) == before + csv_notices(
                file_name@,
                rows as int,
                insert_at,
                width as int,
                height as int,
            ),
    {
        let ghost earlier = csv_notices(file_name@, rows - 1, insert_at, width as int, height as int);
        let ghost later = csv_notices(file_name@, rows as int, insert_at, width as int, height as int);
        if rows % IMPORT_LINES_PER_OPERATION == 0 {
            let notice = ImportProgress {
                file_name: file_name.to_owned(),
                current: rows,
                total: height,
                x: insert_at.x,
                y: insert_at.y,
                width,
                height,
            };
            self.progress.push(notice);
            proof {
                assert(later =~= earlier.push(notice@));
                assert(progress_models(self.progress@) =~= progress_models(old(self).progress@).push(
                    notice@,
                ));
                assert(before + earlier.push(notice@) =~= (before + earlier).push(notice@));
            }
        } else {
            assert(later =~= earlier);
        }
    }

    /// Makes the data table of the records `records` of the file
    /// `file_name`, a table of `height` rows and as many columns as the last
    /// record has fields, and returns the one operation that adds it at
    /// `insert_at` on the sheet `sheet_id`. A record that could not be read
    /// or has no place in the table ends the import without an operation.
    /// The first row is the header where `header_is_first_row` says so, or,
    /// where it says nothing, where the first three rows look like it.
    pub fn data_table_from_records<E>(
        &mut self,
        sheet_id: SheetId,
        file_name: &str,
        insert_at: Pos,
        height: usize,
        records: &Vec<Result<Vec<String>, E>>,
        header_is_first_row: Option<bool>,
    ) -> (r: Result<Vec<Operation>, TableFault>)
        ensures
            final(self).sheet_names == old(self).sheet_names,
            final(self).next_sheet_id == old(self).next_sheet_id,
            final(self).now == old(self).now,
            progress_models(final(self).progress@) == progress_models(old(self).progress@)
                + csv_notices(
                file_name@,
                csv_rows_read(records_model(records@), height as int),
                insert_at,
                csv_width(records_model(records@)),
                height as int,
            ),
            match r {
                Ok(ops) => csv_fault(records_model(records@), height as int) is None && ops@.len()
                    == 1 && adds_table(
                    ops@[0],
                    SheetPos { x: insert_at.x, y: insert_at.y, sheet_id },
                    csv_table(
                        records_model(records@),
                        height as int,
                        file_name@,
                        header_is_first_row,
                        old(self).now as int,
                    ),
                    file_name@,
                ),
                Err(fault) => csv_fault(records_model(records@), height as int) == Some(fault),
            },
    {
        let ghost model = records_model(records@);
        let ghost before = progress_models(self.progress@);
        let width: usize = last_record_width(records);
        let size = match table_size(width, height) {
            Ok(size) => size,
            Err(fault) => {
                assert(before + csv_notices(file_name@, 0, insert_at, width as int, height as int)
                    =~= before);
                return Err(fault);
            },
        };
        let mut cell_values = Array::new_empty(size);
        let mut formats = Formats::new();
        let mut y: usize = 0;
        proof {
            assert(before + csv_notices(file_name@, 0, insert_at, width as int, height as int)
                =~= before);
            assert(model.take(0) =~= Seq::<Option<Seq<Seq<char>>>>::empty());
            assert forall|b: int| 0 <= b < height implies #[trigger] cell_values@.rows[b]
                == csv_row(None, width as int) by {
                assert forall|a: int| 0 <= a < width implies cell_values@.rows[b][a]
                    == CellModel::Blank by {
                    assert(cell_values@.at(a, b) == CellModel::Blank);
                }
                assert(cell_values@.rows[b] =~= csv_row(None, width as int));
            }
        }
        while y < records.len()
            invariant
                y <= records@.len(),
                y <= height,
                model == records_model(records@),
                width == csv_width(model),
                csv_shape_fault(width as int, height as int) is None,
                size.wf(),
                size.w == width,
                size.h == height,
                cell_values@.wf(),
                cell_values@.w == width,
                cell_values@.h == height,
                forall|b: int| 0 <= b < y ==> record_fits(#[trigger] model[b], b, width as int, height as int),
                forall|b: int| 0 <= b < y ==> #[trigger] cell_values@.rows[b] == csv_row(model[b], width as int),
                forall|b: int| y <= b < height ==> #[trigger] cell_values@.rows[b] == csv_row(None, width as int),
                formats.wf(),
                formats@ == csv_formats(model.take(y as int), width as int),
                formats@.len() == y * width,
                self.sheet_names == old(self).sheet_names,
                self.next_sheet_id == old(self).next_sheet_id,
                self.now == old(self).now,
                before == progress_models(old(self).progress@),
                progress_models(self.progress@) == before + csv_notices(
                    file_name@,
                    y as int,
                    insert_at,
                    width as int,
                    height as int,
                ),
            decreases records@.len() - y,
        {
            assert(model[y as int] == crate::csv_source::record_model(records@[y as int]));
            let fields = match &records[y] {
                Ok(fields) => fields,
                Err(_) => {
                    proof {
                        lemma_first_misfit_skip(model, width as int, height as int, 0, y as int);
                    }
                    return Err(TableFault::BadRecord { line: y as u64 + 1 });
                },
            };
            if y >= height || fields.len() > width {
                proof {
                    lemma_first_misfit_skip(model, width as int, height as int, 0, y as int);
                }
                return Err(TableFault::RecordOutside { line: y as u64 + 1 });
            }
            proof {
                lemma_csv_formats_step(model, width as int, y as int);
                assert((y + 1) * width == y * width + width) by (nonlinear_arith);
                assert((y + 1) * width <= width * height) by (nonlinear_arith)
                    requires
                        y + 1 <= height,
                        0 <= width,
                ;
            }
            fill_row(&mut cell_values, &mut formats, fields, y as u32);
            y = y + 1;
            self.note_csv_progress(
                file_name,
                y as u32,
                insert_at,
                width as u32,
                height as u32,
                Ghost(before),
            );
        }
        proof {
            lemma_first_misfit_skip(model, width as int, height as int, 0, y as int);
            assert(model.take(y as int) =~= model);
            assert(cell_values@.rows =~= csv_block(model, width as int, height as int).rows);
        }
        let import = Import::new(file_name.to_owned());
        let apply_first_row_as_header: bool = match header_is_first_row {
            Some(true) => true,
            Some(false) => false,
            None => self.guess_csv_first_row_is_header(&cell_values),
        };
        let mut data_table = DataTable::new(&import, cell_values, self.now);
        data_table.formats = formats;
        if apply_first_row_as_header {
            data_table.apply_first_row_as_header();
        }
        let mut ops: Vec<Operation> = Vec::new();
        ops.push(
            Operation::AddDataTable {
                sheet_pos: SheetPos { x: insert_at.x, y: insert_at.y, sheet_id },
                data_table,
                cell_value: CellValue::Import(import),
                index: None,
            },
        );
        Ok(ops)
    }
}

impl GridController {
    /// The first rows of a text file, at most `max_rows` of them, each as
    /// the texts of its fields. The file is read with `delimiter` or, where
    /// none is given, with the delimiter found for it. A record among them
    /// that cannot be read makes the preview fail, with its line.
    pub fn get_csv_preview(file: Vec<u8>, max_rows: u32, delimiter: Option<u8>) -> (r: Result<
        Vec<Vec<String>>,
        ImportError,
    >)
        ensures
            ({
                let text = recovered(file@);
                let records = csv_records(text, delimiter_for(text, delimiter), true);
                match csv_preview(records, preview_len(records, max_rows as int)) {
                    Ok(rows) => r matches Ok(preview) && rows_model(preview@) == rows,
                    Err(at) => r matches Err(
                        ImportError::MalformedInput { source, file_name, line, detail },
                    ) && source == ImportSource::CsvPreview && file_name@.len() == 0 && line
                        == Some((at + 1) as u64),
                }
            }),
            r matches Err(error) ==> "Error parsing CSV file for preview: line "@.is_prefix_of(
                error.message_text(),
            ),
    {
        let ghost source = recovered(file@);
        let text = recover_text(file);
        let by: u8 = match delimiter {
            Some(d) => d,
            None => detect_delimiter(text.as_slice()),
        };
        let records = parse_records(text.as_slice(), by, true);
        let ghost model = records_model(records@);
        let count: usize = if (max_rows as usize) < records.len() {
            max_rows as usize
        } else {
            records.len()
        };
        let mut preview: Vec<Vec<String>> = Vec::new();
        let mut i: usize = 0;
        assert(rows_model(preview@) =~= Seq::<Seq<Seq<char>>>::empty());
        while i < count
            invariant
                i <= count <= records@.len(),
                model == records_model(records@),
                source == recovered(file@),
                model == csv_records(source, delimiter_for(source, delimiter), true),
                count == preview_len(model, max_rows as int),
                csv_preview(model, i as int) == Ok::<Seq<Seq<Seq<char>>>, int>(rows_model(preview@)),
            decreases count - i,
        {
            assert(model[i as int] == crate::csv_source::record_model(records@[i as int]));
            match &records[i] {
                Err(e) => {
                    proof {
                        lemma_preview_fails(model, i as int, count as int);
                    }
                    let error = ImportError::MalformedInput {
                        source: ImportSource::CsvPreview,
                        file_name: String::new(),
                        line: Some(i as u64 + 1),
                        detail: csv_error_text(e),
                    };
                    proof {
                        lemma_preview_message(error);
                    }
                    return Err(error);
                },
                Ok(record) => {
                    let ghost before = rows_model(preview@);
                    preview.push(copy_fields(record));
                    assert(rows_model(preview@) =~= before.push(texts_of(record@)));
                },
            }
            i = i + 1;
        }
        Ok(preview)
    }

    /// Imports a text file of delimited records as one data table at
    /// `insert_at` on the sheet `sheet_id`. The bytes are taken as UTF-8,
    /// or as UTF-16 where they are not UTF-8 and can be read so; they are
    /// split with `delimiter` or, where none is given, with the delimiter
    /// found for them. The table has as many rows as there are records and
    /// as many columns as the last record has fields.
    pub fn import_csv_operations(
        &mut self,
        sheet_id: SheetId,
        file: Vec<u8>,
        file_name: &str,
        insert_at: Pos,
        delimiter: Option<u8>,
        header_is_first_row: Option<bool>,
    ) -> (r: Result<Vec<Operation>, ImportError>)
        ensures
            final(self).sheet_names == old(self).sheet_names,
            final(self).next_sheet_id == old(self).next_sheet_id,
            final(self).now == old(self).now,
            ({
                let text = recovered(file@);
                let by = delimiter_for(text, delimiter);
                let height = csv_records(text, by, false).len() as int;
                let records = csv_records(text, by, true);
                &&& progress_models(final(self).progress@) == progress_models(old(self).progress@)
                    + csv_notices(
                    file_name@,
                    csv_rows_read(records, height),
                    insert_at,
                    csv_width(records),
                    height,
                )
                &&& match r {
                    Ok(ops) => csv_fault(records, height) is None && ops@.len() == 1 && adds_table(
                        ops@[0],
                        SheetPos { x: insert_at.x, y: insert_at.y, sheet_id },
                        csv_table(records, height, file_name@, header_is_first_row, old(self).now as int),
                        file_name@,
                    ),
                    Err(error) => csv_fault(records, height) is Some && reports_fault(
                        error,
                        csv_fault(records, height)->0,
                        file_name@,
                    ),
                }
            }),
    {
        let text = recover_text(file);
        let by: u8 = match delimiter {
            Some(d) => d,
            None => detect_delimiter(text.as_slice()),
        };
        let height: usize = parse_records(text.as_slice(), by, false).len();
        let records = parse_records(text.as_slice(), by, true);
        match self.data_table_from_records(
            sheet_id,
            file_name,
            insert_at,
            height,
            &records,
            header_is_first_row,
        ) {
            Ok(ops) => Ok(ops),
            Err(fault) => {
                let count: usize = records.len();
                proof {
                    let model = records_model(records@);
                    lemma_first_misfit_bound(model, csv_width(model), height as int, 0);
                    let f = first_misfit(model, csv_width(model), height as int, 0);
                    assert(model.len() == records@.len());
                    if fault is BadRecord {
                        assert(csv_shape_fault(csv_width(model), height as int) is None);
                        assert(0 <= f < records@.len());
                        assert(fault == (TableFault::BadRecord { line: (f + 1) as u64 }));
                    }
                }
                Err(error_of_fault(fault, file_name, &records))
            },
        }
    }
}

/// Whether the sniffer can be given `sample`.
fn can_sniff(sample: &[u8]) -> (yes: bool)
    ensures
        yes == sniffable(sample@),
{
    let n: usize = sample.len();
    if n == 0 || n > SNIFF_SAMPLE_BYTES || sample[n - 1] != 0x0A {
        return false;
    }
    let mut i: usize = 0;
    while i < n
        invariant
            i <= n,
            n == sample@.len(),
            forall|k: int| 0 <= k < i ==> !crate::csv_source::is_quote(#[trigger] sample@[k]),
            forall|k: int| 0 <= k < i ==> #[trigger] crate::csv_source::ends_line(sample@, k),
        decreases n - i,
    {
        let c: u8 = sample[i];
        if c == 0x22 || c == 0x27 || c == 0x60 {
            return false;
        }
        if c == 0x0D && (i + 1 >= n || sample[i + 1] != 0x0A) {
            assert(!crate::csv_source::ends_line(sample@, i as int));
            return false;
        }
        i = i + 1;
    }
    true
}

/// Number of fields of the last record, 0 where there is none or it could
/// not be read.
fn last_record_width<E>(records: &Vec<Result<Vec<String>, E>>) -> (width: usize)
    ensures
        width == csv_width(records_model(records@)),
{
    let n: usize = records.len();
    if n == 0 {
        return 0;
    }
    assert(records_model(records@).last() == crate::csv_source::record_model(records@[n - 1]));
    match &records[n - 1] {
        Ok(fields) => fields.len(),
        Err(_) => 0,
    }
}

/// The size of a table of `width` columns and `height` rows, if there can
/// be one.
fn table_size(width: usize, height: usize) -> (r: Result<ArraySize, TableFault>)
    ensures
        match r {
            Ok(size) => csv_shape_fault(width as int, height as int) is None && size.wf()
                && size.w == width && size.h == height,
            Err(fault) => csv_shape_fault(width as int, height as int) == Some(fault),
        },
{
    if width == 0 || height == 0 {
        return Err(TableFault::Empty);
    }
    if width > u32::MAX as usize || height > u32::MAX as usize {
        return Err(TableFault::TooLarge);
    }
    match ArraySize::new_or_err(width as u32, height as u32) {
        Ok(size) => Ok(size),
        Err(_) => Err(TableFault::TooLarge),
    }
}

/// Writes the fields of one record into row `y` of `array`, which is still
/// blank, and appends the changes of format of the row to `formats`.
fn fill_row(array: &mut Array, formats: &mut Formats, fields: &Vec<String>, y: u32)
    requires
        old(array)@.wf(),
        y < old(array)@.h,
        fields@.len() <= old(array)@.w,
        old(array)@.rows[y as int] == csv_row(None, old(array)@.w as int),
        old(formats).wf(),
        old(formats)@.len() + old(array)@.w <= usize::MAX,
    ensures
        final(array)@.wf(),
        final(array)@.w == old(array)@.w,
        final(array)@.h == old(array)@.h,
        final(array)@.rows == old(array)@.rows.update(
            y as int,
            csv_row(Some(texts_of(fields@)), old(array)@.w as int),
        ),
        final(formats).wf(),
        final(formats)@ == old(formats)@ + csv_row_formats(
            Some(texts_of(fields@)),
            old(array)@.w as int,
        ),
{
    let width: u32 = array.width();
    let ghost record = Some(texts_of(fields@));
    let ghost w = width as int;
    let mut x: usize = 0;
    assert(formats@ + csv_row_formats(record, w).take(0) =~= formats@);
    while x < fields.len()
        invariant
            x <= fields@.len(),
            fields@.len() <= width,
            record == Some(texts_of(fields@)),
            w == width,
            array@.wf(),
            array@.w == width,
            array@.h == old(array)@.h,
            y < array@.h,
            forall|b: int| 0 <= b < array@.h && b != y ==> array@.rows[b] == old(array)@.rows[b],
            array@.rows[y as int] == Seq::new(
                width as nat,
                |a: int|
                    if a < x {
                        coerced(fields@[a]@, false).0
                    } else {
                        CellModel::Blank
                    },
            ),
            formats.wf(),
            formats@ == old(formats)@ + csv_row_formats(record, w).take(x as int),
            old(formats)@.len() + width <= usize::MAX,
        decreases fields@.len() - x,
    {
        let read = coerce(fields[x].as_str(), false);
        let ghost before = array@.rows;
        let ghost value = read.0@;
        let done = array.set(x as u32, y, read.0);
        formats.push(read.1);
        proof {
            assert(array@.rows[y as int] =~= Seq::new(
                width as nat,
                |a: int|
                    if a < x + 1 {
                        coerced(fields@[a]@, false).0
                    } else {
                        CellModel::Blank
                    },
            ));
            assert(csv_row_formats(record, w)[x as int] == read.1);
            assert(csv_row_formats(record, w).take(x + 1) =~= csv_row_formats(record, w).take(
                x as int,
            ).push(read.1));
            assert(formats@ =~= old(formats)@ + csv_row_formats(record, w).take(x + 1));
        }
        x = x + 1;
    }
    let rest: usize = width as usize - fields.len();
    formats.push_n(FormatUpdate::default(), rest);
    proof {
        assert(array@.rows[y as int] =~= csv_row(record, w));
        assert(array@.rows =~= old(array)@.rows.update(y as int, csv_row(record, w)));
        assert(formats@ =~= old(formats)@ + csv_row_formats(record, w));
    }
}

/// The error that reports the fault `fault` found in the records
/// `records` of the file `file_name`.
fn error_of_fault(
    fault: TableFault,
    file_name: &str,
    records: &Vec<Result<Vec<String>, csv::Error>>,
) -> (error: ImportError)
    requires
        fault matches TableFault::BadRecord { line } ==> 1 <= line <= records@.len(),
    ensures
        reports_fault(error, fault, file_name@),
{
    match fault {
        TableFault::Empty => ImportError::EmptyInput,
        TableFault::TooLarge => ImportError::SizeOverflow,
        TableFault::BadRecord { line } => {
            let detail = match &records[(line - 1) as usize] {
                Ok(_) => String::new(),
                Err(e) => csv_error_text(e),
            };
            ImportError::MalformedInput {
                source: ImportSource::Csv,
                file_name: file_name.to_owned(),
                line: Some(line),
                detail,
            }
        },
        TableFault::RecordOutside { line } => ImportError::MalformedInput {
            source: ImportSource::Csv,
            file_name: file_name.to_owned(),
            line: Some(line),
            detail: "record outside the table".to_owned(),
        },
    }
}

/// A copy of the fields of a record.
fn copy_fields(fields: &Vec<String>) -> (copy: Vec<String>)
    ensures
        texts_of(copy@) == texts_of(fields@),
{
    let mut copy: Vec<String> = Vec::new();
    let mut i: usize = 0;
    while i < fields.len()
        invariant
            i <= fields@.len(),
            copy@.len() == i,
            forall|k: int| 0 <= k < i ==> (#[trigger] copy@[k])@ == fields@[k]@,
        decreases fields@.len() - i,
    {
        copy.push(fields[i].clone());
        i = i + 1;
    }
    assert(texts_of(copy@) =~= texts_of(fields@));
    copy
}

/// The changes of format of the records before position `y + 1` are those
/// of the records before `y` and those of record `y`.
proof fn lemma_csv_formats_step(records: Seq<Option<Seq<Seq<char>>>>, width: int, y: int)
    requires
        0 <= y < records.len(),
        0 <= width,
    ensures
        csv_formats(records.take(y + 1), width) == csv_formats(records.take(y), width)
            + csv_row_formats(records[y], width),
        csv_formats(records.take(y + 1), width).len() == csv_formats(records.take(y), width).len()
            + width,
{
    assert(records.take(y + 1).drop_last() =~= records.take(y));
}

/// Where the records from `from` on up to `y` fit, the first misfit from
/// `from` on is the first from `y` on.
proof fn lemma_first_misfit_skip(
    records: Seq<Option<Seq<Seq<char>>>>,
    width: int,
    height: int,
    from: int,
    y: int,
)
    requires
        0 <= from <= y <= records.len(),
        forall|b: int| from <= b < y ==> record_fits(#[trigger] records[b], b, width, height),
    ensures
        first_misfit(records, width, height, from) == first_misfit(records, width, height, y),
    decreases y - from,
{
    if from < y {
        lemma_first_misfit_skip(records, width, height, from + 1, y);
    }
}

/// A preview fails at the first record that was not read.
proof fn lemma_preview_fails(records: Seq<Option<Seq<Seq<char>>>>, at: int, count: int)
    requires
        0 <= at < count <= records.len(),
        csv_preview(records, at) is Ok,
        records[at] is None,
    ensures
        csv_preview(records, count) == Err::<Seq<Seq<Seq<char>>>, int>(at),
    decreases count - at,
{
    if count > at + 1 {
        lemma_preview_fails(records, at, count - 1);
    }
}

/// The first misfit from `from` on stands at `from` or behind it, and not
/// behind the end.
proof fn lemma_first_misfit_bound(
    records: Seq<Option<Seq<Seq<char>>>>,
    width: int,
    height: int,
    from: int,
)
    requires
        0 <= from <= records.len(),
    ensures
        from <= first_misfit(records, width, height, from) <= records.len(),
    decreases records.len() - from,
{
    if from < records.len() && record_fits(records[from], from, width, height) {
        lemma_first_misfit_bound(records, width, height, from + 1);
    }
}

} // verus!
