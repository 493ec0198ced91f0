use std::sync::Arc;

use arrow_array::{
    ArrayRef, BooleanArray, Date32Array, Float64Array, Int64Array, RecordBatch, StringArray,
    Time64MicrosecondArray, TimestampMillisecondArray,
};
use arrow_schema::{DataType, Field, Schema, TimeUnit};
use parquet::arrow::ArrowWriter;
use quadratic_core::array::ArraySize;
use quadratic_core::cell_value::{CellValue, Date, DateTime, Decimal, Time};
use quadratic_core::columnar_import::{
    BatchData, ColumnData, ColumnarData, ColumnarFault, ColumnarRead,
};
use quadratic_core::columnar_source::Batch;
use quadratic_core::controller::GridController;
use quadratic_core::data_table::DataTable;
use quadratic_core::error::{ImportError, ImportProgress, ImportSource};
use quadratic_core::operation::Operation;
use quadratic_core::pos::{Pos, SheetId, SheetPos};

fn parquet_of(fields: Vec<(&str, DataType, ArrayRef)>) -> Vec<u8> {
    let schema = Arc::new(Schema::new(
        fields
            .iter()
            .map(|(name, data_type, _)| Field::new(*name, data_type.clone(), true))
            .collect::<Vec<_>>(),
    ));
    let columns = fields.into_iter().map(|(_, _, column)| column).collect();
    let batch = RecordBatch::try_new(schema.clone(), columns).unwrap();
    let mut out = Vec::new();
    let mut writer = ArrowWriter::try_new(&mut out, schema, None).unwrap();
    writer.write(&batch).unwrap();
    writer.close().unwrap();
    out
}

/// Reads the columnar file `file`: the rows and the fields that its
/// metadata declares, and all of its batches; the reason where it cannot
/// be read.
fn read_parquet(file: Vec<u8>) -> Result<ColumnarRead, String> {
    let source = bytes::Bytes::from(file);
    let builder = parquet::arrow::arrow_reader::ParquetRecordBatchReaderBuilder::try_new(source)
        .map_err(|e| e.to_string())?;
    let meta = builder.metadata().file_metadata();
    let num_rows = meta.num_rows();
    let field_names = meta.schema().get_fields().iter().map(|f| f.name().to_string()).collect();
    let reader = builder.build().map_err(|e| e.to_string())?;
    let batches = reader
        .map(|batch| batch.map(|inner| Batch { inner }))
        .collect::<Result<Vec<_>, _>>()
        .map_err(|e| e.to_string())?;
    Ok(ColumnarRead { num_rows, field_names, batches })
}

/// Imports a columnar file: it is read here, and what was read is
/// imported.
fn import_file(
    gc: &mut GridController,
    sheet_id: SheetId,
    file: Vec<u8>,
    file_name: &str,
    insert_at: Pos,
) -> Result<Vec<Operation>, ImportError> {
    gc.import_parquet_operations(sheet_id, read_parquet(file), file_name, insert_at)
}

fn days(year: i32, month: u32, day: u32) -> i32 {
    let epoch = chrono::NaiveDate::from_ymd_opt(1970, 1, 1).unwrap();
    let date = chrono::NaiveDate::from_ymd_opt(year, month, day).unwrap();
    date.signed_duration_since(epoch).num_days() as i32
}

fn table_of(ops: &[Operation]) -> &DataTable {
    match &ops[0] {
        Operation::AddDataTable { data_table, .. } => data_table,
        _ => panic!("Expected AddDataTable operation"),
    }
}

fn number(mantissa: i128, scale: u32) -> CellValue {
    CellValue::Number(Decimal { mantissa, scale })
}

#[test]
fn import_parquet_date_time() {
    let mut gc = GridController::test();
    let sheet_id = SheetId { id: 0 };
    let second = 1_000_000i64;
    let day_ms = 86_400_000i64;
    let file = parquet_of(vec![
        (
            "date",
            DataType::Date32,
            Arc::new(Date32Array::from(vec![
                days(2024, 12, 21),
                days(2024, 12, 22),
                days(2024, 12, 23),
            ])),
        ),
        (
            "time",
            DataType::Time64(TimeUnit::Microsecond),
            Arc::new(Time64MicrosecondArray::from(vec![
                (13 * 3600 + 23 * 60) * second,
                (14 * 3600 + 45 * 60) * second,
                (16 * 3600 + 30 * 60) * second,
            ])),
        ),
        (
            "datetime",
            DataType::Timestamp(TimeUnit::Millisecond, None),
            Arc::new(TimestampMillisecondArray::from(vec![
                days(2024, 12, 21) as i64 * day_ms + (13 * 3600 + 23 * 60) * 1000,
                days(2024, 12, 22) as i64 * day_ms + (14 * 3600 + 30 * 60) * 1000,
                days(2024, 12, 23) as i64 * day_ms + (16 * 3600 + 45 * 60) * 1000,
            ])),
        ),
    ]);
    let pos = Pos { x: 1, y: 1 };
    let ops = import_file(&mut gc, sheet_id, file, "parquet", pos).unwrap();
    let data_table = table_of(&ops);

    let date = |day: u32| Date { year: 2024, month: 12, day };
    let time = |hour: u32, minute: u32| Time { hour, minute, second: 0, nanosecond: 0 };

    // A table counts its rows of data from 0, without the two rows that a
    // sheet shows above them for its name and the headers of its columns.

    // date
    assert_eq!(data_table.cell_value_ref_at(0, 0), Some(&CellValue::Date(date(21))));
    assert_eq!(data_table.cell_value_ref_at(0, 1), Some(&CellValue::Date(date(22))));
    assert_eq!(data_table.cell_value_ref_at(0, 2), Some(&CellValue::Date(date(23))));

    // time
    assert_eq!(data_table.cell_value_ref_at(1, 0), Some(&CellValue::Time(time(13, 23))));
    assert_eq!(data_table.cell_value_ref_at(1, 1), Some(&CellValue::Time(time(14, 45))));
    assert_eq!(data_table.cell_value_ref_at(1, 2), Some(&CellValue::Time(time(16, 30))));

    // date time
    assert_eq!(
        data_table.cell_value_ref_at(2, 0),
        Some(&CellValue::DateTime(DateTime { date: date(21), time: time(13, 23) }))
    );
    assert_eq!(
        data_table.cell_value_ref_at(2, 1),
        Some(&CellValue::DateTime(DateTime { date: date(22), time: time(14, 30) }))
    );
    assert_eq!(
        data_table.cell_value_ref_at(2, 2),
        Some(&CellValue::DateTime(DateTime { date: date(23), time: time(16, 45) }))
    );
}

#[test]
fn import_parquet_reads_each_kind_of_column() {
    let mut gc = GridController::test();
    let file = parquet_of(vec![
        ("id", DataType::Int64, Arc::new(Int64Array::from(vec![Some(1), None, Some(-3)]))),
        (
            "name",
            DataType::Utf8,
            Arc::new(StringArray::from(vec![Some("12"), Some("true"), None])),
        ),
        (
            "share",
            DataType::Float64,
            Arc::new(Float64Array::from(vec![Some(0.5), Some(2.0), Some(-1.25)])),
        ),
        (
            "paid",
            DataType::Boolean,
            Arc::new(BooleanArray::from(vec![Some(true), Some(false), None])),
        ),
    ]);
    let pos = Pos { x: 2, y: 5 };
    let ops = import_file(&mut gc, SheetId { id: 0 }, file, "kinds.parquet", pos).unwrap();
    assert_eq!(ops.len(), 1);
    match &ops[0] {
        Operation::AddDataTable { sheet_pos, cell_value, index, data_table } => {
            assert_eq!(*sheet_pos, SheetPos::new(SheetId { id: 0 }, 2, 5));
            assert_eq!(
                *cell_value,
                CellValue::Import(quadratic_core::cell_value::Import::new("kinds.parquet".into()))
            );
            assert_eq!(*index, None);
            assert_eq!(data_table.name, CellValue::from("kinds.parquet"));
        }
        _ => panic!("Expected AddDataTable operation"),
    }
    let table = table_of(&ops);
    assert!(table.header_is_first_row);
    assert_eq!(table.value.size(), ArraySize { w: 4, h: 4 });
    assert_eq!(table.height(), 3);
    assert_eq!(table.column_header(0), Some(&CellValue::from("id")));
    assert_eq!(table.column_header(3), Some(&CellValue::from("paid")));
    assert_eq!(table.cell_value_ref_at(0, 0), Some(&number(1, 0)));
    assert_eq!(table.cell_value_ref_at(0, 1), Some(&CellValue::Blank));
    assert_eq!(table.cell_value_ref_at(0, 2), Some(&number(-3, 0)));
    assert_eq!(table.cell_value_ref_at(1, 0), Some(&CellValue::from("12")));
    assert_eq!(table.cell_value_ref_at(1, 1), Some(&CellValue::from("true")));
    assert_eq!(table.cell_value_ref_at(1, 2), Some(&CellValue::Blank));
    assert_eq!(table.cell_value_ref_at(2, 0), Some(&number(5, 1)));
    assert_eq!(table.cell_value_ref_at(2, 1), Some(&number(20, 1)));
    assert_eq!(table.cell_value_ref_at(2, 2), Some(&number(-125, 2)));
    assert_eq!(table.cell_value_ref_at(3, 0), Some(&CellValue::Logical(true)));
    assert_eq!(table.cell_value_ref_at(3, 1), Some(&CellValue::Logical(false)));
    assert_eq!(table.cell_value_ref_at(3, 2), Some(&CellValue::Blank));
    assert_eq!(table.formats.size(), 0);
    assert_eq!(
        gc.progress,
        vec![
            ImportProgress {
                file_name: "kinds.parquet".into(),
                current: 3,
                total: 3,
                x: 2,
                y: 5,
                width: 4,
                height: 3,
            };
            4
        ]
    );
}

#[test]
fn import_parquet_joins_batches() {
    let mut gc = GridController::test();
    let rows = 2500i64;
    let file = parquet_of(vec![(
        "n",
        DataType::Int64,
        Arc::new(Int64Array::from((0..rows).collect::<Vec<i64>>())),
    )]);
    let pos = Pos { x: 1, y: 1 };
    let ops = import_file(&mut gc, SheetId { id: 0 }, file, "long.parquet", pos).unwrap();
    assert_eq!(ops.len(), 1);
    let table = table_of(&ops);
    assert_eq!(table.height(), 2500);
    assert_eq!(table.cell_value_ref_at(0, 0), Some(&number(0, 0)));
    assert_eq!(table.cell_value_ref_at(0, 1023), Some(&number(1023, 0)));
    assert_eq!(table.cell_value_ref_at(0, 1024), Some(&number(1024, 0)));
    assert_eq!(table.cell_value_ref_at(0, 2499), Some(&number(2499, 0)));
    assert_eq!(table.cell_value_ref_at(0, 2500), None);
    let currents: Vec<u32> = gc.progress.iter().map(|p| p.current).collect();
    assert_eq!(currents, vec![1024, 2048, 2500]);
    let heights: Vec<u32> = gc.progress.iter().map(|p| p.height).collect();
    assert_eq!(heights, vec![1024, 1024, 1024]);
}

#[test]
fn import_parquet_invalid() {
    let mut gc = GridController::test();
    let pos = Pos { x: 1, y: 1 };
    match import_file(&mut gc, SheetId { id: 0 }, b"not parquet".to_vec(), "bad", pos) {
        Err(ImportError::MalformedInput { source, file_name, line, detail }) => {
            assert_eq!(source, ImportSource::Parquet);
            assert_eq!(file_name, "bad");
            assert_eq!(line, None);
            assert!(!detail.is_empty());
        }
        other => panic!("expected a malformed file, got {:?}", other),
    }
    assert!(gc.progress.is_empty());
}

fn column(is_text: bool, values: &[Option<&str>]) -> ColumnData {
    ColumnData { is_text, values: values.iter().map(|v| v.map(String::from)).collect() }
}

#[test]
fn import_columns_reports_each_fault() {
    let mut gc = GridController::test();
    let pos = Pos { x: 1, y: 1 };
    let sheet = SheetId { id: 0 };
    let one = BatchData { num_rows: 1, columns: vec![column(false, &[Some("1")])] };
    let data = |num_rows: i64, names: &[&str], batches: Vec<BatchData>| ColumnarData {
        num_rows,
        field_names: names.iter().map(|n| n.to_string()).collect(),
        batches,
    };
    assert_eq!(
        gc.import_columns(sheet, "f", pos, &data(1, &[], vec![])),
        Err(ColumnarFault::Empty)
    );
    assert_eq!(
        gc.import_columns(sheet, "f", pos, &data(-1, &["a"], vec![])),
        Err(ColumnarFault::TooLarge)
    );
    assert_eq!(
        gc.import_columns(sheet, "f", pos, &data(u32::MAX as i64, &["a"], vec![])),
        Err(ColumnarFault::TooLarge)
    );
    assert_eq!(
        gc.import_columns(sheet, "f", pos, &data(u32::MAX as i64 - 1, &["a", "b"], vec![])),
        Err(ColumnarFault::TooLarge)
    );
    assert_eq!(
        gc.import_columns(sheet, "f", pos, &data(1, &["a"], vec![one.clone(), one.clone()])),
        Err(ColumnarFault::Misshapen { batch: 1 })
    );
    assert_eq!(gc.progress.len(), 1);
    let wide = BatchData {
        num_rows: 1,
        columns: vec![column(false, &[Some("1")]), column(false, &[Some("2")])],
    };
    assert_eq!(
        gc.import_columns(sheet, "f", pos, &data(1, &["a"], vec![wide])),
        Err(ColumnarFault::Misshapen { batch: 0 })
    );
    let ragged = BatchData { num_rows: 2, columns: vec![column(false, &[Some("1")])] };
    assert_eq!(
        gc.import_columns(sheet, "f", pos, &data(2, &["a"], vec![ragged])),
        Err(ColumnarFault::Misshapen { batch: 0 })
    );
    assert_eq!(gc.progress.len(), 1);

    let narrow = BatchData { num_rows: 1, columns: vec![column(true, &[Some("7")])] };
    let ops = gc
        .import_columns(sheet, "f", pos, &data(3, &["a", "b"], vec![narrow, one.clone()]))
        .unwrap();
    let table = table_of(&ops);
    assert_eq!(table.value.size(), ArraySize { w: 2, h: 4 });
    assert_eq!(table.cell_value_ref_at(0, 0), Some(&CellValue::from("7")));
    assert_eq!(table.cell_value_ref_at(1, 0), Some(&CellValue::Blank));
    assert_eq!(table.cell_value_ref_at(0, 1), Some(&number(1, 0)));
    assert_eq!(table.cell_value_ref_at(0, 2), Some(&CellValue::Blank));
    assert_eq!(table.cell_value_ref_at(0, 3), None);
}

#[test]
fn a_file_that_was_not_read_ends_the_import_with_its_reason() {
    let mut gc = GridController::test();
    let before = gc.clone();
    let pos = Pos { x: 1, y: 1 };
    let result =
        gc.import_parquet_operations(SheetId { id: 0 }, Err("no footer".to_string()), "torn", pos);
    assert_eq!(
        result,
        Err(ImportError::MalformedInput {
            source: ImportSource::Parquet,
            file_name: "torn".into(),
            line: None,
            detail: "no footer".into(),
        })
    );
    assert_eq!(result.unwrap_err().message(), "Error parsing Parquet file torn: no footer");
    assert_eq!(gc, before);
}

#[test]
fn batches_made_by_hand_are_imported() {
    let mut gc = GridController::test();
    let schema = Arc::new(Schema::new(vec![
        Field::new("n", DataType::Int64, true),
        Field::new("s", DataType::Utf8, true),
    ]));
    let batch = |numbers: Vec<Option<i64>>, texts: Vec<Option<&str>>| {
        let columns: Vec<ArrayRef> =
            vec![Arc::new(Int64Array::from(numbers)), Arc::new(StringArray::from(texts))];
        Batch { inner: RecordBatch::try_new(schema.clone(), columns).unwrap() }
    };
    let read = ColumnarRead {
        num_rows: 3,
        field_names: vec!["n".to_string(), "s".to_string()],
        batches: vec![
            batch(vec![Some(1), None], vec![Some("12"), Some("x")]),
            batch(vec![Some(-3)], vec![None]),
        ],
    };
    let pos = Pos { x: 1, y: 1 };
    let ops = gc.import_parquet_operations(SheetId { id: 0 }, Ok(read), "hand", pos).unwrap();
    let table = table_of(&ops);
    assert_eq!(table.height(), 3);
    assert_eq!(table.column_header(0), Some(&CellValue::from("n")));
    assert_eq!(table.column_header(1), Some(&CellValue::from("s")));
    assert_eq!(table.cell_value_ref_at(0, 0), Some(&number(1, 0)));
    assert_eq!(table.cell_value_ref_at(0, 1), Some(&CellValue::Blank));
    assert_eq!(table.cell_value_ref_at(0, 2), Some(&number(-3, 0)));
    assert_eq!(table.cell_value_ref_at(1, 0), Some(&CellValue::from("12")));
    assert_eq!(table.cell_value_ref_at(1, 1), Some(&CellValue::from("x")));
    assert_eq!(table.cell_value_ref_at(1, 2), Some(&CellValue::Blank));
    // one notice for each column of each batch
    let currents: Vec<u32> = gc.progress.iter().map(|p| p.current).collect();
    assert_eq!(currents, vec![2, 2, 3, 3]);
}
