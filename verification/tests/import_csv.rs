use quadratic_core::array::{Array, ArraySize};
use quadratic_core::cell_value::{CellValue, Date, DateTime, Decimal, Import, Time};
use quadratic_core::controller::{GridController, IMPORT_LINES_PER_OPERATION};
use quadratic_core::csv_import::{detect_delimiter, TableFault};
use quadratic_core::data_table::DataTable;
use quadratic_core::encoding::{read_utf16, recover_text};
use quadratic_core::error::{ImportError, ImportProgress, ImportSource};
use quadratic_core::formats::{DateTimeFormat, FormatUpdate, Formats};
use quadratic_core::operation::Operation;
use quadratic_core::pos::{Pos, SheetId, SheetPos};

const SIMPLE_CSV: &str = "city,region,country,population
Southborough,MA,United States,9686
Northbridge,MA,United States,14061
Westborough,MA,United States,29313
Marlborough,MA,United States,38334
Springfield,MA,United States,152227
Springfield,IL,United States,112433
Springfield,NJ,United States,14976
Springfield,OR,United States,56032
Concord,NH,United States,42605
";

fn utf16_le(text: &str, byte_order_mark: bool) -> Vec<u8> {
    let mut bytes = Vec::new();
    if byte_order_mark {
        bytes.push(0xFF);
        bytes.push(0xFE);
    }
    for unit in text.encode_utf16() {
        bytes.push((unit & 0xFF) as u8);
        bytes.push((unit >> 8) as u8);
    }
    bytes
}

fn table_of(ops: &[Operation]) -> &DataTable {
    match &ops[0] {
        Operation::AddDataTable { data_table, .. } => data_table,
        _ => panic!("Expected AddDataTable operation"),
    }
}

fn array_of(rows: Vec<Vec<CellValue>>) -> Array {
    let size = ArraySize::new_or_err(rows[0].len() as u32, rows.len() as u32).unwrap();
    let mut array = Array::new_empty(size);
    for (y, row) in rows.into_iter().enumerate() {
        for (x, value) in row.into_iter().enumerate() {
            array.set(x as u32, y as u32, value).unwrap();
        }
    }
    array
}

#[test]
fn guesses_the_csv_header() {
    let mut gc = GridController::test();
    let ops = gc
        .import_csv_operations(
            SheetId { id: 0 },
            SIMPLE_CSV.as_bytes().to_vec(),
            "simple.csv",
            Pos { x: 1, y: 1 },
            Some(b','),
            Some(false),
        )
        .unwrap();
    let values = &table_of(&ops).value;
    assert!(gc.guess_csv_first_row_is_header(values));
}

#[test]
fn test_get_csv_preview_with_valid_csv() {
    let csv_data = b"header1,header2\nvalue1,value2\nvalue3,value4";
    let result = GridController::get_csv_preview(csv_data.to_vec(), 6, Some(b','));
    assert!(result.is_ok());
    let preview = result.unwrap();
    assert_eq!(preview.len(), 3);
    assert_eq!(preview[0], vec!["header1", "header2"]);
    assert_eq!(preview[1], vec!["value1", "value2"]);
    assert_eq!(preview[2], vec!["value3", "value4"]);
}

#[test]
fn test_get_csv_preview_with_auto_delimiter() {
    let csv_data = b"header1\theader2\nvalue1\tvalue2\nvalue3\tvalue4";
    let result = GridController::get_csv_preview(csv_data.to_vec(), 6, None);
    assert!(result.is_ok());
    let preview = result.unwrap();
    assert_eq!(preview.len(), 3);
    assert_eq!(preview[0], vec!["header1", "header2"]);
    assert_eq!(preview[1], vec!["value1", "value2"]);
    assert_eq!(preview[2], vec!["value3", "value4"]);
}

#[test]
fn test_get_csv_preview_with_utf16() {
    let utf16_data: Vec<u8> = vec![
        0xFF, 0xFE, 0x68, 0x00, 0x65, 0x00, 0x61, 0x00, 0x64, 0x00, 0x65, 0x00, 0x72, 0x00,
        0x31, 0x00, 0x2C, 0x00, 0x68, 0x00, 0x65, 0x00, 0x61, 0x00, 0x64, 0x00, 0x65, 0x00,
        0x72, 0x00, 0x32, 0x00, 0x0A, 0x00, 0x76, 0x00, 0x61, 0x00, 0x6C, 0x00, 0x75, 0x00,
        0x65, 0x00, 0x31, 0x00, 0x2C, 0x00, 0x76, 0x00, 0x61, 0x00, 0x6C, 0x00, 0x75, 0x00,
        0x65, 0x00, 0x32, 0x00,
    ];
    let result = GridController::get_csv_preview(utf16_data, 6, Some(b','));
    assert!(result.is_ok());
    let preview = result.unwrap();
    assert_eq!(preview.len(), 2);
    assert_eq!(preview[0], vec!["header1", "header2"]);
    assert_eq!(preview[1], vec!["value1", "value2"]);
}

#[test]
fn transmute_u8_to_u16() {
    let file = utf16_le("issue, test, value\r\n0, 1, Invalid\r\n0, 2, Valid", true);
    let result = read_utf16(&file).unwrap();
    assert_eq!("issue, test, value\r\n0, 1, Invalid\r\n0, 2, Valid", result);
}

#[test]
fn imports_a_simple_csv() {
    let mut gc = GridController::test();
    let sheet_id = SheetId { id: 0 };
    let pos = Pos { x: 1, y: 1 };
    let file_name = "simple.csv";

    const SIMPLE_CSV: &str =
        "city,region,country,population\nSouthborough,MA,United States,a lot of people";

    let ops = gc
        .import_csv_operations(
            sheet_id,
            SIMPLE_CSV.as_bytes().to_vec(),
            file_name,
            pos,
            Some(b','),
            Some(false),
        )
        .unwrap();

    let values = vec![
        vec!["city", "region", "country", "population"],
        vec!["Southborough", "MA", "United States", "a lot of people"],
    ];
    let values = values
        .into_iter()
        .map(|row| row.into_iter().map(CellValue::from).collect())
        .collect();
    let import = Import::new(file_name.into());
    let cell_value = CellValue::Import(import.clone());
    let mut expected_data_table = DataTable::new(&import, array_of(values), 0);
    expected_data_table.formats = Formats::repeat(FormatUpdate::default(), 8);

    let data_table = match ops[0].clone() {
        Operation::AddDataTable { data_table, .. } => data_table,
        _ => panic!("Expected AddDataTable operation"),
    };
    expected_data_table.last_modified = data_table.last_modified;
    expected_data_table.name = CellValue::Text(file_name.to_string());

    let expected = Operation::AddDataTable {
        sheet_pos: SheetPos::new(sheet_id, 1, 1),
        data_table: expected_data_table,
        cell_value,
        index: None,
    };

    assert_eq!(ops.len(), 1);
    assert_eq!(ops[0], expected);
}

#[test]
fn imports_a_long_csv() {
    let mut gc = GridController::test();
    let sheet_id = SheetId { id: 0 };
    let pos = Pos { x: 1, y: 2 };
    let file_name = "long.csv";

    let mut csv = String::new();
    for i in 0..IMPORT_LINES_PER_OPERATION * 2 + 150 {
        csv.push_str(&format!("city{},MA,United States,{}\n", i, i * 1000));
    }

    let ops = gc.import_csv_operations(
        sheet_id,
        csv.as_bytes().to_vec(),
        file_name,
        pos,
        Some(b','),
        Some(false),
    );

    assert_eq!(ops.as_ref().unwrap().len(), 1);

    let (sheet_pos, data_table) = match &ops.unwrap()[0] {
        Operation::AddDataTable {
            sheet_pos,
            data_table,
            ..
        } => (*sheet_pos, data_table.clone()),
        _ => panic!("Expected AddDataTable operation"),
    };
    assert_eq!(sheet_pos.x, 1);
    // A table counts its rows of data from 0. The two rows that a sheet
    // shows above them, for the name of the table and for the headers of
    // its columns, are rows of the sheet and not of the table, so the
    // first line of the file, third on the sheet, is row 0 here.
    assert_eq!(
        data_table.cell_value_ref_at(0, 0),
        Some(&CellValue::Text("city0".into()))
    );
    assert_eq!(data_table.cell_value_ref_at(0, 2), Some(&CellValue::Text("city2".into())));
    assert_eq!(data_table.height(), 20150);
    assert_eq!(
        gc.progress,
        vec![
            ImportProgress {
                file_name: "long.csv".into(),
                current: 10000,
                total: 20150,
                x: 1,
                y: 2,
                width: 4,
                height: 20150,
            },
            ImportProgress {
                file_name: "long.csv".into(),
                current: 20000,
                total: 20150,
                x: 1,
                y: 2,
                width: 4,
                height: 20150,
            },
        ]
    );
}

#[test]
fn import_csv_date_time() {
    let mut gc = GridController::test();
    let sheet_id = SheetId { id: 0 };

    let pos = Pos { x: 1, y: 1 };
    let csv = "2024-12-21,13:23:00,2024-12-21 13:23:00\n".to_string();
    let ops = gc
        .import_csv_operations(sheet_id, csv.as_bytes().to_vec(), "csv", pos, Some(b','), Some(false))
        .unwrap();
    let data_table = table_of(&ops);

    let date = Date { year: 2024, month: 12, day: 21 };
    let time = Time { hour: 13, minute: 23, second: 0, nanosecond: 0 };
    assert_eq!(data_table.cell_value_ref_at(0, 0), Some(&CellValue::Date(date)));
    assert_eq!(data_table.cell_value_ref_at(1, 0), Some(&CellValue::Time(time)));
    assert_eq!(
        data_table.cell_value_ref_at(2, 0),
        Some(&CellValue::DateTime(DateTime { date, time }))
    );
    assert_eq!(
        data_table.formats.get_at(0),
        Some(&FormatUpdate::with_date_time(DateTimeFormat::Date))
    );
    assert_eq!(
        data_table.formats.get_at(1),
        Some(&FormatUpdate::with_date_time(DateTimeFormat::Time))
    );
    assert_eq!(
        data_table.formats.get_at(2),
        Some(&FormatUpdate::with_date_time(DateTimeFormat::DateTime))
    );
}

#[test]
fn tab_delimited_import_matches_comma_delimited() {
    let comma = "header1,header2\nvalue1,value2\nvalue3,value4";
    let tab = "header1\theader2\nvalue1\tvalue2\nvalue3\tvalue4";
    let mut gc = GridController::test();
    let pos = Pos { x: 1, y: 1 };
    let with_comma = gc
        .import_csv_operations(SheetId { id: 0 }, comma.as_bytes().to_vec(), "f", pos, Some(b','), None)
        .unwrap();
    let with_tab = gc
        .import_csv_operations(SheetId { id: 0 }, tab.as_bytes().to_vec(), "f", pos, None, None)
        .unwrap();
    assert_eq!(with_comma, with_tab);
    assert_eq!(table_of(&with_tab).value.size(), ArraySize { w: 2, h: 3 });
}

#[test]
fn utf16_import_matches_utf8_import() {
    let text = "header1,header2\nvalue1,value2";
    let mut gc = GridController::test();
    let pos = Pos { x: 3, y: 4 };
    let plain = gc
        .import_csv_operations(SheetId { id: 0 }, text.as_bytes().to_vec(), "f", pos, Some(b','), None)
        .unwrap();
    let wide = gc
        .import_csv_operations(SheetId { id: 0 }, utf16_le(text, true), "f", pos, Some(b','), None)
        .unwrap();
    assert_eq!(plain, wide);
    let table = table_of(&wide);
    assert_eq!(table.cell_value_ref_at(0, 0), Some(&CellValue::from("header1")));
    assert_eq!(table.cell_value_ref_at(1, 1), Some(&CellValue::from("value2")));
}

#[test]
fn header_is_guessed_when_not_pinned() {
    let mut gc = GridController::test();
    let pos = Pos { x: 1, y: 1 };
    let ops = gc
        .import_csv_operations(SheetId { id: 0 }, SIMPLE_CSV.as_bytes().to_vec(), "s", pos, Some(b','), None)
        .unwrap();
    let table = table_of(&ops);
    assert!(table.header_is_first_row);
    assert_eq!(table.height(), 9);
    assert_eq!(table.column_header(3), Some(&CellValue::from("population")));
    assert_eq!(table.cell_value_ref_at(0, 0), Some(&CellValue::from("Southborough")));
    assert_eq!(
        table.cell_value_ref_at(3, 0),
        Some(&CellValue::Number(Decimal { mantissa: 9686, scale: 0 }))
    );
    assert_eq!(table.cell_value_ref_at(0, 9), None);

    let pinned = gc
        .import_csv_operations(SheetId { id: 0 }, SIMPLE_CSV.as_bytes().to_vec(), "s", pos, Some(b','), Some(false))
        .unwrap();
    assert!(!table_of(&pinned).header_is_first_row);
    assert_eq!(table_of(&pinned).column_header(0), None);

    let two_rows = "a,b\n1,2\n";
    let short = gc
        .import_csv_operations(SheetId { id: 0 }, two_rows.as_bytes().to_vec(), "s", pos, Some(b','), None)
        .unwrap();
    assert!(!table_of(&short).header_is_first_row);
    let forced = gc
        .import_csv_operations(SheetId { id: 0 }, two_rows.as_bytes().to_vec(), "s", pos, Some(b','), Some(true))
        .unwrap();
    assert!(table_of(&forced).header_is_first_row);
    assert_eq!(table_of(&forced).height(), 1);
}

#[test]
fn header_guess_on_made_up_rows() {
    let gc = GridController::new();
    let text = || CellValue::from("t");
    let num = || CellValue::Number(Decimal { mantissa: 1, scale: 0 });
    let all_equal = array_of(vec![vec![text(), num()], vec![text(), num()], vec![text(), num()]]);
    assert!(!gc.guess_csv_first_row_is_header(&all_equal));
    let all_different =
        array_of(vec![vec![text(), text()], vec![text(), num()], vec![num(), num()]]);
    assert!(!gc.guess_csv_first_row_is_header(&all_different));
    let header = array_of(vec![vec![text(), text()], vec![text(), num()], vec![text(), num()]]);
    assert!(gc.guess_csv_first_row_is_header(&header));
    let first_two_equal =
        array_of(vec![vec![text(), num()], vec![text(), num()], vec![num(), num()]]);
    assert!(!gc.guess_csv_first_row_is_header(&first_two_equal));
    let two_rows = array_of(vec![vec![text(), text()], vec![text(), num()]]);
    assert!(!gc.guess_csv_first_row_is_header(&two_rows));
    let one_row = array_of(vec![vec![text()]]);
    assert!(!gc.guess_csv_first_row_is_header(&one_row));
    let four_rows = array_of(vec![vec![text()], vec![num()], vec![num()], vec![text()]]);
    assert!(gc.guess_csv_first_row_is_header(&four_rows));
}

#[test]
fn empty_file_is_refused() {
    let mut gc = GridController::test();
    let pos = Pos { x: 1, y: 1 };
    let result = gc.import_csv_operations(SheetId { id: 0 }, Vec::new(), "e.csv", pos, Some(b','), None);
    assert_eq!(result, Err(ImportError::EmptyInput));
    let result = gc.import_csv_operations(SheetId { id: 0 }, Vec::new(), "e.csv", pos, None, None);
    assert_eq!(result, Err(ImportError::EmptyInput));
    assert!(gc.progress.is_empty());
}

#[test]
fn record_longer_than_the_last_is_refused() {
    let mut gc = GridController::test();
    let pos = Pos { x: 1, y: 1 };
    let result = gc.import_csv_operations(
        SheetId { id: 0 },
        b"a,b,c\n1,2\n".to_vec(),
        "wide.csv",
        pos,
        Some(b','),
        None,
    );
    assert_eq!(
        result,
        Err(ImportError::MalformedInput {
            source: ImportSource::Csv,
            file_name: "wide.csv".into(),
            line: Some(1),
            detail: "record outside the table".into(),
        })
    );
}

#[test]
fn shorter_records_are_padded_with_blanks() {
    let mut gc = GridController::test();
    let pos = Pos { x: 1, y: 1 };
    let ops = gc
        .import_csv_operations(SheetId { id: 0 }, b"a\nb,c\n".to_vec(), "p.csv", pos, Some(b','), Some(false))
        .unwrap();
    let table = table_of(&ops);
    assert_eq!(table.value.size(), ArraySize { w: 2, h: 2 });
    assert_eq!(table.cell_value_ref_at(0, 0), Some(&CellValue::from("a")));
    assert_eq!(table.cell_value_ref_at(1, 0), Some(&CellValue::Blank));
    assert_eq!(table.cell_value_ref_at(1, 1), Some(&CellValue::from("c")));
    assert_eq!(table.formats.size(), 4);
}

#[test]
fn unreadable_record_is_reported_with_its_line() {
    let mut gc = GridController::test();
    let pos = Pos { x: 1, y: 1 };
    let bytes = vec![b'a', b',', b'b', b'\n', b'x', 0xD8, b',', b'd', b'\n', b'e', b',', b'f', b'\n'];
    match gc.import_csv_operations(SheetId { id: 0 }, bytes.clone(), "bad.csv", pos, Some(b','), None) {
        Err(ImportError::MalformedInput { source, file_name, line, detail }) => {
            assert_eq!(source, ImportSource::Csv);
            assert_eq!(file_name, "bad.csv");
            assert_eq!(line, Some(2));
            assert!(!detail.is_empty());
        }
        other => panic!("expected a malformed record, got {:?}", other),
    }
    match GridController::get_csv_preview(bytes.clone(), 6, Some(b',')) {
        Err(error) => {
            assert!(error.message().starts_with("Error parsing CSV file for preview: line 2: "));
            match error {
                ImportError::MalformedInput { source, file_name, line, .. } => {
                    assert_eq!(source, ImportSource::CsvPreview);
                    assert_eq!(file_name, "");
                    assert_eq!(line, Some(2));
                }
                other => panic!("expected a malformed record, got {:?}", other),
            }
        }
        other => panic!("expected a malformed record, got {:?}", other),
    }
    assert_eq!(
        GridController::get_csv_preview(bytes, 1, Some(b',')),
        Ok(vec![vec!["a".to_string(), "b".to_string()]])
    );
}

#[test]
fn data_table_from_records_reports_each_fault() {
    let mut gc = GridController::test();
    let pos = Pos { x: 1, y: 1 };
    let sheet = SheetId { id: 0 };
    let row = |fields: &[&str]| -> Result<Vec<String>, ()> {
        Ok(fields.iter().map(|f| f.to_string()).collect())
    };
    let none: Vec<Result<Vec<String>, ()>> = vec![];
    assert_eq!(gc.data_table_from_records(sheet, "f", pos, 0, &none, None), Err(TableFault::Empty));
    let bad_last = vec![row(&["a"]), Err(())];
    assert_eq!(gc.data_table_from_records(sheet, "f", pos, 2, &bad_last, None), Err(TableFault::Empty));
    let no_rows = vec![row(&["a"])];
    assert_eq!(gc.data_table_from_records(sheet, "f", pos, 0, &no_rows, None), Err(TableFault::Empty));
    let bad_middle = vec![row(&["a"]), Err(()), row(&["c"])];
    assert_eq!(
        gc.data_table_from_records(sheet, "f", pos, 3, &bad_middle, None),
        Err(TableFault::BadRecord { line: 2 })
    );
    let too_wide = vec![row(&["a"]), row(&["b", "c"]), row(&["d"])];
    assert_eq!(
        gc.data_table_from_records(sheet, "f", pos, 3, &too_wide, None),
        Err(TableFault::RecordOutside { line: 2 })
    );
    let too_many = vec![row(&["a"]), row(&["b"]), row(&["c"])];
    assert_eq!(
        gc.data_table_from_records(sheet, "f", pos, 2, &too_many, None),
        Err(TableFault::RecordOutside { line: 3 })
    );
    let too_large = vec![row(&["a", "b"])];
    assert_eq!(
        gc.data_table_from_records(sheet, "f", pos, usize::MAX, &too_large, None),
        Err(TableFault::TooLarge)
    );
    let fewer = vec![row(&["a"])];
    let ops = gc.data_table_from_records(sheet, "f", pos, 2, &fewer, None).unwrap();
    assert_eq!(table_of(&ops).cell_value_ref_at(0, 1), Some(&CellValue::Blank));
}

#[test]
fn delimiter_is_found_in_whole_lines_only() {
    assert_eq!(detect_delimiter(b"a;b;c\n1;2;3\n4;5;6\n"), b';');
    assert_eq!(detect_delimiter(b"a\tb\n1\t2\n"), b'\t');
    assert_eq!(detect_delimiter(b"a;b;c"), b',');
    assert_eq!(detect_delimiter(b""), b',');
    assert_eq!(detect_delimiter(b"\"a\";\"b\"\n\"1\";\"2\"\n"), b',');
    assert_eq!(detect_delimiter(b"plain\nwords\n"), b',');
    assert_eq!(detect_delimiter(b"a;b\r\n1;2\r\n3;4\r\n"), b';');
}

#[test]
fn carriage_return_inside_a_line_is_not_sniffed() {
    assert_eq!(detect_delimiter(b"a\rb\r\na\rb\r\na\rb\r\n"), b',');
    assert_eq!(detect_delimiter(b"a;b\r1;2\n3;4\n"), b',');
    assert_eq!(detect_delimiter(b"a;b\n1;2\n3;4\r"), b';');
    let preview =
        GridController::get_csv_preview(b"a\rb\r\na\rb\r\na\rb\r\n".to_vec(), 9, None).unwrap();
    assert_eq!(preview.len(), 6);
}

#[test]
fn recover_text_keeps_what_is_not_utf16() {
    assert_eq!(recover_text(b"plain".to_vec()), b"plain".to_vec());
    assert_eq!(recover_text("héllo".as_bytes().to_vec()), "héllo".as_bytes().to_vec());
    assert_eq!(recover_text(utf16_le("héllo", true)), "héllo".as_bytes().to_vec());
    let lone_surrogate = vec![0x00, 0xD8, 0x41, 0x00];
    assert_eq!(recover_text(lone_surrogate.clone()), lone_surrogate);
    assert_eq!(read_utf16(&lone_surrogate), None);
    assert_eq!(read_utf16(&[]), None);
    assert_eq!(read_utf16(&[0x41, 0x00, 0x42]), Some("A".to_string()));
    let pair_and_letter = vec![0x3D, 0xD8, 0x00, 0xDE, 0x41, 0x00];
    assert_eq!(read_utf16(&pair_and_letter), Some("A".to_string()));
    assert_eq!(read_utf16(&utf16_le("€ 5", false)), Some(" 5".to_string()));
}

#[test]
fn import_errors_have_messages() {
    let malformed = |source: ImportSource, line: Option<u64>| ImportError::MalformedInput {
        source,
        file_name: "a.file".into(),
        line,
        detail: "bad record".into(),
    };
    assert_eq!(
        malformed(ImportSource::Csv, Some(120)).message(),
        "Error parsing CSV file a.file: line 120: bad record"
    );
    assert_eq!(
        malformed(ImportSource::Csv, None).message(),
        "Error parsing CSV file a.file: bad record"
    );
    assert_eq!(
        malformed(ImportSource::CsvPreview, Some(3)).message(),
        "Error parsing CSV file for preview: line 3: bad record"
    );
    assert_eq!(
        malformed(ImportSource::Excel, None).message(),
        "Error parsing Excel file a.file: bad record"
    );
    assert_eq!(
        malformed(ImportSource::Parquet, None).message(),
        "Error parsing Parquet file a.file: bad record"
    );
    assert_eq!(ImportError::EmptyInput.message(), "empty files cannot be processed");
    assert_eq!(
        ImportError::NameCollision { name: "Sheet 1".into() }.message(),
        "Sheet with name Sheet 1 already exists"
    );
    assert_eq!(ImportError::SizeOverflow.message(), "the file holds more than a sheet can");
    assert_eq!(quadratic_core::text::number_text(0), "0");
    assert_eq!(quadratic_core::text::number_text(u64::MAX), "18446744073709551615");
    assert_eq!(quadratic_core::text::number_text(1090), "1090");
}

#[test]
fn delimiter_detection_takes_any_sample_of_whole_lines() {
    let mut state: u64 = 0x2545_F491_4F6C_DD1D;
    let mut next = move |bound: u64| -> u64 {
        state ^= state << 13;
        state ^= state >> 7;
        state ^= state << 17;
        state % bound
    };
    let alphabet: &[u8] = b"ab1 2,;\t|:.-xyz09\r\n\n\n,,;;\t\xC3\xA9#%";
    for round in 0..3000 {
        let len = next(if round % 10 == 0 { 6000 } else { 200 }) as usize;
        let mut bytes: Vec<u8> = Vec::with_capacity(len + 1);
        for _ in 0..len {
            bytes.push(alphabet[next(alphabet.len() as u64) as usize]);
        }
        if round % 3 != 0 {
            bytes.push(b'\n');
        }
        let found = detect_delimiter(&bytes);
        assert!(found < 128);
    }
}

fn sniff_short_samples(seed: u64, rounds: usize) {
    let mut state: u64 = seed;
    let mut next = move |bound: u64| -> u64 {
        state ^= state << 13;
        state ^= state >> 7;
        state ^= state << 17;
        state % bound
    };
    let pieces: [&[u8]; 10] =
        [b"a", b"1", b",", b";", b"\t", b" ", b"\r\n", b"\n", b"\n", b"-"];
    for _ in 0..rounds {
        let count = next(40) as usize;
        let mut bytes: Vec<u8> = Vec::new();
        for _ in 0..count {
            bytes.extend_from_slice(pieces[next(pieces.len() as u64) as usize]);
        }
        bytes.push(b'\n');
        let found = detect_delimiter(&bytes);
        assert!(found < 128);
        assert_ne!(found, b'\r');
    }
}

#[test]
fn delimiter_detection_takes_short_samples_of_few_characters() {
    sniff_short_samples(0x9E37_79B9_7F4A_7C15, 400);
}

#[test]
fn delimiter_detection_takes_more_short_samples() {
    sniff_short_samples(0x0123_4567_89AB_CDEF, 400);
}

#[test]
fn delimiter_detection_takes_yet_more_short_samples() {
    sniff_short_samples(0xDEAD_BEEF_CAFE_F00D, 400);
}
