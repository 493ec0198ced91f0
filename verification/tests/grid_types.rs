use quadratic_core::array::{Array, ArrayError, ArraySize};
use quadratic_core::cell_value::{CellKind, CellValue, Date, Decimal, Import};
use quadratic_core::cell_values::CellValues;
use quadratic_core::controller::{chars_equal, GridController};
use quadratic_core::data_table::DataTable;
use quadratic_core::formats::Formats;
use quadratic_core::operation::Operation;
use quadratic_core::pos::{Pos, Rect, SheetId, SheetPos};
use quadratic_core::sheet::Sheet;

#[test]
fn array_size_refuses_zero_and_too_many_cells() {
    assert_eq!(ArraySize::new_or_err(2, 3), Ok(ArraySize { w: 2, h: 3 }));
    assert_eq!(ArraySize::new_or_err(2, 3).unwrap().len(), 6);
    assert_eq!(ArraySize::new_or_err(0, 3), Err(ArrayError::ZeroSize { w: 0, h: 3 }));
    assert_eq!(ArraySize::new_or_err(3, 0), Err(ArrayError::ZeroSize { w: 3, h: 0 }));
    assert_eq!(ArraySize::new_or_err(65536, 65536), Err(ArrayError::TooLarge { w: 65536, h: 65536 }));
    assert_eq!(ArraySize::new_or_err(65535, 65537), Ok(ArraySize { w: 65535, h: 65537 }));
    assert_eq!(ArraySize::new_or_err(u32::MAX, 1), Ok(ArraySize { w: u32::MAX, h: 1 }));
    assert_eq!(ArraySize::new_or_err(u32::MAX, 2), Err(ArrayError::TooLarge { w: u32::MAX, h: 2 }));
}

#[test]
fn array_holds_a_value_in_every_cell() {
    let size = ArraySize::new_or_err(3, 2).unwrap();
    let mut array = Array::new_empty(size);
    assert_eq!(array.size(), size);
    assert_eq!(array.width(), 3);
    assert_eq!(array.height(), 2);
    assert_eq!(array.get(2, 1), Ok(&CellValue::Blank));
    assert_eq!(array.set(2, 1, CellValue::from("x")), Ok(()));
    assert_eq!(array.get(2, 1), Ok(&CellValue::from("x")));
    assert_eq!(array.get(1, 1), Ok(&CellValue::Blank));
    assert_eq!(array.get(3, 0), Err(ArrayError::OutOfBounds { x: 3, y: 0 }));
    assert_eq!(array.get(0, 2), Err(ArrayError::OutOfBounds { x: 0, y: 2 }));
    let before = array.clone();
    assert_eq!(
        array.set(0, 2, CellValue::Logical(true)),
        Err(ArrayError::OutOfBounds { x: 0, y: 2 })
    );
    assert_eq!(array, before);
    assert_eq!(array.row_types(1), vec![CellKind::Blank, CellKind::Blank, CellKind::Text]);
    assert_eq!(array.row_types(2), vec![]);
    assert_eq!(
        array.into_cell_values_vec(),
        vec![
            CellValue::Blank,
            CellValue::Blank,
            CellValue::Blank,
            CellValue::Blank,
            CellValue::Blank,
            CellValue::from("x"),
        ]
    );
}

#[test]
fn array_becomes_a_store_of_cells() {
    let mut array = Array::new_empty(ArraySize::new_or_err(2, 2).unwrap());
    array.set(1, 0, CellValue::from("b")).unwrap();
    array.set(0, 1, CellValue::Logical(false)).unwrap();
    let cell_values = CellValues::from(array);
    assert_eq!(cell_values.w, 2);
    assert_eq!(cell_values.h, 2);
    assert_eq!(cell_values.get(0, 0), Some(&CellValue::Blank));
    assert_eq!(cell_values.get(1, 0), Some(&CellValue::from("b")));
    assert_eq!(cell_values.get(0, 1), Some(&CellValue::Logical(false)));
    assert_eq!(cell_values.get(1, 1), Some(&CellValue::Blank));
}

#[test]
fn cell_values_tell_their_kind() {
    assert_eq!(CellValue::Blank.type_id(), CellKind::Blank);
    assert_eq!(CellValue::from("a").type_id(), CellKind::Text);
    assert_eq!(CellValue::Number(Decimal { mantissa: 1, scale: 0 }).type_id(), CellKind::Number);
    assert_eq!(
        CellValue::Date(Date { year: 2020, month: 1, day: 1 }).type_id(),
        CellKind::Date
    );
    assert_eq!(CellValue::Import(Import::new("f".into())).type_id(), CellKind::Import);
    assert!(CellValue::Blank.is_blank());
    assert!(!CellValue::from("").is_blank());
    assert_ne!(CellValue::from("1"), CellValue::Number(Decimal { mantissa: 1, scale: 0 }));
    assert_ne!(
        CellValue::Number(Decimal { mantissa: 10, scale: 1 }),
        CellValue::Number(Decimal { mantissa: 1, scale: 0 })
    );
    assert_eq!(CellValue::from("a").clone(), CellValue::from("a"));
    assert!(chars_equal("héllo", "héllo"));
    assert!(!chars_equal("hello", "hellO"));
    assert!(!chars_equal("hello", "hell"));
}

#[test]
fn rect_counts_both_corners() {
    let rect = Rect::new(3, 7, 1, 2);
    assert_eq!(rect.min, Pos::new(1, 2));
    assert_eq!(rect.max, Pos::new(3, 7));
    assert_eq!(rect.width(), 3);
    assert_eq!(rect.height(), 6);
    assert!(rect.contains(Pos::new(1, 2)));
    assert!(rect.contains(Pos::new(3, 7)));
    assert!(!rect.contains(Pos::new(4, 7)));
    assert!(!rect.contains(Pos::new(3, 1)));
    assert_eq!(Rect::new(0, 0, 0, 0).width(), 1);
    assert_eq!(
        Pos::new(2, 3).to_sheet_pos(SheetId { id: 9 }),
        SheetPos::new(SheetId { id: 9 }, 2, 3)
    );
}

#[test]
fn sheet_has_cells_from_one_on() {
    let span: i64 = 4_294_967_296;
    let mut sheet = Sheet::new(SheetId { id: 4 }, "Plan".to_string(), "a0".to_string());
    assert!(sheet.set_cell_value(Pos::new(1, 1), CellValue::from("first")));
    assert!(sheet.set_cell_value(Pos::new(span, 2), CellValue::from("last")));
    assert!(sheet.set_cell_value(Pos::new(3, span), CellValue::from("deep")));
    assert!(sheet.set_cell_value(Pos::new(1, 1), CellValue::from("again")));
    assert!(!sheet.set_cell_value(Pos::new(0, 1), CellValue::from("left")));
    assert!(!sheet.set_cell_value(Pos::new(1, 0), CellValue::from("above")));
    assert!(!sheet.set_cell_value(Pos::new(span + 1, 1), CellValue::from("right")));
    assert!(!sheet.set_cell_value(Pos::new(1, span + 1), CellValue::from("below")));
    assert!(!sheet.set_cell_value(Pos::new(-5, -5), CellValue::from("nowhere")));
    assert_eq!(sheet.cell_value(Pos::new(1, 1)), Some(&CellValue::from("again")));
    assert_eq!(sheet.cell_value(Pos::new(span, 2)), Some(&CellValue::from("last")));
    assert_eq!(sheet.cell_value(Pos::new(2, 2)), None);
    assert_eq!(sheet.cell_value(Pos::new(0, 1)), None);
    assert_eq!(sheet.cell_value(Pos::new(1, 3)), None);
    assert_eq!(sheet.cell_value(Pos::new(i64::MAX, i64::MAX)), None);
    assert_eq!(
        sheet.cell_list(),
        vec![
            (Pos::new(1, 1), &CellValue::from("again")),
            (Pos::new(3, span), &CellValue::from("deep")),
            (Pos::new(span, 2), &CellValue::from("last")),
        ]
    );
}

#[test]
fn data_table_counts_rows_without_its_header() {
    let mut array = Array::new_empty(ArraySize::new_or_err(2, 3).unwrap());
    array.set(0, 0, CellValue::from("name")).unwrap();
    array.set(0, 1, CellValue::from("Ann")).unwrap();
    let mut table = DataTable::new(&Import::new("people.csv".into()), array, 77);
    assert_eq!(table.name, CellValue::from("people.csv"));
    assert_eq!(table.last_modified, 77);
    assert_eq!(table.formats, Formats::new());
    assert!(!table.header_is_first_row);
    assert_eq!((table.width(), table.height()), (2, 3));
    assert_eq!(table.column_header(0), None);
    assert_eq!(table.cell_value_ref_at(0, 0), Some(&CellValue::from("name")));
    assert_eq!(table.cell_value_ref_at(0, 3), None);
    table.apply_first_row_as_header();
    assert!(table.header_is_first_row);
    assert_eq!((table.width(), table.height()), (2, 2));
    assert_eq!(table.column_header(0), Some(&CellValue::from("name")));
    assert_eq!(table.column_header(1), Some(&CellValue::Blank));
    assert_eq!(table.column_header(2), None);
    assert_eq!(table.cell_value_ref_at(0, 0), Some(&CellValue::from("Ann")));
    assert_eq!(table.cell_value_ref_at(0, 2), None);
    assert_eq!(table.cell_value_ref_at(2, 0), None);
    assert_eq!(table.cell_value_ref_at(0, u32::MAX), None);
}

#[test]
fn imports_make_three_kinds_of_operation() {
    let sheet_pos = SheetPos::new(SheetId { id: 1 }, 1, 1);
    assert!(Operation::ComputeCode { sheet_pos }.is_import_operation());
    assert!(Operation::AddSheetSchema {
        schema: Sheet::new(SheetId { id: 1 }, "s".into(), "a0".into())
    }
    .is_import_operation());
    assert!(!Operation::SetCellValues { sheet_pos, values: CellValues::new(1, 1) }
        .is_import_operation());
    assert!(!Operation::SetCellFormats { sheet_pos, formats: Formats::new() }.is_import_operation());
}

#[test]
fn controller_knows_the_sheets_of_the_grid() {
    let gc = GridController::test();
    assert!(gc.has_sheet_named("Sheet 1"));
    assert!(!gc.has_sheet_named("Sheet 2"));
    assert!(!gc.has_sheet_named("sheet 1"));
    assert_eq!(gc.first_taken(&vec!["A".to_string(), "Sheet 1".to_string()]), Some(1));
    assert_eq!(gc.first_taken(&vec!["A".to_string()]), None);
    let empty = GridController::new();
    assert!(!empty.has_sheet_named("Sheet 1"));
    assert_eq!(empty.next_sheet_id, 0);
}

#[test]
fn controller_reads_raw_text() {
    let gc = GridController::test();
    assert_eq!(
        gc.string_to_cell_value("12.5", false).0,
        CellValue::Number(Decimal { mantissa: 125, scale: 1 })
    );
    assert_eq!(gc.string_to_cell_value("Yes", true).0, CellValue::from("Yes"));
}
