use quadratic_core::cell_value::{CellValue, Date, DateTime, Decimal, Time};
use quadratic_core::coerce::{coerce, unpack_date_time, unpack_str_float};
use quadratic_core::formats::{DateTimeFormat, FormatUpdate, NumericFormatKind};

fn number(mantissa: i128, scale: u32) -> CellValue {
    CellValue::Number(Decimal { mantissa, scale })
}

#[test]
fn coerce_reads_logical_values() {
    assert_eq!(coerce("true", true), (CellValue::Logical(true), FormatUpdate::default()));
    assert_eq!(coerce("false", false), (CellValue::Logical(false), FormatUpdate::default()));
    assert_eq!(coerce("TRUE", false).0, CellValue::Logical(true));
    assert_eq!(coerce("False", false).0, CellValue::Logical(false));
    assert_eq!(coerce("TRUE", true).0, CellValue::from("TRUE"));
    assert_eq!(coerce("truth", false).0, CellValue::from("truth"));
}

#[test]
fn coerce_reads_numbers() {
    assert_eq!(coerce("12", false), (number(12, 0), FormatUpdate::default()));
    assert_eq!(coerce("-3.25", true).0, number(-325, 2));
    assert_eq!(coerce("007", true).0, number(7, 0));
    assert_eq!(coerce("0.50", true).0, number(50, 2));
    assert_eq!(coerce("+4", false).0, number(4, 0));
    assert_eq!(coerce("+4", true).0, CellValue::from("+4"));
    assert_eq!(coerce("1.", false).0, CellValue::from("1."));
    assert_eq!(coerce(".5", false).0, CellValue::from(".5"));
    assert_eq!(coerce("1.2.3", false).0, CellValue::from("1.2.3"));
    assert_eq!(coerce("-", false).0, CellValue::from("-"));
    assert_eq!(coerce("12a", false).0, CellValue::from("12a"));
}

#[test]
fn coerce_reads_percentages() {
    let percent = FormatUpdate {
        numeric_format: Some(Some(NumericFormatKind::Percentage)),
        ..FormatUpdate::default()
    };
    assert_eq!(coerce("12.5%", false), (number(125, 3), percent));
    assert_eq!(coerce("50%", false), (number(50, 2), percent));
    assert_eq!(coerce("50%", true).0, CellValue::from("50%"));
    assert_eq!(coerce("%", false).0, CellValue::from("%"));
}

#[test]
fn coerce_keeps_numbers_within_the_mantissa() {
    let largest = "170141183460469231731687303715884105727";
    assert_eq!(coerce(largest, true).0, number(i128::MAX, 0));
    let too_large = "170141183460469231731687303715884105728";
    assert_eq!(coerce(too_large, true).0, CellValue::from(too_large));
    assert_eq!(
        coerce("-170141183460469231731687303715884105727", true).0,
        number(-i128::MAX, 0)
    );
}

#[test]
fn coerce_reads_dates_and_times() {
    let date = Date { year: 2024, month: 12, day: 21 };
    let time = Time { hour: 13, minute: 23, second: 0, nanosecond: 0 };
    assert_eq!(
        coerce("2024-12-21", false),
        (CellValue::Date(date), FormatUpdate::with_date_time(DateTimeFormat::Date))
    );
    assert_eq!(
        coerce("13:23:00", false),
        (CellValue::Time(time), FormatUpdate::with_date_time(DateTimeFormat::Time))
    );
    assert_eq!(
        coerce("2024-12-21 13:23:00", false),
        (
            CellValue::DateTime(DateTime { date, time }),
            FormatUpdate::with_date_time(DateTimeFormat::DateTime)
        )
    );
    assert_eq!(
        coerce("2024-12-21T13:23:00", true).0,
        CellValue::DateTime(DateTime { date, time })
    );
}

#[test]
fn coerce_refuses_days_that_do_not_exist() {
    assert_eq!(coerce("2024-02-29", false).0, CellValue::Date(Date { year: 2024, month: 2, day: 29 }));
    assert_eq!(coerce("2023-02-29", false).0, CellValue::from("2023-02-29"));
    assert_eq!(coerce("1900-02-29", false).0, CellValue::from("1900-02-29"));
    assert_eq!(coerce("2000-02-29", false).0, CellValue::Date(Date { year: 2000, month: 2, day: 29 }));
    assert_eq!(coerce("2024-04-31", false).0, CellValue::from("2024-04-31"));
    assert_eq!(coerce("2024-13-01", false).0, CellValue::from("2024-13-01"));
    assert_eq!(coerce("2024-00-10", false).0, CellValue::from("2024-00-10"));
    assert_eq!(coerce("2024-01-00", false).0, CellValue::from("2024-01-00"));
    assert_eq!(coerce("24:00:00", false).0, CellValue::from("24:00:00"));
    assert_eq!(coerce("23:60:00", false).0, CellValue::from("23:60:00"));
    assert_eq!(coerce("23:59:60", false).0, CellValue::from("23:59:60"));
    assert_eq!(coerce("2024-12-21_13:23:00", false).0, CellValue::from("2024-12-21_13:23:00"));
}

#[test]
fn coerce_falls_back_to_text_and_blank() {
    assert_eq!(coerce("", false), (CellValue::Blank, FormatUpdate::default()));
    assert_eq!(coerce("", true), (CellValue::Blank, FormatUpdate::default()));
    assert_eq!(coerce("city", false), (CellValue::from("city"), FormatUpdate::default()));
    assert_eq!(coerce(" 12", false).0, CellValue::from(" 12"));
    assert_eq!(coerce("héllo", false).0, CellValue::from("héllo"));
}

#[test]
fn unpack_str_float_reads_plain_numbers() {
    assert_eq!(unpack_str_float("1", CellValue::Blank), number(1, 0));
    assert_eq!(unpack_str_float("12.75", CellValue::Blank), number(1275, 2));
    assert_eq!(unpack_str_float("-0.5", CellValue::Blank), number(-5, 1));
    assert_eq!(unpack_str_float("NaN", CellValue::Blank), CellValue::Blank);
    assert_eq!(unpack_str_float("inf", CellValue::from("?")), CellValue::from("?"));
    assert_eq!(unpack_str_float("5%", CellValue::Blank), CellValue::Blank);
}

#[test]
fn unpack_date_time_reads_the_three_forms() {
    let date = Date { year: 1990, month: 12, day: 21 };
    let time = Time { hour: 15, minute: 45, second: 30, nanosecond: 0 };
    assert_eq!(unpack_date_time("1990-12-21"), Some(CellValue::Date(date)));
    assert_eq!(unpack_date_time("15:45:30"), Some(CellValue::Time(time)));
    assert_eq!(
        unpack_date_time("1990-12-21T15:45:30"),
        Some(CellValue::DateTime(DateTime { date, time }))
    );
    assert_eq!(unpack_date_time("yesterday"), None);
}
