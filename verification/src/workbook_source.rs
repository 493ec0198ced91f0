//! The calls into the `calamine` and `lexicon_fractional_index` crates.
//! Nothing here is proved: each function states what the crate it calls is
//! trusted to do. Of `calamine` only the cells of a range that was read
//! are asked here; the reading itself is not.

use crate::cell_value::{Date, DateTime, Time};
use crate::coerce::whole_part_len;
use crate::text::texts_of;
use crate::workbook_import::ExcelCellModel;
use chrono::{Datelike, Timelike};
use vstd::prelude::*;

verus! {

/// The content of a cell as `calamine` hands it out; nothing is known of
/// what is inside.
#[verifier::external_type_specification]
#[verifier::external_body]
pub struct ExData(calamine::Data);

/// A rectangle of cells of a sheet as `calamine` reads it; nothing is
/// known of what is inside.
#[verifier::external_type_specification]
#[verifier::external_body]
#[verifier::reject_recursive_types(T)]
pub struct ExRange<T>(calamine::Range<T>);

/// The kinds of content that a cell of a workbook can have.
#[derive(Clone, Copy, Debug, PartialEq, Eq, Structural)]
pub enum ExcelKind {
    Empty,
    String,
    DateTimeIso,
    DateTime,
    DurationIso,
    Float,
    Int,
    Error,
    Bool,
}

/// The texts of the rows of a range of formulas.
pub open spec fn formula_rows(rows: Seq<Vec<String>>) -> Seq<Seq<Seq<char>>> {
    rows.map_values(|row: Vec<String>| texts_of(row@))
}

/// The cells of a range of values row by row, as `Range::get` hands them
/// out for the rows and columns that `Range::get_size` counts: each with
/// its kind, the text with which `calamine` displays it, whether it is a
/// date or time and not a duration, and, where it can be asked for it, the
/// moment it stands for.
pub uninterp spec fn range_cells(range: calamine::Range<calamine::Data>) -> Seq<Seq<ExcelCellModel>>;

/// The ordering key that `lexicon_fractional_index` puts behind `previous`,
/// or first of all where there is no previous one; none where it refuses.
pub uninterp spec fn key_after(previous: Option<Seq<char>>) -> Option<Seq<char>>;

/// Whether `c` is one of the digits and letters that ordering keys are
/// made of.
pub open spec fn is_key_char(c: char) -> bool {
    ('0' <= c && c <= '9') || ('A' <= c && c <= 'Z') || ('a' <= c && c <= 'z')
}

/// Whether `key` can be handed to `lexicon_fractional_index` as a key: it
/// is not empty and made of digits and letters only.
pub open spec fn key_like(key: Seq<char>) -> bool {
    key.len() > 0 && forall|i: int| 0 <= i < key.len() ==> is_key_char(#[trigger] key[i])
}

/// `Range::get_size`: the number of rows of the range and the number of
/// cells of each of them.
#[verifier::external_body]
pub(crate) fn range_size(range: &calamine::Range<calamine::Data>) -> (size: (usize, usize))
    ensures
        size.0 == range_cells(*range).len(),
        forall|row: int|
            0 <= row < range_cells(*range).len() ==> (#[trigger] range_cells(*range)[row]).len()
                == size.1,
{
    range.get_size()
}

/// Which variant of `calamine::Data` the content is that `Range::get`
/// hands out for the cell at `row` and `column` of the range.
#[verifier::external_body]
pub(crate) fn cell_kind(range: &calamine::Range<calamine::Data>, row: usize, column: usize) -> (kind:
    ExcelKind)
    requires
        row < range_cells(*range).len(),
        column < range_cells(*range)[row as int].len(),
    ensures
        kind == range_cells(*range)[row as int][column as int].kind,
{
    match range.get((row, column)) {
        Some(calamine::Data::Empty) | None => ExcelKind::Empty,
        Some(calamine::Data::String(_)) => ExcelKind::String,
        Some(calamine::Data::DateTimeIso(_)) => ExcelKind::DateTimeIso,
        Some(calamine::Data::DateTime(_)) => ExcelKind::DateTime,
        Some(calamine::Data::DurationIso(_)) => ExcelKind::DurationIso,
        Some(calamine::Data::Float(_)) => ExcelKind::Float,
        Some(calamine::Data::Int(_)) => ExcelKind::Int,
        Some(calamine::Data::Error(_)) => ExcelKind::Error,
        Some(calamine::Data::Bool(_)) => ExcelKind::Bool,
    }
}

/// The text with which `calamine` displays the content of the cell at
/// `row` and `column` of the range.
#[verifier::external_body]
pub(crate) fn cell_text(range: &calamine::Range<calamine::Data>, row: usize, column: usize) -> (text:
    String)
    requires
        row < range_cells(*range).len(),
        column < range_cells(*range)[row as int].len(),
    ensures
        text@ == range_cells(*range)[row as int][column as int].text,
{
    match range.get((row, column)) {
        Some(data) => data.to_string(),
        None => String::new(),
    }
}

/// `ExcelDateTime::is_datetime` of the content of the cell at `row` and
/// `column` of the range: whether it is a date or time, and not a
/// duration; false for any other content.
#[verifier::external_body]
pub(crate) fn cell_is_datetime(
    range: &calamine::Range<calamine::Data>,
    row: usize,
    column: usize,
) -> (yes: bool)
    requires
        row < range_cells(*range).len(),
        column < range_cells(*range)[row as int].len(),
    ensures
        yes == range_cells(*range)[row as int][column as int].is_datetime,
{
    match range.get((row, column)) {
        Some(calamine::Data::DateTime(stamp)) => stamp.is_datetime(),
        _ => false,
    }
}

/// Whether the date or time that `text` displays can be asked for its
/// moment: the whole part of the number has one digit at least and ten at
/// most, so that the number is finite and below ten thousand million days
/// either way.
pub open spec fn moment_askable(text: Seq<char>) -> bool {
    1 <= whole_part_len(text) <= 10
}

/// `ExcelDateTime::as_datetime` of the content of the cell at `row` and
/// `column` of the range, taken apart with `chrono`: the date and the time
/// of day it stands for, if it is a date or time that `chrono` can hold.
/// The outside function counts the days in milliseconds and panics where
/// they are too far below zero for `chrono` to count, so a number that is
/// not finite or too large is left out.
#[verifier::external_body]
pub(crate) fn cell_moment(range: &calamine::Range<calamine::Data>, row: usize, column: usize) -> (moment:
    Option<DateTime>)
    requires
        row < range_cells(*range).len(),
        column < range_cells(*range)[row as int].len(),
        moment_askable(range_cells(*range)[row as int][column as int].text),
    ensures
        moment == range_cells(*range)[row as int][column as int].moment,
{
    let Some(calamine::Data::DateTime(stamp)) = range.get((row, column)) else { return None };
    let at = stamp.as_datetime()?;
    let date = Date { year: at.year(), month: at.month(), day: at.day() };
    let (hour, minute) = (at.hour(), at.minute());
    Some(DateTime { date, time: Time { hour, minute, second: at.second(), nanosecond: at.nanosecond() } })
}

/// Whether the text `a` sorts before the text `b`, character by character:
/// at the first place where they differ `a` has the lesser character, or
/// `a` ends there and `b` goes on.
pub open spec fn sorts_before(a: Seq<char>, b: Seq<char>) -> bool {
    exists|k: int|
        0 <= k <= a.len() && k <= b.len() && #[trigger] a.take(k) == b.take(k) && (if k
            < a.len() {
            k < b.len() && a[k] < b[k]
        } else {
            k < b.len()
        })
}

/// `lexicon_fractional_index::key_between` with nothing behind: the key
/// behind `previous`, which sorts after it, or the first key of all, `a0`,
/// where there is no previous one; none where the crate refuses. A key that
/// is empty or holds anything but digits and letters can make the crate
/// panic and is left out.
#[verifier::external_body]
pub(crate) fn next_order_key(previous: &Option<String>) -> (key: Option<String>)
    requires
        previous matches Some(k) ==> key_like(k@),
    ensures
        match key {
            Some(k) => key_after(text_of(*previous)) == Some(k@),
            None => key_after(text_of(*previous)) is None,
        },
        previous is Some && key is Some ==> sorts_before(previous->0@, key->0@),
        previous is None ==> key is Some && key->0@ == "a0"@,
{
    lexicon_fractional_index::key_between(previous, &None).ok()
}

/// The text of an optional string.
pub open spec fn text_of(text: Option<String>) -> Option<Seq<char>> {
    match text {
        Some(t) => Some(t@),
        None => None,
    }
}

} // verus!
