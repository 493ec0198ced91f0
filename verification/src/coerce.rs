//! Reading one raw text as a typed value: a logical value, a number, a date,
//! a time, a date with a time, or else the text itself.

use crate::cell_value::{CellModel, CellValue, Date, DateTime, Decimal, Time};
use crate::formats::{DateTimeFormat, FormatUpdate, NumericFormatKind};
use crate::text::chars_of;
use vstd::prelude::*;

verus! {

/// Whether `c` is one of the digits `0` to `9`.
pub open spec fn is_digit(c: char) -> bool {
    '0' <= c && c <= '9'
}

/// The number that the digit `c` stands for.
pub open spec fn digit_value(c: char) -> int {
    c as int - 48
}

/// Whether `s` holds digits only.
pub open spec fn all_digits(s: Seq<char>) -> bool {
    forall|i: int| 0 <= i < s.len() ==> is_digit(#[trigger] s[i])
}

/// The number written by the digits `s` in base ten; 0 for no digits.
pub open spec fn digits_value(s: Seq<char>) -> int
    decreases s.len(),
{
    if s.len() == 0 {
        0
    } else {
        digits_value(s.drop_last()) * 10 + digit_value(s.last())
    }
}

/// How many digits `s` starts with.
pub open spec fn digit_prefix_len(s: Seq<char>) -> int
    decreases s.len(),
{
    if s.len() > 0 && is_digit(s[0]) {
        1 + digit_prefix_len(s.drop_first())
    } else {
        0
    }
}

/// How many digits the whole part of a number as written has: the digits
/// that follow an optional `-`.
pub open spec fn whole_part_len(s: Seq<char>) -> int {
    if s.len() > 0 && s[0] == '-' {
        digit_prefix_len(s.drop_first())
    } else {
        digit_prefix_len(s)
    }
}

/// The lower-case form of an ASCII capital letter; any other character as
/// it is.
pub open spec fn lowered(c: char) -> char {
    if 'A' <= c && c <= 'Z' {
        ((c as u8) + 32) as char
    } else {
        c
    }
}

/// The character compared against a lower-case letter: as it is where the
/// reading is strict, in lower case where it is not.
pub open spec fn folded(c: char, strict: bool) -> char {
    if strict {
        c
    } else {
        lowered(c)
    }
}

/// The logical value that `s` writes: `true` or `false`, in lower case
/// where the reading is strict, in any case where it is not.
pub open spec fn logical_of(s: Seq<char>, strict: bool) -> Option<bool> {
    if s.len() == 4 && folded(s[0], strict) == 't' && folded(s[1], strict) == 'r' && folded(
        s[2],
        strict,
    ) == 'u' && folded(s[3], strict) == 'e' {
        Some(true)
    } else if s.len() == 5 && folded(s[0], strict) == 'f' && folded(s[1], strict) == 'a'
        && folded(s[2], strict) == 'l' && folded(s[3], strict) == 's' && folded(s[4], strict)
        == 'e' {
        Some(false)
    } else {
        None
    }
}

/// A number as written, without its sign and percent sign.
pub struct SignedText {
    pub negative: bool,
    pub percent: bool,
    pub digits: Seq<char>,
}

/// Takes the sign from the front of `s`: a `-`, or a `+` where the reading
/// is not strict; and, where it is not strict, a `%` from the end.
pub open spec fn signed_text(s: Seq<char>, strict: bool) -> SignedText {
    let percent = !strict && s.len() > 0 && s.last() == '%';
    let body = if percent {
        s.drop_last()
    } else {
        s
    };
    let negative = body.len() > 0 && body[0] == '-';
    let signed = negative || (!strict && body.len() > 0 && body[0] == '+');
    SignedText {
        negative,
        percent,
        digits: if signed {
            body.drop_first()
        } else {
            body
        },
    }
}

/// The digits before and behind the point of the unsigned number that `s`
/// writes, if it writes one: one digit or more, and optionally a point with
/// one digit or more behind it.
pub open spec fn point_split(s: Seq<char>) -> Option<(Seq<char>, Seq<char>)> {
    let k = digit_prefix_len(s);
    let rest = s.skip(k);
    if k >= 1 && rest.len() == 0 {
        Some((s.take(k), Seq::empty()))
    } else if k >= 1 && rest.len() >= 2 && rest[0] == '.' && all_digits(rest.drop_first()) {
        Some((s.take(k), rest.drop_first()))
    } else {
        None
    }
}

/// The number with the given sign and digits, with whether it was written
/// as a percentage, if the digits fit in the mantissa and their count behind
/// the point in the scale. A percentage is a hundredth of the number before
/// the sign.
pub open spec fn number_from(
    negative: bool,
    percent: bool,
    magnitude: int,
    fraction_len: int,
) -> Option<(Decimal, bool)> {
    let scale = fraction_len + if percent {
        2int
    } else {
        0int
    };
    if magnitude <= i128::MAX && scale <= u32::MAX {
        Some(
            (
                Decimal {
                    mantissa: (if negative {
                        -magnitude
                    } else {
                        magnitude
                    }) as i128,
                    scale: scale as u32,
                },
                percent,
            ),
        )
    } else {
        None
    }
}

/// The number that `s` writes, with whether it was written as a percentage,
/// if `s` writes a number that the mantissa and the scale can hold.
pub open spec fn number_of(s: Seq<char>, strict: bool) -> Option<(Decimal, bool)> {
    let t = signed_text(s, strict);
    match point_split(t.digits) {
        Some((whole, fraction)) => number_from(
            t.negative,
            t.percent,
            digits_value(whole + fraction),
            fraction.len() as int,
        ),
        None => None,
    }
}

/// The number written by the two digits of `s` from position `i`.
pub open spec fn two_digits(s: Seq<char>, i: int) -> int {
    digit_value(s[i]) * 10 + digit_value(s[i + 1])
}

/// Whether a year of the Gregorian calendar has a 29th of February.
pub open spec fn is_leap_year(year: int) -> bool {
    year % 4 == 0 && (year % 100 != 0 || year % 400 == 0)
}

/// Number of days of a month of a year.
pub open spec fn days_in_month(year: int, month: int) -> int {
    if month == 2 {
        if is_leap_year(year) {
            29
        } else {
            28
        }
    } else if month == 4 || month == 6 || month == 9 || month == 11 {
        30
    } else {
        31
    }
}

/// The date that `s` writes as year, month and day, `YYYY-MM-DD`, if that
/// day exists.
pub open spec fn date_of(s: Seq<char>) -> Option<Date> {
    if s.len() == 10 && is_digit(s[0]) && is_digit(s[1]) && is_digit(s[2]) && is_digit(s[3])
        && s[4] == '-' && is_digit(s[5]) && is_digit(s[6]) && s[7] == '-' && is_digit(s[8])
        && is_digit(s[9]) {
        let year = two_digits(s, 0) * 100 + two_digits(s, 2);
        let month = two_digits(s, 5);
        let day = two_digits(s, 8);
        if 1 <= month <= 12 && 1 <= day <= days_in_month(year, month) {
            Some(Date { year: year as i32, month: month as u32, day: day as u32 })
        } else {
            None
        }
    } else {
        None
    }
}

/// The time of day that `s` writes as hour, minute and second, `HH:MM:SS`.
pub open spec fn time_of(s: Seq<char>) -> Option<Time> {
    if s.len() == 8 && is_digit(s[0]) && is_digit(s[1]) && s[2] == ':' && is_digit(s[3])
        && is_digit(s[4]) && s[5] == ':' && is_digit(s[6]) && is_digit(s[7]) {
        let hour = two_digits(s, 0);
        let minute = two_digits(s, 3);
        let second = two_digits(s, 6);
        if hour < 24 && minute < 60 && second < 60 {
            Some(
                Time {
                    hour: hour as u32,
                    minute: minute as u32,
                    second: second as u32,
                    nanosecond: 0,
                },
            )
        } else {
            None
        }
    } else {
        None
    }
}

/// The date and time that `s` writes: a date, a blank or a `T`, and a time.
pub open spec fn date_time_of(s: Seq<char>) -> Option<DateTime> {
    if s.len() == 19 && (s[10] == ' ' || s[10] == 'T') {
        match (date_of(s.subrange(0, 10)), time_of(s.subrange(11, 19))) {
            (Some(date), Some(time)) => Some(DateTime { date, time }),
            _ => None,
        }
    } else {
        None
    }
}

/// The change of format that shows a number as a percentage.
pub open spec fn percent_format() -> FormatUpdate {
    FormatUpdate {
        numeric_format: Some(Some(NumericFormatKind::Percentage)),
        ..FormatUpdate::spec_default()
    }
}

/// The change of format that shows dates and times as `format` says.
pub open spec fn date_time_format(format: DateTimeFormat) -> FormatUpdate {
    FormatUpdate { date_time: Some(Some(format)), ..FormatUpdate::spec_default() }
}

/// The value that the raw text `raw` stands for and the change of format it
/// brings: nothing for the empty text; else a logical value, a number, a
/// date, a time or a date with a time, whichever it writes, tried in this
/// order; else the text itself.
pub open spec fn coerced(raw: Seq<char>, strict: bool) -> (CellModel, FormatUpdate) {
    if raw.len() == 0 {
        (CellModel::Blank, FormatUpdate::spec_default())
    } else if logical_of(raw, strict) is Some {
        (CellModel::Logical(logical_of(raw, strict)->0), FormatUpdate::spec_default())
    } else if number_of(raw, strict) is Some {
        number_cell(number_of(raw, strict)->0)
    } else if date_of(raw) is Some {
        (CellModel::Date(date_of(raw)->0), date_time_format(DateTimeFormat::Date))
    } else if time_of(raw) is Some {
        (CellModel::Time(time_of(raw)->0), date_time_format(DateTimeFormat::Time))
    } else if date_time_of(raw) is Some {
        (CellModel::DateTime(date_time_of(raw)->0), date_time_format(DateTimeFormat::DateTime))
    } else {
        (CellModel::Text(raw), FormatUpdate::spec_default())
    }
}

/// The cell and the change of format for a number that was read, with
/// whether it was written as a percentage.
pub open spec fn number_cell(read: (Decimal, bool)) -> (CellModel, FormatUpdate) {
    let (value, percent) = read;
    (
        CellModel::Number(value),
        if percent {
            percent_format()
        } else {
            FormatUpdate::spec_default()
        },
    )
}

/// The date with a time, the date or the time that `s` writes.
pub open spec fn date_or_time(s: Seq<char>) -> Option<CellModel> {
    if date_time_of(s) is Some {
        Some(CellModel::DateTime(date_time_of(s)->0))
    } else if date_of(s) is Some {
        Some(CellModel::Date(date_of(s)->0))
    } else if time_of(s) is Some {
        Some(CellModel::Time(time_of(s)->0))
    } else {
        None
    }
}

/// Reads the raw text `raw` as a typed value and says which change of
/// format it brings. Every text has a reading: one that is nothing else is
/// text.
pub fn coerce(raw: &str, strict: bool) -> (r: (CellValue, FormatUpdate))
    ensures
        r.0@ == coerced(raw@, strict).0,
        r.1 == coerced(raw@, strict).1,
{
    let chars = chars_of(raw);
    if chars.len() == 0 {
        return (CellValue::Blank, FormatUpdate::default());
    }
    if let Some(b) = read_logical(&chars, strict) {
        return (CellValue::Logical(b), FormatUpdate::default());
    }
    if let Some((value, percent)) = read_number(&chars, strict) {
        let format = if percent {
            FormatUpdate {
                align: None,
                bold: None,
                italic: None,
                numeric_format: Some(Some(NumericFormatKind::Percentage)),
                numeric_decimals: None,
                numeric_commas: None,
                date_time: None,
            }
        } else {
            FormatUpdate::default()
        };
        return (CellValue::Number(value), format);
    }
    if chars.len() == 10 {
        assert(chars@.subrange(0, 10) =~= chars@);
        if let Some(date) = read_date(&chars, 0) {
            return (CellValue::Date(date), FormatUpdate::with_date_time(DateTimeFormat::Date));
        }
    }
    if chars.len() == 8 {
        assert(chars@.subrange(0, 8) =~= chars@);
        if let Some(time) = read_time(&chars, 0) {
            return (CellValue::Time(time), FormatUpdate::with_date_time(DateTimeFormat::Time));
        }
    }
    if let Some(date_time) = read_date_time(&chars) {
        return (
            CellValue::DateTime(date_time),
            FormatUpdate::with_date_time(DateTimeFormat::DateTime),
        );
    }
    (CellValue::Text(raw.to_owned()), FormatUpdate::default())
}

/// The number that `text` writes, read strictly, or `default` where it
/// writes none.
pub fn unpack_str_float(text: &str, default: CellValue) -> (r: CellValue)
    ensures
        r@ == match number_of(text@, true) {
            Some((value, _)) => CellModel::Number(value),
            None => default@,
        },
{
    let chars = chars_of(text);
    match read_number(&chars, true) {
        Some((value, _)) => CellValue::Number(value),
        None => default,
    }
}

/// The date with a time, the date or the time that `text` writes, if it
/// writes one of them.
pub fn unpack_date_time(text: &str) -> (r: Option<CellValue>)
    ensures
        match r {
            Some(v) => Some(v@) == date_or_time(text@),
            None => date_or_time(text@) is None,
        },
{
    let chars = chars_of(text);
    if let Some(date_time) = read_date_time(&chars) {
        return Some(CellValue::DateTime(date_time));
    }
    if chars.len() == 10 {
        assert(chars@.subrange(0, 10) =~= chars@);
        if let Some(date) = read_date(&chars, 0) {
            return Some(CellValue::Date(date));
        }
    }
    if chars.len() == 8 {
        assert(chars@.subrange(0, 8) =~= chars@);
        if let Some(time) = read_time(&chars, 0) {
            return Some(CellValue::Time(time));
        }
    }
    None
}

/// Counts the digits of the whole part of the number that `text` writes.
pub fn whole_part_digits(text: &str) -> (n: usize)
    ensures
        n == whole_part_len(text@),
{
    let chars = chars_of(text);
    let start: usize = if chars.len() > 0 && chars[0] == '-' {
        1
    } else {
        0
    };
    let ghost digits = chars@.subrange(start as int, chars@.len() as int);
    let mut i: usize = start;
    while i < chars.len() && digit(chars[i])
        invariant
            start <= i <= chars@.len(),
            forall|j: int| start <= j < i ==> is_digit(#[trigger] chars@[j]),
        decreases chars@.len() - i,
    {
        i = i + 1;
    }
    proof {
        assert forall|j: int| 0 <= j < i - start implies is_digit(#[trigger] digits[j]) by {
            assert(digits[j] == chars@[start + j]);
        }
        lemma_digit_prefix(digits, i - start);
        assert(digits =~= if start == 1 {
            text@.drop_first()
        } else {
            text@
        });
    }
    i - start
}

/// Whether `c` is a digit.
fn digit(c: char) -> (b: bool)
    ensures
        b == is_digit(c),
{
    c >= '0' && c <= '9'
}

/// The character `c` in the form in which it is compared.
fn fold(c: char, strict: bool) -> (r: char)
    ensures
        r == folded(c, strict),
{
    if !strict && c >= 'A' && c <= 'Z' {
        ((c as u8) + 32) as char
    } else {
        c
    }
}

/// Reads `chars` as a logical value.
fn read_logical(chars: &Vec<char>, strict: bool) -> (r: Option<bool>)
    ensures
        r == logical_of(chars@, strict),
{
    if chars.len() == 4 && fold(chars[0], strict) == 't' && fold(chars[1], strict) == 'r' && fold(
        chars[2],
        strict,
    ) == 'u' && fold(chars[3], strict) == 'e' {
        Some(true)
    } else if chars.len() == 5 && fold(chars[0], strict) == 'f' && fold(chars[1], strict) == 'a'
        && fold(chars[2], strict) == 'l' && fold(chars[3], strict) == 's' && fold(
        chars[4],
        strict,
    ) == 'e' {
        Some(false)
    } else {
        None
    }
}

/// The number that the digit `c` stands for.
fn digit_of(c: char) -> (d: u8)
    requires
        is_digit(c),
    ensures
        d == digit_value(c),
        d <= 9,
{
    (c as u8) - 48
}

/// Where a run of digits ended, and the number read up to there.
struct Scan {
    pos: usize,
    magnitude: i128,
    overflow: bool,
}

/// Whether `magnitude` and `overflow` stand for the number written by
/// `digits`: the number itself, or the mark that it does not fit.
spec fn stands_for(magnitude: i128, overflow: bool, digits: Seq<char>) -> bool {
    &&& 0 <= digits_value(digits)
    &&& !overflow ==> magnitude == digits_value(digits)
    &&& overflow ==> digits_value(digits) > i128::MAX
}

/// Reads on from position `from` while digits follow, up to `end` at most,
/// and continues the number written by `prefix`.
fn scan_digits(
    chars: &Vec<char>,
    from: usize,
    end: usize,
    magnitude: i128,
    overflow: bool,
    Ghost(prefix): Ghost<Seq<char>>,
) -> (r: Scan)
    requires
        from <= end <= chars@.len(),
        stands_for(magnitude, overflow, prefix),
    ensures
        from <= r.pos <= end,
        forall|j: int| from <= j < r.pos ==> is_digit(#[trigger] chars@[j]),
        r.pos == end || !is_digit(chars@[r.pos as int]),
        stands_for(r.magnitude, r.overflow, prefix + chars@.subrange(from as int, r.pos as int)),
{
    let mut i: usize = from;
    let mut magnitude: i128 = magnitude;
    let mut overflow: bool = overflow;
    assert(prefix + chars@.subrange(from as int, from as int) =~= prefix);
    while i < end && digit(chars[i])
        invariant
            from <= i <= end,
            end <= chars@.len(),
            forall|j: int| from <= j < i ==> is_digit(#[trigger] chars@[j]),
            stands_for(magnitude, overflow, prefix + chars@.subrange(from as int, i as int)),
        ensures
            i == end || !is_digit(chars@[i as int]),
        decreases end - i,
    {
        let d: i128 = digit_of(chars[i]) as i128;
        proof {
            let before = prefix + chars@.subrange(from as int, i as int);
            lemma_digits_value_push(before, chars@[i as int]);
            assert(prefix + chars@.subrange(from as int, i + 1) =~= before.push(chars@[i as int]));
        }
        if !overflow {
            match magnitude.checked_mul(10) {
                Some(m) => match m.checked_add(d) {
                    Some(t) => {
                        magnitude = t;
                    },
                    None => {
                        overflow = true;
                    },
                },
                None => {
                    overflow = true;
                },
            }
        }
        i = i + 1;
    }
    Scan { pos: i, magnitude, overflow }
}

/// Where the digits of a number stand in a text, and its sign.
struct Framed {
    start: usize,
    end: usize,
    negative: bool,
    percent: bool,
}

/// Finds the sign and the percent sign of `chars`.
fn frame(chars: &Vec<char>, strict: bool) -> (r: Framed)
    ensures
        r.start <= r.end <= chars@.len(),
        chars@.subrange(r.start as int, r.end as int) == signed_text(chars@, strict).digits,
        r.negative == signed_text(chars@, strict).negative,
        r.percent == signed_text(chars@, strict).percent,
{
    let n: usize = chars.len();
    let percent: bool = !strict && n > 0 && chars[n - 1] == '%';
    let end: usize = if percent {
        n - 1
    } else {
        n
    };
    let ghost body = chars@.take(end as int);
    assert(body =~= if percent {
        chars@.drop_last()
    } else {
        chars@
    });
    let negative: bool = end > 0 && chars[0] == '-';
    let signed: bool = negative || (!strict && end > 0 && chars[0] == '+');
    let start: usize = if signed {
        1
    } else {
        0
    };
    assert(chars@.subrange(start as int, end as int) =~= if signed {
        body.drop_first()
    } else {
        body
    });
    Framed { start, end, negative, percent }
}

/// An unsigned number as read: its digits as a number, or the mark that
/// they do not fit, and how many of them stand behind the point.
struct Unsigned {
    magnitude: i128,
    overflow: bool,
    fraction_len: usize,
}

/// Reads the characters of `chars` from `start` up to `end` as an unsigned
/// number.
fn read_unsigned(chars: &Vec<char>, start: usize, end: usize) -> (r: Option<Unsigned>)
    requires
        start <= end <= chars@.len(),
    ensures
        match point_split(chars@.subrange(start as int, end as int)) {
            Some((whole, fraction)) => r is Some && r->0.fraction_len == fraction.len()
                && stands_for(r->0.magnitude, r->0.overflow, whole + fraction),
            None => r is None,
        },
{
    let ghost digits = chars@.subrange(start as int, end as int);
    let whole = scan_digits(chars, start, end, 0, false, Ghost(Seq::empty()));
    let ghost k = whole.pos - start;
    let ghost whole_digits = digits.take(k);
    let ghost rest = digits.skip(k);
    proof {
        assert forall|j: int| 0 <= j < k implies is_digit(#[trigger] digits[j]) by {
            assert(digits[j] == chars@[start + j]);
        }
        lemma_digit_prefix(digits, k);
        assert(whole_digits =~= chars@.subrange(start as int, whole.pos as int));
        assert(Seq::<char>::empty() + whole_digits =~= whole_digits);
        assert(whole_digits + Seq::<char>::empty() =~= whole_digits);
        assert(rest =~= chars@.subrange(whole.pos as int, end as int));
    }
    if whole.pos == start {
        return None;
    }
    if whole.pos == end {
        return Some(
            Unsigned { magnitude: whole.magnitude, overflow: whole.overflow, fraction_len: 0 },
        );
    }
    if chars[whole.pos] != '.' {
        return None;
    }
    let fraction_start: usize = whole.pos + 1;
    if fraction_start == end {
        return None;
    }
    let ghost fraction = rest.drop_first();
    assert(fraction =~= chars@.subrange(fraction_start as int, end as int));
    let all = scan_digits(
        chars,
        fraction_start,
        end,
        whole.magnitude,
        whole.overflow,
        Ghost(whole_digits),
    );
    if all.pos < end {
        assert(!is_digit(fraction[all.pos - fraction_start]));
        return None;
    }
    proof {
        assert forall|j: int| 0 <= j < fraction.len() implies is_digit(#[trigger] fraction[j]) by {
            assert(fraction[j] == chars@[fraction_start + j]);
        }
    }
    Some(
        Unsigned {
            magnitude: all.magnitude,
            overflow: all.overflow,
            fraction_len: end - fraction_start,
        },
    )
}

/// Reads `chars` as a number; the second part of the result says whether a
/// percent sign followed.
fn read_number(chars: &Vec<char>, strict: bool) -> (r: Option<(Decimal, bool)>)
    ensures
        r == number_of(chars@, strict),
{
    let framed = frame(chars, strict);
    match read_unsigned(chars, framed.start, framed.end) {
        Some(read) => {
            if read.overflow {
                return None;
            }
            let extra: usize = if framed.percent {
                2
            } else {
                0
            };
            if read.fraction_len > (u32::MAX as usize) - extra {
                return None;
            }
            let scale: u32 = (read.fraction_len + extra) as u32;
            let mantissa: i128 = if framed.negative {
                -read.magnitude
            } else {
                read.magnitude
            };
            Some((Decimal { mantissa, scale }, framed.percent))
        },
        None => None,
    }
}

/// Reads the two digits of `chars` from position `i` as a number.
fn read_two(chars: &Vec<char>, i: usize) -> (r: u32)
    requires
        i + 1 < chars@.len(),
        is_digit(chars@[i as int]),
        is_digit(chars@[i + 1]),
    ensures
        r == two_digits(chars@, i as int),
        r <= 99,
{
    let n: usize = chars.len();
    digit_of(chars[i]) as u32 * 10 + digit_of(chars[i + 1]) as u32
}

/// Number of days of the month `month` of the year `year`.
fn month_length(year: u32, month: u32) -> (days: u32)
    ensures
        days == days_in_month(year as int, month as int),
{
    if month == 2 {
        if year % 4 == 0 && (year % 100 != 0 || year % 400 == 0) {
            29
        } else {
            28
        }
    } else if month == 4 || month == 6 || month == 9 || month == 11 {
        30
    } else {
        31
    }
}

/// Reads the ten characters of `chars` from position `start` as a date.
fn read_date(chars: &Vec<char>, start: usize) -> (r: Option<Date>)
    requires
        start + 10 <= chars@.len(),
    ensures
        r == date_of(chars@.subrange(start as int, start + 10)),
{
    let n: usize = chars.len();
    let ghost s = chars@.subrange(start as int, start + 10);
    assert(forall|j: int| 0 <= j < 10 ==> s[j] == chars@[start + j]);
    if digit(chars[start]) && digit(chars[start + 1]) && digit(chars[start + 2]) && digit(
        chars[start + 3],
    ) && chars[start + 4] == '-' && digit(chars[start + 5]) && digit(chars[start + 6])
        && chars[start + 7] == '-' && digit(chars[start + 8]) && digit(chars[start + 9]) {
        let year: u32 = read_two(chars, start) * 100 + read_two(chars, start + 2);
        let month: u32 = read_two(chars, start + 5);
        let day: u32 = read_two(chars, start + 8);
        assert(year == two_digits(s, 0) * 100 + two_digits(s, 2));
        assert(month == two_digits(s, 5));
        assert(day == two_digits(s, 8));
        if 1 <= month && month <= 12 && 1 <= day && day <= month_length(year, month) {
            Some(Date { year: year as i32, month, day })
        } else {
            None
        }
    } else {
        None
    }
}

/// Reads the eight characters of `chars` from position `start` as a time.
fn read_time(chars: &Vec<char>, start: usize) -> (r: Option<Time>)
    requires
        start + 8 <= chars@.len(),
    ensures
        r == time_of(chars@.subrange(start as int, start + 8)),
{
    let n: usize = chars.len();
    let ghost s = chars@.subrange(start as int, start + 8);
    assert(forall|j: int| 0 <= j < 8 ==> s[j] == chars@[start + j]);
    if digit(chars[start]) && digit(chars[start + 1]) && chars[start + 2] == ':' && digit(
        chars[start + 3],
    ) && digit(chars[start + 4]) && chars[start + 5] == ':' && digit(chars[start + 6]) && digit(
        chars[start + 7],
    ) {
        let hour: u32 = read_two(chars, start);
        let minute: u32 = read_two(chars, start + 3);
        let second: u32 = read_two(chars, start + 6);
        assert(hour == two_digits(s, 0));
        assert(minute == two_digits(s, 3));
        assert(second == two_digits(s, 6));
        if hour < 24 && minute < 60 && second < 60 {
            Some(Time { hour, minute, second, nanosecond: 0 })
        } else {
            None
        }
    } else {
        None
    }
}

/// Reads `chars` as a date followed by a time.
fn read_date_time(chars: &Vec<char>) -> (r: Option<DateTime>)
    ensures
        r == date_time_of(chars@),
{
    if chars.len() == 19 && (chars[10] == ' ' || chars[10] == 'T') {
        match read_date(chars, 0) {
            Some(date) => match read_time(chars, 11) {
                Some(time) => Some(DateTime { date, time }),
                None => None,
            },
            None => None,
        }
    } else {
        None
    }
}

/// Appending a digit multiplies the number written so far by ten and adds
/// the digit.
proof fn lemma_digits_value_push(s: Seq<char>, c: char)
    ensures
        digits_value(s.push(c)) == digits_value(s) * 10 + digit_value(c),
{
    assert(s.push(c).drop_last() =~= s);
}

/// Where `s` has digits up to position `k` and none at `k`, it starts with
/// `k` digits.
proof fn lemma_digit_prefix(s: Seq<char>, k: int)
    requires
        0 <= k <= s.len(),
        forall|j: int| 0 <= j < k ==> is_digit(#[trigger] s[j]),
        k == s.len() || !is_digit(s[k]),
    ensures
        digit_prefix_len(s) == k,
    decreases k,
{
    if k > 0 {
        let t = s.drop_first();
        assert forall|j: int| 0 <= j < k - 1 implies is_digit(#[trigger] t[j]) by {
            assert(t[j] == s[j + 1]);
        }
        lemma_digit_prefix(t, k - 1);
    }
}

} // verus!
