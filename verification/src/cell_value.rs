//! The value of one cell and the plain data it is made of.

use vstd::prelude::*;
use vstd::std_specs::cmp::PartialEqSpecImpl;
use vstd::std_specs::convert::FromSpecImpl;

verus! {

/// An exact decimal number, `mantissa / 10^scale`.
#[derive(Clone, Copy, Debug, PartialEq, Eq, Structural)]
pub struct Decimal {
    pub mantissa: i128,
    pub scale: u32,
}

/// A calendar date of the proleptic Gregorian calendar.
#[derive(Clone, Copy, Debug, PartialEq, Eq, Structural)]
pub struct Date {
    pub year: i32,
    pub month: u32,
    pub day: u32,
}

/// A time of day.
#[derive(Clone, Copy, Debug, PartialEq, Eq, Structural)]
pub struct Time {
    pub hour: u32,
    pub minute: u32,
    pub second: u32,
    pub nanosecond: u32,
}

/// A date together with a time of day.
#[derive(Clone, Copy, Debug, PartialEq, Eq, Structural)]
pub struct DateTime {
    pub date: Date,
    pub time: Time,
}

/// The language a code cell is written in.
#[derive(Clone, Copy, Debug, PartialEq, Eq, Structural)]
pub enum CodeCellLanguage {
    Python,
    Formula,
    Javascript,
}

/// The variant of a [`CellValue`], without its content.
#[derive(Clone, Copy, Debug, PartialEq, Eq, Structural)]
pub enum CellKind {
    Blank,
    Text,
    Number,
    Logical,
    Date,
    Time,
    DateTime,
    Code,
    Import,
}

/// Source text of a code cell.
#[derive(Debug, PartialEq, Eq)]
pub struct CodeCellValue {
    pub language: CodeCellLanguage,
    pub code: String,
}

/// Marker that names the file a data table was read from.
#[derive(Debug, PartialEq, Eq)]
pub struct Import {
    pub file_name: String,
}

/// The content of one cell.
#[derive(Debug)]
pub enum CellValue {
    Blank,
    Text(String),
    Number(Decimal),
    Logical(bool),
    Date(Date),
    Time(Time),
    DateTime(DateTime),
    Code(CodeCellValue),
    Import(Import),
}

/// Mathematical model of a [`CellValue`]: text is a sequence of characters.
pub enum CellModel {
    Blank,
    Text(Seq<char>),
    Number(Decimal),
    Logical(bool),
    Date(Date),
    Time(Time),
    DateTime(DateTime),
    Code(CodeCellLanguage, Seq<char>),
    Import(Seq<char>),
}

impl CellModel {
    /// The variant of the modelled value.
    pub open spec fn kind(self) -> CellKind {
        match self {
            CellModel::Blank => CellKind::Blank,
            CellModel::Text(_) => CellKind::Text,
            CellModel::Number(_) => CellKind::Number,
            CellModel::Logical(_) => CellKind::Logical,
            CellModel::Date(_) => CellKind::Date,
            CellModel::Time(_) => CellKind::Time,
            CellModel::DateTime(_) => CellKind::DateTime,
            CellModel::Code(_, _) => CellKind::Code,
            CellModel::Import(_) => CellKind::Import,
        }
    }
}

impl View for CellValue {
    type V = CellModel;

    open spec fn view(&self) -> CellModel {
        match self {
            CellValue::Blank => CellModel::Blank,
            CellValue::Text(s) => CellModel::Text(s@),
            CellValue::Number(n) => CellModel::Number(*n),
            CellValue::Logical(b) => CellModel::Logical(*b),
            CellValue::Date(d) => CellModel::Date(*d),
            CellValue::Time(t) => CellModel::Time(*t),
            CellValue::DateTime(dt) => CellModel::DateTime(*dt),
            CellValue::Code(c) => CellModel::Code(c.language, c.code@),
            CellValue::Import(i) => CellModel::Import(i.file_name@),
        }
    }
}

impl DeepView for CellValue {
    type V = CellModel;

    open spec fn deep_view(&self) -> CellModel {
        self@
    }
}

impl Import {
    /// A marker for the file called `file_name`.
    pub fn new(file_name: String) -> (r: Import)
        ensures
            r.file_name@ == file_name@,
    {
        Import { file_name }
    }
}

impl Clone for Import {
    fn clone(&self) -> (r: Import)
        ensures
            r.file_name@ == self.file_name@,
    {
        Import { file_name: self.file_name.clone() }
    }
}

impl Clone for CodeCellValue {
    fn clone(&self) -> (r: CodeCellValue)
        ensures
            r.language == self.language,
            r.code@ == self.code@,
    {
        CodeCellValue { language: self.language, code: self.code.clone() }
    }
}

impl Clone for CellValue {
    fn clone(&self) -> (r: CellValue)
        ensures
            r@ == self@,
    {
        match self {
            CellValue::Blank => CellValue::Blank,
            CellValue::Text(s) => CellValue::Text(s.clone()),
            CellValue::Number(n) => CellValue::Number(*n),
            CellValue::Logical(b) => CellValue::Logical(*b),
            CellValue::Date(d) => CellValue::Date(*d),
            CellValue::Time(t) => CellValue::Time(*t),
            CellValue::DateTime(dt) => CellValue::DateTime(*dt),
            CellValue::Code(c) => CellValue::Code(c.clone()),
            CellValue::Import(i) => CellValue::Import(i.clone()),
        }
    }
}

impl PartialEq for CellValue {
    fn eq(&self, other: &CellValue) -> (r: bool) {
        match self {
            CellValue::Blank => other.is_blank(),
            CellValue::Text(a) => match other {
                CellValue::Text(b) => *a == *b,
                _ => false,
            },
            CellValue::Number(a) => match other {
                CellValue::Number(b) => *a == *b,
                _ => false,
            },
            CellValue::Logical(a) => match other {
                CellValue::Logical(b) => *a == *b,
                _ => false,
            },
            CellValue::Date(a) => match other {
                CellValue::Date(b) => *a == *b,
                _ => false,
            },
            CellValue::Time(a) => match other {
                CellValue::Time(b) => *a == *b,
                _ => false,
            },
            CellValue::DateTime(a) => match other {
                CellValue::DateTime(b) => *a == *b,
                _ => false,
            },
            CellValue::Code(a) => match other {
                CellValue::Code(b) => a.language == b.language && a.code == b.code,
                _ => false,
            },
            CellValue::Import(a) => match other {
                CellValue::Import(b) => a.file_name == b.file_name,
                _ => false,
            },
        }
    }
}

impl PartialEqSpecImpl for CellValue {
    open spec fn obeys_eq_spec() -> bool {
        true
    }

    open spec fn eq_spec(&self, other: &CellValue) -> bool {
        self@ == other@
    }
}

impl CellValue {
    /// The variant of this value.
    pub fn type_id(&self) -> (k: CellKind)
        ensures
            k == self@.kind(),
    {
        match self {
            CellValue::Blank => CellKind::Blank,
            CellValue::Text(_) => CellKind::Text,
            CellValue::Number(_) => CellKind::Number,
            CellValue::Logical(_) => CellKind::Logical,
            CellValue::Date(_) => CellKind::Date,
            CellValue::Time(_) => CellKind::Time,
            CellValue::DateTime(_) => CellKind::DateTime,
            CellValue::Code(_) => CellKind::Code,
            CellValue::Import(_) => CellKind::Import,
        }
    }

    /// Whether this value is `Blank`.
    pub fn is_blank(&self) -> (b: bool)
        ensures
            b == (self@ == CellModel::Blank),
    {
        match self {
            CellValue::Blank => true,
            _ => false,
        }
    }
}

impl From<&str> for CellValue {
    fn from(text: &str) -> (r: CellValue)
        ensures
            r@ == CellModel::Text(text@),
    {
        CellValue::Text(text.to_owned())
    }
}

impl FromSpecImpl<&str> for CellValue {
    open spec fn obeys_from_spec() -> bool {
        false
    }

    open spec fn from_spec(text: &str) -> CellValue {
        arbitrary()
    }
}

} // verus!
