//! The ways an import can fail.

use crate::text::{decimal_text, number_text};
use vstd::prelude::*;
use vstd::string::StringExecFns;

verus! {

/// Which import it was that a file could not be read by.
#[derive(Clone, Copy, Debug, PartialEq, Eq, Structural)]
pub enum ImportSource {
    /// The preview of a file of delimited text.
    CsvPreview,
    /// The import of a file of delimited text.
    Csv,
    /// The import of a workbook.
    Excel,
    /// The import of a columnar file.
    Parquet,
}

/// Why a file could not be imported. An import that fails returns no
/// operation at all.
#[derive(Debug, Clone, PartialEq, Eq)]
pub enum ImportError {
    /// The file is not what it should be: text that cannot be split into
    /// records, a workbook or a columnar file that cannot be opened, or a
    /// record that does not fit the table.
    MalformedInput { source: ImportSource, file_name: String, line: Option<u64>, detail: String },
    /// The file holds no column.
    EmptyInput,
    /// A sheet of the file has the name of a sheet that exists already.
    NameCollision { name: String },
    /// The table would have more cells than can be counted, or a cell would
    /// lie further out than a sheet reaches.
    SizeOverflow,
}

/// How the message of a file that could not be read begins: with the kind
/// of file and, but for a preview, its name.
pub open spec fn malformed_start(source: ImportSource, file_name: Seq<char>) -> Seq<char> {
    match source {
        ImportSource::CsvPreview => "Error parsing CSV file for preview"@,
        ImportSource::Csv => "Error parsing CSV file "@ + file_name,
        ImportSource::Excel => "Error parsing Excel file "@ + file_name,
        ImportSource::Parquet => "Error parsing Parquet file "@ + file_name,
    }
}

/// How the message of a file that could not be read goes on: with the
/// line, where there is one, and with what was wrong.
pub open spec fn malformed_rest(line: Option<u64>, detail: Seq<char>) -> Seq<char> {
    match line {
        Some(line) => ": line "@ + decimal_text(line as nat) + ": "@ + detail,
        None => ": "@ + detail,
    }
}

impl ImportError {
    /// The message of this error.
    pub open spec fn message_text(&self) -> Seq<char> {
        match self {
            ImportError::MalformedInput { source, file_name, line, detail } => {
                malformed_start(*source, file_name@) + malformed_rest(*line, detail@)
            },
            ImportError::EmptyInput => "empty files cannot be processed"@,
            ImportError::NameCollision { name } => {
                "Sheet with name "@ + name@ + " already exists"@
            },
            ImportError::SizeOverflow => "the file holds more than a sheet can"@,
        }
    }

    /// The message of this error, as it is shown to the user.
    pub fn message(&self) -> (text: String)
        ensures
            text@ == self.message_text(),
    {
        match self {
            ImportError::MalformedInput { source, file_name, line, detail } => {
                let mut text = match source {
                    ImportSource::CsvPreview => String::from_str("Error parsing CSV file for preview"),
                    ImportSource::Csv => {
                        let mut start = String::from_str("Error parsing CSV file ");
                        start.append(file_name.as_str());
                        start
                    },
                    ImportSource::Excel => {
                        let mut start = String::from_str("Error parsing Excel file ");
                        start.append(file_name.as_str());
                        start
                    },
                    ImportSource::Parquet => {
                        let mut start = String::from_str("Error parsing Parquet file ");
                        start.append(file_name.as_str());
                        start
                    },
                };
                assert(text@ == malformed_start(*source, file_name@));
                match line {
                    Some(line) => {
                        text.append(": line ");
                        text.append(number_text(*line).as_str());
                    },
                    None => {},
                }
                text.append(": ");
                text.append(detail.as_str());
                proof {
                    assert(text@ =~= malformed_start(*source, file_name@) + malformed_rest(
                        *line,
                        detail@,
                    ));
                }
                text
            },
            ImportError::EmptyInput => String::from_str("empty files cannot be processed"),
            ImportError::NameCollision { name } => {
                let mut text = String::from_str("Sheet with name ");
                text.append(name.as_str());
                text.append(" already exists");
                text
            },
            ImportError::SizeOverflow => String::from_str("the file holds more than a sheet can"),
        }
    }
}

/// The message of a preview that failed on line `line` begins by saying
/// so.
pub proof fn lemma_preview_message(error: ImportError)
    requires
        error matches ImportError::MalformedInput { source, file_name, line, detail }
            && source == ImportSource::CsvPreview && line is Some,
    ensures
        "Error parsing CSV file for preview: line "@.is_prefix_of(error.message_text()),
{
    match error {
        ImportError::MalformedInput { source, file_name, line, detail } => {
            let rest = decimal_text(line->0 as nat) + ": "@ + detail@;
            assert(error.message_text() =~= "Error parsing CSV file for preview"@ + ": line "@ + rest);
            lemma_literals_join();
            assert(error.message_text() =~= "Error parsing CSV file for preview: line "@ + rest);
        },
        _ => {},
    }
}

/// The two parts of the start of the message of a preview, joined.
proof fn lemma_literals_join()
    ensures
        "Error parsing CSV file for preview"@ + ": line "@
            == "Error parsing CSV file for preview: line "@,
{
    reveal_strlit("Error parsing CSV file for preview");
    reveal_strlit(": line ");
    reveal_strlit("Error parsing CSV file for preview: line ");
    assert("Error parsing CSV file for preview"@ + ": line "@
        =~= "Error parsing CSV file for preview: line "@);
}

/// One notice of how far an import has come.
#[derive(Debug, Clone, PartialEq, Eq)]
pub struct ImportProgress {
    pub file_name: String,
    pub current: u32,
    pub total: u32,
    pub x: i64,
    pub y: i64,
    pub width: u32,
    pub height: u32,
}

/// Mathematical model of an [`ImportProgress`].
pub struct ProgressModel {
    pub file_name: Seq<char>,
    pub current: int,
    pub total: int,
    pub x: int,
    pub y: int,
    pub width: int,
    pub height: int,
}

impl View for ImportProgress {
    type V = ProgressModel;

    open spec fn view(&self) -> ProgressModel {
        ProgressModel {
            file_name: self.file_name@,
            current: self.current as int,
            total: self.total as int,
            x: self.x as int,
            y: self.y as int,
            width: self.width as int,
            height: self.height as int,
        }
    }
}

/// The models of a list of notices.
pub open spec fn progress_models(notices: Seq<ImportProgress>) -> Seq<ProgressModel> {
    notices.map_values(|p: ImportProgress| p@)
}

} // verus!
