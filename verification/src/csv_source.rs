//! The calls into the `csv` and `csv_sniffer` crates. Nothing here is
//! proved: each function states what the crate it calls is trusted to do.

use crate::text::texts_of;
use vstd::prelude::*;

verus! {

/// The error of the `csv` crate; nothing is known of what is inside.
#[verifier::external_type_specification]
#[verifier::external_body]
pub struct ExCsvError(csv::Error);

/// The records that the `csv` crate reads from `bytes` with the given
/// delimiter, without a header row: for each record its fields, or nothing
/// where the record could not be read. Where `flexible` is false, a record
/// that has not as many fields as the first cannot be read.
pub uninterp spec fn csv_records(bytes: Seq<u8>, delimiter: u8, flexible: bool) -> Seq<
    Option<Seq<Seq<char>>>,
>;

/// The delimiter that the `csv_sniffer` crate finds for the sample `sample`
/// of a text file, if it finds one.
pub uninterp spec fn sniffed_delimiter(sample: Seq<u8>) -> Option<u8>;

/// What was read of one record: its fields, or nothing where it could not
/// be read.
pub open spec fn record_model<E>(record: Result<Vec<String>, E>) -> Option<Seq<Seq<char>>> {
    match record {
        Ok(fields) => Some(texts_of(fields@)),
        Err(_) => None,
    }
}

/// What was read of each record of a file.
pub open spec fn records_model<E>(records: Seq<Result<Vec<String>, E>>) -> Seq<
    Option<Seq<Seq<char>>>,
> {
    records.map_values(|record: Result<Vec<String>, E>| record_model(record))
}

/// Whether `c` is a character that the sniffer takes for a quote.
pub open spec fn is_quote(c: u8) -> bool {
    c == 0x22 || c == 0x27 || c == 0x60
}

/// The longest sample that the sniffer is given.
pub const SNIFF_SAMPLE_BYTES: usize = 4096;

/// Whether a carriage return at position `i` of `sample`, if there is one,
/// is directly followed by a line feed.
pub open spec fn ends_line(sample: Seq<u8>, i: int) -> bool {
    sample[i] == 0x0D ==> i + 1 < sample.len() && sample[i + 1] == 0x0A
}

/// Whether the sniffer can be given `sample`: it holds whole lines, one at
/// least, no more than [`SNIFF_SAMPLE_BYTES`] bytes, no quote character,
/// and no carriage return but before a line feed.
pub open spec fn sniffable(sample: Seq<u8>) -> bool {
    &&& 0 < sample.len() <= SNIFF_SAMPLE_BYTES
    &&& sample.last() == 0x0A
    &&& forall|i: int| 0 <= i < sample.len() ==> !is_quote(#[trigger] sample[i])
    &&& forall|i: int| 0 <= i < sample.len() ==> #[trigger] ends_line(sample, i)
}

/// `csv::ReaderBuilder` with the given delimiter and flexibility and without
/// a header row, read to the end over `bytes`: every record in order, with
/// its fields as text, or with the error where it could not be read.
#[verifier::external_body]
pub(crate) fn parse_records(bytes: &[u8], delimiter: u8, flexible: bool) -> (records: Vec<
    Result<Vec<String>, csv::Error>,
>)
    ensures
        records_model(records@) == csv_records(bytes@, delimiter, flexible),
{
    let mut builder = csv::ReaderBuilder::new();
    builder.delimiter(delimiter).has_headers(false).flexible(flexible);
    builder
        .from_reader(bytes)
        .into_records()
        .map(|record| record.map(|fields| fields.iter().map(String::from).collect()))
        .collect()
}

/// The text with which the `csv` crate describes `error`.
#[verifier::external_body]
pub(crate) fn csv_error_text(error: &csv::Error) -> (text: String) {
    error.to_string()
}

/// `csv_sniffer::Sniffer::sniff_reader` over `sample`, asked for the
/// delimiter only. The sample is kept to what the sniffer is known to take:
/// on a sample without a whole line, or longer than the block in which it
/// looks for a preamble, it can fail to return; with quote characters it
/// can panic and can tell two equally frequent delimiters apart by chance;
/// and with a carriage return inside a line it can count fewer fields than
/// the records have, and panic.
#[verifier::external_body]
pub(crate) fn sniff_delimiter(sample: &[u8]) -> (found: Option<u8>)
    requires
        sniffable(sample@),
    ensures
        found == sniffed_delimiter(sample@),
{
    csv_sniffer::Sniffer::new()
        .sniff_reader(std::io::Cursor::new(sample))
        .ok()
        .map(|metadata| metadata.dialect.delimiter)
}

} // verus!
