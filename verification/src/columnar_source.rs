//! The calls into the `arrow` crates. Nothing here is proved: each
//! function states what the crate it calls is trusted to do. Only the
//! batches of records that were read of a file are asked here; the reading
//! itself is not.

use vstd::prelude::*;

verus! {

/// A batch of records of `arrow`, as a reader of columnar files hands it
/// out; nothing is known of what is inside.
#[verifier::external_body]
pub struct Batch {
    pub inner: arrow_array::RecordBatch,
}

/// The error of `arrow`; nothing is known of what is inside.
#[verifier::external_type_specification]
#[verifier::external_body]
pub struct ExArrowError(arrow_schema::ArrowError);

/// What was read of one column of a batch: whether its data type is one of
/// the types of strings, and its values as `arrow` displays them, nothing
/// for a null; no values at all where `arrow` cannot display the column.
pub struct ColumnRead {
    pub is_text: bool,
    pub values: Option<Seq<Option<Seq<char>>>>,
}

/// The columns of a batch of records, in order.
pub uninterp spec fn batch_content(batch: Batch) -> Seq<ColumnRead>;

/// Number of rows of a batch of records.
pub uninterp spec fn batch_height(batch: Batch) -> nat;

/// The text of an optional string.
pub open spec fn optional_text(text: Option<String>) -> Option<Seq<char>> {
    match text {
        Some(t) => Some(t@),
        None => None,
    }
}

/// The texts of the values of a column; a null has none.
pub open spec fn optional_texts(values: Seq<Option<String>>) -> Seq<Option<Seq<char>>> {
    values.map_values(|value: Option<String>| optional_text(value))
}

/// `RecordBatch::num_rows`.
#[verifier::external_body]
pub(crate) fn batch_rows(batch: &Batch) -> (rows: usize)
    ensures
        rows == batch_height(*batch),
{
    batch.inner.num_rows()
}

/// `RecordBatch::num_columns`.
#[verifier::external_body]
pub(crate) fn batch_columns(batch: &Batch) -> (columns: usize)
    ensures
        columns == batch_content(*batch).len(),
{
    batch.inner.num_columns()
}

/// Whether the column `column` of the batch holds text: `is_string` of its
/// data type. `RecordBatch::column` panics outside the columns of the
/// batch.
#[verifier::external_body]
pub(crate) fn column_is_text(batch: &Batch, column: usize) -> (yes: bool)
    requires
        column < batch_content(*batch).len(),
    ensures
        yes == batch_content(*batch)[column as int].is_text,
{
    batch.inner.column(column).data_type().is_string()
}

/// The values of the column `column` of the batch as `arrow` displays
/// them, with `ArrayFormatter` and its default options; nothing for a null.
/// `RecordBatch::column` panics outside the columns of the batch.
#[verifier::external_body]
pub(crate) fn column_texts(batch: &Batch, column: usize) -> (r: Result<
    Vec<Option<String>>,
    arrow_schema::ArrowError,
>)
    requires
        column < batch_content(*batch).len(),
    ensures
        match r {
            Ok(texts) => batch_content(*batch)[column as int].values == Some(optional_texts(texts@)),
            Err(_) => batch_content(*batch)[column as int].values is None,
        },
{
    let array = batch.inner.column(column);
    let options = arrow_cast::display::FormatOptions::new();
    let formatter = arrow_cast::display::ArrayFormatter::try_new(array.as_ref(), &options)?;
    (0..arrow_array::Array::len(array))
        .map(|i| match arrow_array::Array::is_null(array, i) {
            true => Ok(None),
            false => formatter.value(i).try_to_string().map(Some),
        })
        .collect()
}

/// The text with which `arrow` describes `error`.
#[verifier::external_body]
pub(crate) fn arrow_error_text(error: &arrow_schema::ArrowError) -> (text: String) {
    error.to_string()
}

} // verus!
