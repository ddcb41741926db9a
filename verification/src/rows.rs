//! Splitting delimited text into rows of fields.

use vstd::prelude::*;

verus! {

/// The rows of fields that the `csv` reader makes of a text, the header row
/// among them, or none where the reader reports an error.
pub uninterp spec fn csv_rows(text: Seq<char>) -> Option<Seq<Seq<Seq<char>>>>;

/// Splits a text into rows of fields with `csv::Reader::records`, on a reader
/// that takes the first row as a row like any other and lets rows differ in
/// length. The contract only gives the outcome its name: the rows that come
/// back are `csv_rows` of the text, and there are none where the reader
/// reports an error.
#[verifier::external_body]
pub(crate) fn read_rows(text: &str) -> (rows: Option<Vec<Vec<String>>>)
    ensures
        rows.deep_view() == csv_rows(text@),
{
    let mut reader = csv::ReaderBuilder::new().has_headers(false).flexible(true).from_reader(
        text.as_bytes(),
    );
    let mut rows = Vec::new();
    for record in reader.records() {
        rows.push(record.ok()?.iter().map(String::from).collect());
    }
    Some(rows)
}

} // verus!
