//! Reading comma-separated text into rows of fields.

use vstd::prelude::*;

verus! {

/// The error type of the `csv` crate.
#[verifier::external_type_specification]
#[verifier::external_body]
pub struct ExCsvError(csv::Error);

/// The data rows that the `csv` crate reads from comma-separated bytes whose
/// first record is a header, each row as its fields in order; `None` where
/// the crate reports an error on some record.
pub uninterp spec fn csv_data_rows(data: Seq<u8>) -> Option<Seq<Seq<Seq<char>>>>;

/// Reads all records of comma-separated bytes with the `csv` crate: a
/// `ReaderBuilder` with `has_headers(true)` and `flexible(true)`, then
/// `Reader::records`, each `StringRecord` copied field by field. Reading
/// stops at the first record that the crate reports an error on. The
/// contract names what comes back `csv_data_rows` of the bytes.
#[verifier::external_body]
pub(crate) fn read_data_rows(data: &[u8]) -> (rows: Result<Vec<Vec<String>>, csv::Error>)
    ensures
        match rows {
            Ok(table) => csv_data_rows(data@) == Some(table.deep_view()),
            Err(_) => csv_data_rows(data@) is None,
        },
{
    let mut reader = csv::ReaderBuilder::new().has_headers(true).flexible(true).from_reader(data);
    let mut rows: Vec<Vec<String>> = Vec::new();
    for record in reader.records() {
        rows.push(record?.iter().map(String::from).collect());
    }
    Ok(rows)
}

/// The description that the `csv` crate gives of one of its errors, through
/// its `Display` impl. Nothing is claimed of the text.
#[verifier::external_body]
pub(crate) fn describe_csv_error(error: &csv::Error) -> (text: String) {
    error.to_string()
}

} // verus!
