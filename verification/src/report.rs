//! From comma-separated text to the finished report.

use crate::decoder::{
    decode_error_text, decode_rows, decode_rows_spec, DecodeError, DecodeErrorView,
};
use crate::renderer::{render_report, report_text};
use crate::sorter::{chronological, sort_by_end_date};
use crate::table::{csv_data_rows, describe_csv_error, read_data_rows};
use vstd::prelude::*;
use vstd::string::*;

verus! {

/// Why no report could be made.
#[derive(Debug)]
pub enum ReportError {
    /// The input could not be read as comma-separated text.
    UnreadableTable { reason: String },
    /// A data row could not be decoded.
    Row(DecodeError),
}

impl ReportError {
    /// The message that tells why there is no report.
    pub fn message(&self) -> (text: String)
        ensures
            match self {
                ReportError::UnreadableTable { reason } => text@ == "Failed to read CSV record: "@
                    + reason@,
                ReportError::Row(error) => text@ == decode_error_text(error@),
            },
    {
        match self {
            ReportError::UnreadableTable { reason } => {
                let mut text: String = String::from_str("Failed to read CSV record: ");
                text.append(reason.as_str());
                text
            },
            ReportError::Row(error) => error.message(),
        }
    }
}

/// The report that a table of data rows stands for: its entries, decoded,
/// put in reverse chronological order and rendered; or the failure of the
/// first row that cannot be decoded.
pub open spec fn report_of_rows(rows: Seq<Seq<Seq<char>>>) -> Result<Seq<char>, DecodeErrorView> {
    match decode_rows_spec(rows) {
        Ok(entries) => Ok(report_text(chronological(entries))),
        Err(error) => Err(error),
    }
}

/// Makes the report of a table of data rows. Nothing is rendered unless
/// every row decodes.
pub fn report_from_rows(rows: &Vec<Vec<String>>) -> (report: Result<String, DecodeError>)
    ensures
        match report {
            Ok(text) => report_of_rows(rows.deep_view()) == Ok::<Seq<char>, DecodeErrorView>(text@),
            Err(error) => report_of_rows(rows.deep_view()) == Err::<Seq<char>, DecodeErrorView>(
                error@,
            ),
        },
{
    match decode_rows(rows) {
        Ok(entries) => {
            let sorted = sort_by_end_date(entries);
            Ok(render_report(&sorted))
        },
        Err(error) => Err(error),
    }
}

/// Makes the report of a comma-separated table whose first record is a
/// header.
///
/// The bytes are read into rows, every data row is decoded, the entries are
/// put in reverse chronological order and rendered. The first failure ends
/// the run, and then there is no report at all.
pub fn process_work_history(data: &[u8]) -> (report: Result<String, ReportError>)
    ensures
        match report {
            Ok(text) => csv_data_rows(data@) matches Some(rows) && report_of_rows(rows) == Ok::<
                Seq<char>,
                DecodeErrorView,
            >(text@),
            Err(ReportError::UnreadableTable { .. }) => csv_data_rows(data@) is None,
            Err(ReportError::Row(error)) => csv_data_rows(data@) matches Some(rows)
                && report_of_rows(rows) == Err::<Seq<char>, DecodeErrorView>(error@),
        },
{
    match read_data_rows(data) {
        Ok(rows) => match report_from_rows(&rows) {
            Ok(text) => Ok(text),
            Err(error) => Err(ReportError::Row(error)),
        },
        Err(error) => Err(ReportError::UnreadableTable { reason: describe_csv_error(&error) }),
    }
}

} // verus!
