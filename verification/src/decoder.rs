//! Decoding rows of text into entries.

use crate::date::{parse_date, parse_date_spec};
use crate::entry::{EntryView, WorkHistoryEntry};
use crate::location::{extract_location, location_of};
use crate::text::{decimal_text, push_decimal};
use vstd::prelude::*;
use vstd::string::*;

verus! {

/// The least number of fields that a row must have.
pub const REQUIRED_FIELDS: usize = 7;

/// Which of an entry's two dates a date text was meant for.
#[derive(Clone, Copy, Debug, PartialEq, Eq, Structural)]
pub enum DateRole {
    Start,
    End,
}

/// The mathematical model of a decoding failure.
pub enum DecodeErrorView {
    MalformedRecord { row: int },
    DateFormat { row: int, role: DateRole, text: Seq<char> },
}

/// Why a row could not be decoded. Rows are counted from 1, the header
/// left out.
#[derive(Debug)]
pub enum DecodeError {
    /// The row has fewer fields than an entry needs.
    MalformedRecord { row: usize },
    /// A date field does not name a day in the layout `MM/DD/YYYY`.
    DateFormat { row: usize, role: DateRole, text: String },
}

impl View for DecodeError {
    type V = DecodeErrorView;

    open spec fn view(&self) -> DecodeErrorView {
        match self {
            DecodeError::MalformedRecord { row } => DecodeErrorView::MalformedRecord {
                row: *row as int,
            },
            DecodeError::DateFormat { row, role, text } => DecodeErrorView::DateFormat {
                row: *row as int,
                role: *role,
                text: text@,
            },
        }
    }
}

impl DateRole {
    /// The word for the role in a message.
    pub open spec fn name(self) -> Seq<char> {
        match self {
            DateRole::Start => "start"@,
            DateRole::End => "end"@,
        }
    }
}

/// The message for a decoding failure: the row, what is wrong with it and,
/// for a date, the text as it was found.
pub open spec fn decode_error_text(error: DecodeErrorView) -> Seq<char> {
    match error {
        DecodeErrorView::MalformedRecord { row } => "Row "@ + decimal_text(row as nat)
            + ": expected at least 7 fields"@,
        DecodeErrorView::DateFormat { row, role, text } => "Row "@ + decimal_text(row as nat)
            + ": failed to parse "@ + role.name() + " date: "@ + text,
    }
}

impl DecodeError {
    /// The message that names the row and what is wrong with it.
    pub fn message(&self) -> (text: String)
        ensures
            text@ == decode_error_text(self@),
    {
        let mut out: String = String::from_str("Row ");
        match self {
            DecodeError::MalformedRecord { row } => {
                push_decimal(&mut out, *row);
                out.append(": expected at least 7 fields");
            },
            DecodeError::DateFormat { row, role, text } => {
                push_decimal(&mut out, *row);
                out.append(": failed to parse ");
                match role {
                    DateRole::Start => out.append("start"),
                    DateRole::End => out.append("end"),
                }
                out.append(" date: ");
                out.append(text.as_str());
            },
        }
        out
    }
}

/// What a row decodes to.
///
/// Fields 0 and 1 are the company and the position, fields 2 and 3 the start
/// and the end date, field 4 the address that the location is derived from,
/// and field 6 the responsibilities. Field 5 and any field after the seventh
/// are not read. A bad start date is reported before a bad end date.
pub open spec fn decode_row_spec(fields: Seq<Seq<char>>, row: int) -> Result<
    EntryView,
    DecodeErrorView,
> {
    if fields.len() < REQUIRED_FIELDS {
        Err(DecodeErrorView::MalformedRecord { row })
    } else {
        match parse_date_spec(fields[2]) {
            None => Err(DecodeErrorView::DateFormat { row, role: DateRole::Start, text: fields[2] }),
            Some(start_date) => match parse_date_spec(fields[3]) {
                None => Err(
                    DecodeErrorView::DateFormat { row, role: DateRole::End, text: fields[3] },
                ),
                Some(end_date) => Ok(
                    EntryView {
                        company: fields[0],
                        position: fields[1],
                        start_date,
                        end_date,
                        location: location_of(fields[4]),
                        responsibilities: fields[6],
                    },
                ),
            },
        }
    }
}

/// The model of a decoding result.
pub open spec fn decoded_view(decoded: Result<WorkHistoryEntry, DecodeError>) -> Result<
    EntryView,
    DecodeErrorView,
> {
    match decoded {
        Ok(entry) => Ok(entry@),
        Err(error) => Err(error@),
    }
}

/// Decodes one row, given its position among the data rows, counted from 1.
pub fn decode_row(fields: &Vec<String>, row: usize) -> (decoded: Result<
    WorkHistoryEntry,
    DecodeError,
>)
    ensures
        decoded_view(decoded) == decode_row_spec(fields.deep_view(), row as int),
{
    if fields.len() < REQUIRED_FIELDS {
        return Err(DecodeError::MalformedRecord { row });
    }
    let start_date = match parse_date(fields[2].as_str()) {
        Ok(date) => date,
        Err(error) => {
            return Err(DecodeError::DateFormat { row, role: DateRole::Start, text: error.text });
        },
    };
    let end_date = match parse_date(fields[3].as_str()) {
        Ok(date) => date,
        Err(error) => {
            return Err(DecodeError::DateFormat { row, role: DateRole::End, text: error.text });
        },
    };
    let location: String = extract_location(fields[4].as_str());
    Ok(
        WorkHistoryEntry::new(
            fields[0].clone(),
            fields[1].clone(),
            start_date,
            end_date,
            location,
            fields[6].clone(),
        ),
    )
}

/// Decoding depends on nothing but the text of the row and its position:
/// rows with the same fields, decoded at the same position, give the same
/// entry or fail in the same way.
pub proof fn lemma_decoding_is_deterministic(
    first_fields: Vec<String>,
    second_fields: Vec<String>,
    row: usize,
    first: Result<WorkHistoryEntry, DecodeError>,
    second: Result<WorkHistoryEntry, DecodeError>,
)
    requires
        first_fields.deep_view() == second_fields.deep_view(),
        decoded_view(first) == decode_row_spec(first_fields.deep_view(), row as int),
        decoded_view(second) == decode_row_spec(second_fields.deep_view(), row as int),
    ensures
        decoded_view(first) == decoded_view(second),
{
}

/// What a table of data rows decodes to: the entries of all rows in source
/// order, or the failure of the first row that cannot be decoded. The row
/// at index `i` is row number `i + 1`.
pub open spec fn decode_rows_spec(rows: Seq<Seq<Seq<char>>>) -> Result<
    Seq<EntryView>,
    DecodeErrorView,
>
    decreases rows.len(),
{
    if rows.len() == 0 {
        Ok(Seq::<EntryView>::empty())
    } else {
        match decode_rows_spec(rows.drop_last()) {
            Err(error) => Err(error),
            Ok(entries) => match decode_row_spec(rows.last(), rows.len() as int) {
                Err(error) => Err(error),
                Ok(entry) => Ok(entries.push(entry)),
            },
        }
    }
}

/// A table decodes to entries exactly when each of its rows does, and then
/// the entries stand in the order of their rows.
pub proof fn lemma_decoded_rows_keep_their_order(rows: Seq<Seq<Seq<char>>>)
    ensures
        decode_rows_spec(rows) is Ok <==> (forall|i: int|
            0 <= i < rows.len() ==> (#[trigger] decode_row_spec(rows[i], i + 1)) is Ok),
        decode_rows_spec(rows) matches Ok(entries) ==> entries.len() == rows.len() && (forall|
            i: int,
        |
            0 <= i < rows.len() ==> #[trigger] decode_row_spec(rows[i], i + 1) == Ok::<
                EntryView,
                DecodeErrorView,
            >(entries[i])),
    decreases rows.len(),
{
    if rows.len() > 0 {
        let earlier = rows.drop_last();
        lemma_decoded_rows_keep_their_order(earlier);
        assert forall|i: int| 0 <= i < earlier.len() implies earlier[i] == rows[i] by {}
        if decode_rows_spec(rows) is Ok {
            assert forall|i: int| 0 <= i < rows.len() implies (#[trigger] decode_row_spec(
                rows[i],
                i + 1,
            )) is Ok by {
                if i < earlier.len() {
                    assert(earlier[i] == rows[i]);
                }
            }
        }
        if forall|i: int|
            0 <= i < rows.len() ==> (#[trigger] decode_row_spec(rows[i], i + 1)) is Ok {
            assert forall|i: int| 0 <= i < earlier.len() implies (#[trigger] decode_row_spec(
                earlier[i],
                i + 1,
            )) is Ok by {
                assert(earlier[i] == rows[i]);
                assert(decode_row_spec(rows[i], i + 1) is Ok);
            }
            assert(decode_row_spec(rows[rows.len() - 1], rows.len() - 1 + 1) is Ok);
        }
    }
}

/// A table that does not decode reports the first of its rows, in source
/// order, that cannot be decoded.
pub proof fn lemma_first_failure_is_reported(rows: Seq<Seq<Seq<char>>>)
    ensures
        decode_rows_spec(rows) matches Err(error) ==> exists|k: int|
            0 <= k < rows.len() && #[trigger] decode_row_spec(rows[k], k + 1) == Err::<
                EntryView,
                DecodeErrorView,
            >(error) && (forall|j: int|
                0 <= j < k ==> (#[trigger] decode_row_spec(rows[j], j + 1)) is Ok),
    decreases rows.len(),
{
    if rows.len() > 0 {
        let earlier = rows.drop_last();
        lemma_first_failure_is_reported(earlier);
        lemma_decoded_rows_keep_their_order(earlier);
        match decode_rows_spec(earlier) {
            Err(error) => {
                let k = choose|k: int|
                    0 <= k < earlier.len() && #[trigger] decode_row_spec(earlier[k], k + 1) == Err::<
                        EntryView,
                        DecodeErrorView,
                    >(error) && (forall|j: int|
                        0 <= j < k ==> (#[trigger] decode_row_spec(earlier[j], j + 1)) is Ok);
                assert(earlier[k] == rows[k]);
                assert forall|j: int| 0 <= j < k implies (#[trigger] decode_row_spec(
                    rows[j],
                    j + 1,
                )) is Ok by {
                    assert(earlier[j] == rows[j]);
                    assert(decode_row_spec(earlier[j], j + 1) is Ok);
                }
                assert(decode_row_spec(rows[k], k + 1) == Err::<EntryView, DecodeErrorView>(error));
            },
            Ok(_) => {
                if let Err(error) = decode_rows_spec(rows) {
                    let k = rows.len() - 1;
                    assert forall|j: int| 0 <= j < k implies (#[trigger] decode_row_spec(
                        rows[j],
                        j + 1,
                    )) is Ok by {
                        assert(earlier[j] == rows[j]);
                        assert(decode_row_spec(earlier[j], j + 1) is Ok);
                    }
                    assert(decode_row_spec(rows[k], k + 1) == Err::<EntryView, DecodeErrorView>(
                        error,
                    ));
                }
            },
        }
    }
}

/// Once a leading part of a table fails to decode, the whole table fails in
/// the same way.
proof fn lemma_failure_persists(rows: Seq<Seq<Seq<char>>>, k: int)
    requires
        0 <= k <= rows.len(),
        decode_rows_spec(rows.take(k)) is Err,
    ensures
        decode_rows_spec(rows) == decode_rows_spec(rows.take(k)),
    decreases rows.len() - k,
{
    if k < rows.len() {
        assert(rows.take(k + 1).drop_last() =~= rows.take(k));
        lemma_failure_persists(rows, k + 1);
    } else {
        assert(rows.take(k) =~= rows);
    }
}

/// Decodes the data rows of a table in source order and stops at the first
/// row that cannot be decoded.
pub fn decode_rows(rows: &Vec<Vec<String>>) -> (decoded: Result<Vec<WorkHistoryEntry>, DecodeError>)
    ensures
        match decoded {
            Ok(entries) => decode_rows_spec(rows.deep_view()) == Ok::<
                Seq<EntryView>,
                DecodeErrorView,
            >(entries.deep_view()),
            Err(error) => decode_rows_spec(rows.deep_view()) == Err::<
                Seq<EntryView>,
                DecodeErrorView,
            >(error@),
        },
{
    let n: usize = rows.len();
    let mut entries: Vec<WorkHistoryEntry> = Vec::new();
    let mut i: usize = 0;
    proof {
        assert(rows.deep_view().take(0) =~= Seq::<Seq<Seq<char>>>::empty());
        assert(entries.deep_view() =~= Seq::<EntryView>::empty());
    }
    while i < n
        invariant
            n == rows@.len(),
            i <= n,
            decode_rows_spec(rows.deep_view().take(i as int)) == Ok::<
                Seq<EntryView>,
                DecodeErrorView,
            >(entries.deep_view()),
        decreases n - i,
    {
        let ghost table = rows.deep_view();
        let ghost so_far = entries.deep_view();
        proof {
            assert(table.take(i + 1).drop_last() =~= table.take(i as int));
            assert(table.take(i + 1).last() == rows@[i as int].deep_view());
        }
        match decode_row(&rows[i], i + 1) {
            Ok(entry) => {
                entries.push(entry);
                proof {
                    assert(entries.deep_view() =~= so_far.push(entry@));
                }
            },
            Err(error) => {
                proof {
                    lemma_failure_persists(table, i + 1);
                }
                return Err(error);
            },
        }
        i = i + 1;
    }
    proof {
        assert(rows.deep_view().take(n as int) =~= rows.deep_view());
    }
    Ok(entries)
}

} // verus!
