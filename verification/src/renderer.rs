//! Rendering ordered entries as numbered blocks of text.

use crate::date::{format_date, month_year_text};
use crate::entry::{EntryView, WorkHistoryEntry};
use crate::text::{decimal_text, push_decimal};
use vstd::prelude::*;
use vstd::string::*;

verus! {

/// One line of a block: a label, a value and a line feed.
pub open spec fn line_text(label: Seq<char>, value: Seq<char>) -> Seq<char> {
    label + value + seq!['\n']
}

/// The block of one entry: a heading with the entry's number, its six
/// fields one to a line, the dates as `MM/YYYY`, and an empty line.
pub open spec fn block_text(number: nat, entry: EntryView) -> Seq<char> {
    line_text("Work History "@, decimal_text(number)) + line_text("Company: "@, entry.company)
        + line_text("Position: "@, entry.position) + line_text(
        "Start Date: "@,
        month_year_text(entry.start_date),
    ) + line_text("End Date: "@, month_year_text(entry.end_date)) + line_text(
        "Location: "@,
        entry.location,
    ) + line_text("Responsibilities: "@, entry.responsibilities) + seq!['\n']
}

/// The report of a sequence of entries: their blocks in order, numbered
/// from 1.
pub open spec fn report_text(entries: Seq<EntryView>) -> Seq<char>
    decreases entries.len(),
{
    if entries.len() == 0 {
        Seq::<char>::empty()
    } else {
        report_text(entries.drop_last()) + block_text(entries.len(), entries.last())
    }
}

/// Appends a label, a value and a line feed to a text.
fn push_line(out: &mut String, label: &str, value: &str)
    ensures
        final(out)@ == old(out)@ + line_text(label@, value@),
{
    out.append(label);
    out.append(value);
    out.push('\n');
    proof {
        assert(out@ =~= old(out)@ + line_text(label@, value@));
    }
}

/// Appends the block of one entry, under the given number, to a text.
pub fn render_block(out: &mut String, number: usize, entry: &WorkHistoryEntry)
    ensures
        final(out)@ == old(out)@ + block_text(number as nat, entry@),
{
    let start: String = format_date(entry.start_date());
    let end: String = format_date(entry.end_date());
    out.append("Work History ");
    push_decimal(out, number);
    out.push('\n');
    push_line(out, "Company: ", entry.company());
    push_line(out, "Position: ", entry.position());
    push_line(out, "Start Date: ", start.as_str());
    push_line(out, "End Date: ", end.as_str());
    push_line(out, "Location: ", entry.location());
    push_line(out, "Responsibilities: ", entry.responsibilities());
    out.push('\n');
    proof {
        assert(out@ =~= old(out)@ + block_text(number as nat, entry@));
    }
}

/// Renders the entries, in the order given, as blocks numbered from 1.
pub fn render_report(entries: &Vec<WorkHistoryEntry>) -> (text: String)
    ensures
        text@ == report_text(entries.deep_view()),
{
    let n: usize = entries.len();
    let mut text: String = String::new();
    let mut i: usize = 0;
    proof {
        assert(entries.deep_view().take(0) =~= Seq::<EntryView>::empty());
    }
    while i < n
        invariant
            n == entries@.len(),
            i <= n,
            text@ == report_text(entries.deep_view().take(i as int)),
        decreases n - i,
    {
        proof {
            let model = entries.deep_view();
            assert(model.take(i + 1).drop_last() =~= model.take(i as int));
            assert(model.take(i + 1).last() == entries@[i as int]@);
        }
        render_block(&mut text, i + 1, &entries[i]);
        i = i + 1;
    }
    proof {
        assert(entries.deep_view().take(n as int) =~= entries.deep_view());
    }
    text
}

} // verus!
