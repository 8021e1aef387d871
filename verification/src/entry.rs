//! One decoded employment record.

use crate::date::{CalendarDate, YearMonthDay};
use vstd::prelude::*;

verus! {

/// The mathematical model of an entry: its texts as sequences of characters
/// and its dates as year, month and day.
pub struct EntryView {
    pub company: Seq<char>,
    pub position: Seq<char>,
    pub start_date: YearMonthDay,
    pub end_date: YearMonthDay,
    pub location: Seq<char>,
    pub responsibilities: Seq<char>,
}

/// One employment record with every field decoded. An entry does not change
/// after it was made.
#[derive(Debug)]
pub struct WorkHistoryEntry {
    company: String,
    position: String,
    start_date: CalendarDate,
    end_date: CalendarDate,
    location: String,
    responsibilities: String,
}

impl View for WorkHistoryEntry {
    type V = EntryView;

    closed spec fn view(&self) -> EntryView {
        EntryView {
            company: self.company@,
            position: self.position@,
            start_date: self.start_date@,
            end_date: self.end_date@,
            location: self.location@,
            responsibilities: self.responsibilities@,
        }
    }
}

impl DeepView for WorkHistoryEntry {
    type V = EntryView;

    open spec fn deep_view(&self) -> EntryView {
        self@
    }
}

impl WorkHistoryEntry {
    /// Makes an entry of its six fields.
    pub fn new(
        company: String,
        position: String,
        start_date: CalendarDate,
        end_date: CalendarDate,
        location: String,
        responsibilities: String,
    ) -> (entry: WorkHistoryEntry)
        ensures
            entry@ == (EntryView {
                company: company@,
                position: position@,
                start_date: start_date@,
                end_date: end_date@,
                location: location@,
                responsibilities: responsibilities@,
            }),
    {
        WorkHistoryEntry { company, position, start_date, end_date, location, responsibilities }
    }

    pub fn company(&self) -> (text: &str)
        ensures
            text@ == self@.company,
    {
        self.company.as_str()
    }

    pub fn position(&self) -> (text: &str)
        ensures
            text@ == self@.position,
    {
        self.position.as_str()
    }

    pub fn start_date(&self) -> (date: CalendarDate)
        ensures
            date@ == self@.start_date,
    {
        self.start_date
    }

    pub fn end_date(&self) -> (date: CalendarDate)
        ensures
            date@ == self@.end_date,
    {
        self.end_date
    }

    pub fn location(&self) -> (text: &str)
        ensures
            text@ == self@.location,
    {
        self.location.as_str()
    }

    pub fn responsibilities(&self) -> (text: &str)
        ensures
            text@ == self@.responsibilities,
    {
        self.responsibilities.as_str()
    }
}

} // verus!
