use work_history::date::parse_date;
use work_history::entry::WorkHistoryEntry;
use work_history::sorter::sort_by_end_date;

fn entry(company: &str, end: &str) -> WorkHistoryEntry {
    WorkHistoryEntry::new(
        company.to_string(),
        "Position".to_string(),
        parse_date("01/01/2000").unwrap(),
        parse_date(end).unwrap(),
        "Somewhere".to_string(),
        "Work".to_string(),
    )
}

fn companies(entries: &[WorkHistoryEntry]) -> Vec<&str> {
    entries.iter().map(|e| e.company()).collect()
}

#[test]
fn equal_end_dates_keep_their_source_order() {
    let sorted = sort_by_end_date(vec![
        entry("first", "01/01/2020"),
        entry("second", "06/15/2022"),
        entry("third", "01/01/2020"),
    ]);
    assert_eq!(companies(&sorted), vec!["second", "first", "third"]);
    let ends: Vec<(i32, u32, u32)> = sorted
        .iter()
        .map(|e| (e.end_date().year(), e.end_date().month(), e.end_date().day()))
        .collect();
    assert_eq!(ends, vec![(2022, 6, 15), (2020, 1, 1), (2020, 1, 1)]);
}

#[test]
fn puts_the_most_recent_end_date_first() {
    let sorted = sort_by_end_date(vec![
        entry("a", "03/01/2015"),
        entry("b", "12/31/2023"),
        entry("c", "03/02/2015"),
        entry("d", "02/28/2015"),
        entry("e", "01/01/2024"),
    ]);
    assert_eq!(companies(&sorted), vec!["e", "b", "c", "a", "d"]);
}

#[test]
fn compares_year_before_month_before_day() {
    let sorted = sort_by_end_date(vec![
        entry("late day", "01/31/2019"),
        entry("late month", "12/01/2019"),
        entry("late year", "01/01/2020"),
    ]);
    assert_eq!(companies(&sorted), vec!["late year", "late month", "late day"]);
}

#[test]
fn leaves_an_ordered_sequence_as_it_is() {
    let sorted = sort_by_end_date(vec![
        entry("a", "05/05/2022"),
        entry("b", "05/05/2021"),
        entry("c", "05/05/2020"),
    ]);
    assert_eq!(companies(&sorted), vec!["a", "b", "c"]);
}

#[test]
fn reverses_an_ascending_sequence() {
    let sorted = sort_by_end_date(vec![
        entry("a", "05/05/2020"),
        entry("b", "05/05/2021"),
        entry("c", "05/05/2022"),
    ]);
    assert_eq!(companies(&sorted), vec!["c", "b", "a"]);
}

#[test]
fn keeps_many_equal_dates_in_source_order() {
    let sorted = sort_by_end_date(vec![
        entry("a1", "05/05/2020"),
        entry("b1", "07/07/2021"),
        entry("a2", "05/05/2020"),
        entry("b2", "07/07/2021"),
        entry("a3", "05/05/2020"),
        entry("b3", "07/07/2021"),
    ]);
    assert_eq!(companies(&sorted), vec!["b1", "b2", "b3", "a1", "a2", "a3"]);
}

#[test]
fn does_not_look_at_the_start_date() {
    let early_start = WorkHistoryEntry::new(
        "early start".to_string(),
        String::new(),
        parse_date("01/01/1990").unwrap(),
        parse_date("01/01/2020").unwrap(),
        String::new(),
        String::new(),
    );
    let late_start = WorkHistoryEntry::new(
        "late start".to_string(),
        String::new(),
        parse_date("01/01/2019").unwrap(),
        parse_date("01/01/2020").unwrap(),
        String::new(),
        String::new(),
    );
    let sorted = sort_by_end_date(vec![early_start, late_start]);
    assert_eq!(companies(&sorted), vec!["early start", "late start"]);
}

#[test]
fn sorts_none_and_one() {
    assert!(sort_by_end_date(Vec::new()).is_empty());
    let one = sort_by_end_date(vec![entry("only", "05/05/2020")]);
    assert_eq!(companies(&one), vec!["only"]);
}

#[test]
fn keeps_every_field_of_an_entry() {
    let sorted = sort_by_end_date(vec![entry("a", "05/05/2020"), entry("b", "05/05/2021")]);
    let last = &sorted[1];
    assert_eq!(last.company(), "a");
    assert_eq!(last.position(), "Position");
    assert_eq!(last.start_date(), parse_date("01/01/2000").unwrap());
    assert_eq!(last.end_date(), parse_date("05/05/2020").unwrap());
    assert_eq!(last.location(), "Somewhere");
    assert_eq!(last.responsibilities(), "Work");
}
