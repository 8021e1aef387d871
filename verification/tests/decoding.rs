use work_history::date::parse_date;
use work_history::decoder::{decode_row, decode_rows, DateRole, DecodeError, REQUIRED_FIELDS};
use work_history::entry::WorkHistoryEntry;

fn row(fields: &[&str]) -> Vec<String> {
    fields.iter().map(|f| f.to_string()).collect()
}

fn full_row() -> Vec<String> {
    row(&[
        "Acme Corp",
        "Engineer",
        "01/15/2018",
        "06/30/2021",
        "123 Main St, Springfield, IL 62704",
        "Jane Doe",
        "Built things, fixed things.\nShipped them.",
        "Moved on",
    ])
}

fn fields_of(entry: &WorkHistoryEntry) -> (String, String, (i32, u32, u32), (i32, u32, u32), String, String) {
    let start = entry.start_date();
    let end = entry.end_date();
    (
        entry.company().to_string(),
        entry.position().to_string(),
        (start.year(), start.month(), start.day()),
        (end.year(), end.month(), end.day()),
        entry.location().to_string(),
        entry.responsibilities().to_string(),
    )
}

#[test]
fn decodes_the_fields_by_position() {
    let entry = decode_row(&full_row(), 1).unwrap();
    assert_eq!(entry.company(), "Acme Corp");
    assert_eq!(entry.position(), "Engineer");
    assert_eq!(entry.start_date(), parse_date("01/15/2018").unwrap());
    assert_eq!(entry.end_date(), parse_date("06/30/2021").unwrap());
    assert_eq!(entry.location(), "Springfield, IL");
    assert_eq!(entry.responsibilities(), "Built things, fixed things.\nShipped them.");
}

#[test]
fn decodes_a_row_of_exactly_seven_fields() {
    let fields = row(&["Acme", "", "01/15/2018", "06/30/2021", "Remote", "", "Did work"]);
    assert_eq!(fields.len(), REQUIRED_FIELDS);
    let entry = decode_row(&fields, 4).unwrap();
    assert_eq!(entry.company(), "Acme");
    assert_eq!(entry.position(), "");
    assert_eq!(entry.location(), "Remote");
    assert_eq!(entry.responsibilities(), "Did work");
}

#[test]
fn copies_empty_company_and_responsibilities() {
    let fields = row(&["", "", "01/15/2018", "06/30/2021", "", "", ""]);
    let entry = decode_row(&fields, 1).unwrap();
    assert_eq!(
        fields_of(&entry),
        (String::new(), String::new(), (2018, 1, 15), (2021, 6, 30), String::new(), String::new())
    );
}

#[test]
fn does_not_read_the_supervisor_or_what_follows_the_description() {
    let mut one = full_row();
    let mut other = full_row();
    one[5] = "Someone".to_string();
    other[5] = "Someone else".to_string();
    one[7] = "A reason".to_string();
    other.push("one more field".to_string());
    let a = decode_row(&one, 1).unwrap();
    let b = decode_row(&other, 1).unwrap();
    assert_eq!(fields_of(&a), fields_of(&b));
}

#[test]
fn accepts_an_end_date_before_the_start_date() {
    let fields = row(&["Acme", "Dev", "06/30/2021", "01/15/2018", "Remote", "", ""]);
    let entry = decode_row(&fields, 1).unwrap();
    assert!(entry.start_date().is_after(&entry.end_date()));
}

#[test]
fn decoding_the_same_row_twice_gives_the_same_entry() {
    let first = decode_row(&full_row(), 1).unwrap();
    let second = decode_row(&full_row(), 1).unwrap();
    assert_eq!(fields_of(&first), fields_of(&second));
    assert_eq!(
        fields_of(&first),
        (
            "Acme Corp".to_string(),
            "Engineer".to_string(),
            (2018, 1, 15),
            (2021, 6, 30),
            "Springfield, IL".to_string(),
            "Built things, fixed things.\nShipped them.".to_string(),
        )
    );
}

#[test]
fn rejects_a_row_of_five_fields_and_names_its_position() {
    let fields = row(&["Acme", "Dev", "01/15/2018", "06/30/2021", "Remote"]);
    match decode_row(&fields, 3) {
        Err(DecodeError::MalformedRecord { row }) => assert_eq!(row, 3),
        other => panic!("unexpected result: {:?}", other),
    }
}

#[test]
fn rejects_rows_of_six_or_no_fields() {
    let six = row(&["Acme", "Dev", "01/15/2018", "06/30/2021", "Remote", "Boss"]);
    assert!(matches!(decode_row(&six, 1), Err(DecodeError::MalformedRecord { row: 1 })));
    assert!(matches!(decode_row(&Vec::new(), 9), Err(DecodeError::MalformedRecord { row: 9 })));
}

#[test]
fn a_short_row_is_malformed_even_where_its_dates_are_bad() {
    let fields = row(&["Acme", "Dev", "nonsense", "06/30/2021", "Remote"]);
    assert!(matches!(decode_row(&fields, 2), Err(DecodeError::MalformedRecord { row: 2 })));
}

#[test]
fn rejects_a_bad_start_date_with_its_text() {
    let mut fields = full_row();
    fields[2] = "13/40/2020".to_string();
    match decode_row(&fields, 2) {
        Err(DecodeError::DateFormat { row, role, text }) => {
            assert_eq!(row, 2);
            assert_eq!(role, DateRole::Start);
            assert_eq!(text, "13/40/2020");
        },
        other => panic!("unexpected result: {:?}", other),
    }
}

#[test]
fn rejects_a_bad_end_date_with_its_text() {
    let mut fields = full_row();
    fields[3] = "Present".to_string();
    match decode_row(&fields, 7) {
        Err(DecodeError::DateFormat { row, role, text }) => {
            assert_eq!(row, 7);
            assert_eq!(role, DateRole::End);
            assert_eq!(text, "Present");
        },
        other => panic!("unexpected result: {:?}", other),
    }
}

#[test]
fn reports_the_start_date_where_both_dates_are_bad() {
    let mut fields = full_row();
    fields[2] = "soon".to_string();
    fields[3] = "later".to_string();
    match decode_row(&fields, 1) {
        Err(DecodeError::DateFormat { role, text, .. }) => {
            assert_eq!(role, DateRole::Start);
            assert_eq!(text, "soon");
        },
        other => panic!("unexpected result: {:?}", other),
    }
}

#[test]
fn decodes_all_rows_in_source_order() {
    let mut second = full_row();
    second[0] = "Globex".to_string();
    let mut third = full_row();
    third[0] = "Initech".to_string();
    let entries = decode_rows(&vec![full_row(), second, third]).unwrap();
    let companies: Vec<&str> = entries.iter().map(|e| e.company()).collect();
    assert_eq!(companies, vec!["Acme Corp", "Globex", "Initech"]);
}

#[test]
fn decodes_an_empty_table_to_no_entries() {
    assert!(decode_rows(&Vec::new()).unwrap().is_empty());
}

#[test]
fn stops_at_the_first_row_that_fails() {
    let mut bad_date = full_row();
    bad_date[3] = "06/31/2021".to_string();
    let short = row(&["Acme", "Dev"]);
    let rows = vec![full_row(), bad_date, short];
    match decode_rows(&rows) {
        Err(DecodeError::DateFormat { row, role, text }) => {
            assert_eq!(row, 2);
            assert_eq!(role, DateRole::End);
            assert_eq!(text, "06/31/2021");
        },
        other => panic!("unexpected result: {:?}", other),
    }
}

#[test]
fn counts_rows_from_one() {
    let short = row(&["Acme", "Dev"]);
    assert!(matches!(
        decode_rows(&vec![short.clone()]),
        Err(DecodeError::MalformedRecord { row: 1 })
    ));
    assert!(matches!(
        decode_rows(&vec![full_row(), full_row(), full_row(), short]),
        Err(DecodeError::MalformedRecord { row: 4 })
    ));
}

#[test]
fn describes_a_malformed_row() {
    let error = DecodeError::MalformedRecord { row: 12 };
    assert_eq!(error.message(), "Row 12: expected at least 7 fields");
}

#[test]
fn describes_a_bad_date() {
    let start = DecodeError::DateFormat {
        row: 2,
        role: DateRole::Start,
        text: "13/40/2020".to_string(),
    };
    assert_eq!(start.message(), "Row 2: failed to parse start date: 13/40/2020");
    let end = DecodeError::DateFormat { row: 105, role: DateRole::End, text: String::new() };
    assert_eq!(end.message(), "Row 105: failed to parse end date: ");
}
