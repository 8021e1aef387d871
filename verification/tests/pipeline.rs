use work_history::decoder::{DateRole, DecodeError};
use work_history::report::{process_work_history, report_from_rows, ReportError};

const HEADER: &str = "Company,Job Title,Start Date,End Date,Address,Supervisor Name,Description,Reason\n";

fn table(rows: &[&str]) -> Vec<u8> {
    let mut text = String::from(HEADER);
    for row in rows {
        text.push_str(row);
        text.push('\n');
    }
    text.into_bytes()
}

fn block(number: usize, company: &str, position: &str, start: &str, end: &str, location: &str, work: &str) -> String {
    format!(
        "Work History {}\nCompany: {}\nPosition: {}\nStart Date: {}\nEnd Date: {}\nLocation: {}\nResponsibilities: {}\n\n",
        number, company, position, start, end, location, work
    )
}

#[test]
fn three_rows_give_three_blocks_most_recent_first() {
    let data = table(&[
        "Acme,Engineer,01/15/2015,06/30/2018,\"1 Main St, Springfield, IL 62704\",Ann,Built things,Left",
        "Globex,Manager,07/01/2021,03/31/2024,\"Austin, TX\",Bob,Led a team,Moved",
        "Initech,Analyst,07/01/2018,06/30/2021,Remote,Cid,Wrote reports,Bored",
    ]);
    let report = process_work_history(&data).unwrap();
    let expected = [
        block(1, "Globex", "Manager", "07/2021", "03/2024", "Austin, TX", "Led a team"),
        block(2, "Initech", "Analyst", "07/2018", "06/2021", "Remote", "Wrote reports"),
        block(3, "Acme", "Engineer", "01/2015", "06/2018", "Springfield, IL", "Built things"),
    ]
    .concat();
    assert_eq!(report, expected);
    assert_eq!(report.matches("Work History ").count(), 3);
    assert!(report.ends_with("Responsibilities: Built things\n\n"));
}

#[test]
fn the_header_is_never_decoded() {
    let report = process_work_history(HEADER.as_bytes()).unwrap();
    assert_eq!(report, "");
    let one = process_work_history(&table(&["Acme,Dev,01/15/2015,06/30/2018,Remote,,Work,"])).unwrap();
    assert_eq!(one, block(1, "Acme", "Dev", "01/2015", "06/2018", "Remote", "Work"));
}

#[test]
fn empty_input_gives_an_empty_report() {
    assert_eq!(process_work_history(b"").unwrap(), "");
}

#[test]
fn quoted_fields_keep_commas_quotes_and_line_feeds() {
    let data = table(&[
        "\"Acme, Inc.\",\"Senior \"\"Fixer\"\"\",01/15/2015,06/30/2018,\"1 Main St, Springfield, IL\",,\"First line,\nsecond line\",",
    ]);
    let report = process_work_history(&data).unwrap();
    assert_eq!(
        report,
        block(
            1,
            "Acme, Inc.",
            "Senior \"Fixer\"",
            "01/2015",
            "06/2018",
            "Springfield, IL",
            "First line,\nsecond line"
        )
    );
}

#[test]
fn rows_may_have_seven_or_more_than_eight_fields() {
    let data = table(&[
        "Acme,Dev,01/15/2015,06/30/2018,Remote,Boss,Seven fields",
        "Globex,Dev,01/15/2019,06/30/2020,Remote,Boss,Nine fields,Reason,Extra",
    ]);
    let report = process_work_history(&data).unwrap();
    assert_eq!(
        report,
        [
            block(1, "Globex", "Dev", "01/2019", "06/2020", "Remote", "Nine fields"),
            block(2, "Acme", "Dev", "01/2015", "06/2018", "Remote", "Seven fields"),
        ]
        .concat()
    );
}

#[test]
fn equal_end_dates_stay_in_file_order() {
    let data = table(&[
        "First,Dev,01/01/2019,01/01/2020,Remote,,a,",
        "Second,Dev,01/01/2021,06/15/2022,Remote,,b,",
        "Third,Dev,01/01/2018,01/01/2020,Remote,,c,",
    ]);
    let report = process_work_history(&data).unwrap();
    let companies: Vec<&str> = report.lines().filter(|l| l.starts_with("Company: ")).collect();
    assert_eq!(companies, vec!["Company: Second", "Company: First", "Company: Third"]);
}

#[test]
fn a_row_of_five_fields_stops_the_run() {
    let data = table(&[
        "Acme,Dev,01/15/2015,06/30/2018,Remote,Boss,Work,",
        "Globex,Dev,01/15/2019,06/30/2020,Remote",
        "Initech,Dev,01/15/2021,06/30/2022,Remote,Boss,Work,",
    ]);
    match process_work_history(&data) {
        Err(ReportError::Row(DecodeError::MalformedRecord { row })) => assert_eq!(row, 2),
        other => panic!("unexpected result: {:?}", other),
    }
}

#[test]
fn a_bad_start_date_stops_the_run() {
    let data = table(&["Acme,Dev,13/40/2020,06/30/2021,Remote,Boss,Work,"]);
    match process_work_history(&data) {
        Err(ReportError::Row(DecodeError::DateFormat { row, role, text })) => {
            assert_eq!(row, 1);
            assert_eq!(role, DateRole::Start);
            assert_eq!(text, "13/40/2020");
        },
        other => panic!("unexpected result: {:?}", other),
    }
}

#[test]
fn dates_in_other_layouts_are_refused() {
    for bad in ["1/5/2020", "2020-01-05", "01/05/20", " 01/05/2020", "01/05/2020 "] {
        let line = format!("Acme,Dev,01/15/2015,\"{}\",Remote,Boss,Work,", bad);
        match process_work_history(&table(&[line.as_str()])) {
            Err(ReportError::Row(DecodeError::DateFormat { row, role, text })) => {
                assert_eq!(row, 1);
                assert_eq!(role, DateRole::End);
                assert_eq!(text, bad);
            },
            other => panic!("unexpected result: {:?}", other),
        }
    }
}

#[test]
fn the_first_failure_in_file_order_is_reported() {
    let data = table(&[
        "Acme,Dev,01/15/2015,06/30/2018,Remote,Boss,Work,",
        "Globex,Dev,01/15/2019,never,Remote,Boss,Work,",
        "Initech,Dev",
    ]);
    match process_work_history(&data) {
        Err(ReportError::Row(DecodeError::DateFormat { row, role, text })) => {
            assert_eq!(row, 2);
            assert_eq!(role, DateRole::End);
            assert_eq!(text, "never");
        },
        other => panic!("unexpected result: {:?}", other),
    }
}

#[test]
fn bytes_that_are_not_text_cannot_be_read() {
    let mut data = table(&[]);
    data.extend_from_slice(b"Acme,Dev,01/15/2015,06/30/2018,Rem\xffote,Boss,Work,\n");
    match process_work_history(&data) {
        Err(ReportError::UnreadableTable { reason }) => assert!(!reason.is_empty()),
        other => panic!("unexpected result: {:?}", other),
    }
}

#[test]
fn describes_why_there_is_no_report() {
    let unreadable = ReportError::UnreadableTable { reason: "bad bytes".to_string() };
    assert_eq!(unreadable.message(), "Failed to read CSV record: bad bytes");
    let row = ReportError::Row(DecodeError::MalformedRecord { row: 3 });
    assert_eq!(row.message(), "Row 3: expected at least 7 fields");
    let data = table(&["Acme,Dev,13/40/2020,06/30/2021,Remote,Boss,Work,"]);
    let error = process_work_history(&data).unwrap_err();
    assert_eq!(error.message(), "Row 1: failed to parse start date: 13/40/2020");
}

#[test]
fn rows_render_as_the_table_does() {
    let rows: Vec<Vec<String>> = vec![
        vec!["Acme", "Dev", "01/15/2015", "06/30/2018", "Remote", "Boss", "Work"],
        vec!["Globex", "Lead", "07/01/2018", "06/30/2020", "a, b, c d", "Boss", "More work", "Left"],
    ]
    .into_iter()
    .map(|r| r.into_iter().map(String::from).collect())
    .collect();
    let report = report_from_rows(&rows).unwrap();
    assert_eq!(
        report,
        [
            block(1, "Globex", "Lead", "07/2018", "06/2020", "b, c", "More work"),
            block(2, "Acme", "Dev", "01/2015", "06/2018", "Remote", "Work"),
        ]
        .concat()
    );
    let short: Vec<Vec<String>> = vec![vec!["Acme".to_string()]];
    assert!(matches!(report_from_rows(&short), Err(DecodeError::MalformedRecord { row: 1 })));
}
