use diane::calendar::{Date, Time};
use diane::entry::{Note, Record};
use diane::stream::{
    archive_entry, archive_file_name, journal_day, journal_entry_text, journal_file_name,
    records_from_lines,
};

fn date(year: i32, month: u32, day: u32) -> Date {
    Date { year, month, day }
}

fn record(hour: u32, minute: u32, second: u32, text: &str) -> Record {
    Record { at: Time { hour, minute, second }, text: text.to_string() }
}

fn lines(text: &str) -> Vec<String> {
    text.lines().map(|l| l.to_string()).collect()
}

#[test]
fn file_names() {
    assert_eq!(journal_file_name(&date(2024, 2, 29)), "2024-02-29.md");
    assert_eq!(journal_file_name(&date(987, 12, 1)), "0987-12-01.md");
    assert_eq!(archive_file_name("road-trip"), "road-trip.md");
}

#[test]
fn journal_text_for_a_new_file() {
    let rs = vec![record(9, 5, 42, "  coffee "), record(13, 0, 0, "lunch")];
    assert_eq!(
        journal_entry_text(&date(2024, 3, 1), &rs, true),
        "# 2024-03-01\n\n- 09:05 coffee\n- 13:00 lunch\n"
    );
    assert_eq!(journal_entry_text(&date(2024, 3, 1), &rs, false), "- 09:05 coffee\n- 13:00 lunch\n");
    assert_eq!(journal_entry_text(&date(2024, 3, 1), &vec![], true), "# 2024-03-01\n\n");
}

#[test]
fn journal_reads_back_what_it_writes() {
    let first = vec![record(9, 5, 42, "  coffee "), record(13, 0, 0, "lunch")];
    let later = vec![record(18, 30, 1, "walk\t")];
    let mut file = journal_entry_text(&date(2024, 3, 1), &first, true);
    file.push_str(&journal_entry_text(&date(2024, 3, 1), &later, false));
    let back = records_from_lines(&lines(&file));
    let got: Vec<(Time, String)> = back.iter().map(|r| (r.at, r.text.clone())).collect();
    assert_eq!(
        got,
        vec![
            (Time { hour: 9, minute: 5, second: 0 }, "coffee".to_string()),
            (Time { hour: 13, minute: 0, second: 0 }, "lunch".to_string()),
            (Time { hour: 18, minute: 30, second: 0 }, "walk".to_string()),
        ]
    );
}

#[test]
fn records_from_lines_skips_other_lines() {
    let back = records_from_lines(&lines("# 2024-03-01\n\n- 07:00 up\nnot a record\n- 99:00 bad\n"));
    assert_eq!(back.len(), 1);
    assert_eq!(back[0].text, "up");
}

#[test]
fn journal_day_reads_date_from_name() {
    let (d, day) = journal_day("2024-03-01", &lines("# 2024-03-01\n\n- 07:00 up\n")).unwrap();
    assert_eq!(d, date(2024, 3, 1));
    assert_eq!(day.records.len(), 1);
    assert!(journal_day("notes", &vec![]).is_none());
    assert!(journal_day("2023-02-29", &vec![]).is_none());
}

#[test]
fn archive_entry_of_valid_note() {
    let d = date(2022, 8, 9);
    let note = Note::new_on("Reading List".into(), "- a book".into(), Some(d), d).unwrap();
    let (name, text) = archive_entry(&note).unwrap();
    assert_eq!(name, "reading-list.md");
    assert_eq!(text, note.to_text());
    let mut bad = note;
    bad.title = String::new();
    assert!(archive_entry(&bad).is_none());
}
