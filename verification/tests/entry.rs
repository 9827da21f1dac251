use diane::calendar::{Date, Time};
use diane::entry::{slugify, Note, NoteFailure, Record};

fn sample() -> Note {
    Note::new("Kafka setup".into(), "body".into(), None).unwrap()
}

#[test]
fn new_derives_slug_from_title() {
    assert_eq!(sample().slug, "kafka-setup");
}

#[test]
fn slug_lowercases_and_hyphenates() {
    assert_eq!(slugify("DSP / FFT notes"), "dsp-fft-notes");
}

#[test]
fn new_uses_given_created_date() {
    let d = Date { year: 2020, month: 1, day: 2 };
    let note = Note::new("x".into(), String::new(), Some(d)).unwrap();
    assert_eq!(note.created, d);
}

#[test]
fn note_roundtrips_through_text() {
    let note = sample();
    let back = Note::try_from(note.to_text()).unwrap();
    assert_eq!(back.title, note.title);
    assert_eq!(back.slug, note.slug);
    assert_eq!(back.created, note.created);
    assert_eq!(back.updated, note.updated);
    assert_eq!(back.body.trim(), note.body);
}

#[test]
fn record_parses_time_and_text() {
    let r = Record::try_from("-  09:30   shipped the parser  ".to_string()).unwrap();
    assert_eq!(r.at, Time { hour: 9, minute: 30, second: 0 });
    assert_eq!(r.text, "shipped the parser");
}

#[test]
fn record_rejects_non_record_lines() {
    assert!(Record::try_from("# 2026-08-29".to_string()).is_err());
    assert!(Record::try_from("- 25:00 bad hour".to_string()).is_err());
}

#[test]
fn new_on_fixes_both_dates() {
    let today = Date { year: 2024, month: 2, day: 29 };
    let note = Note::new_on("Plan".into(), "b".into(), None, today).unwrap();
    assert_eq!(note.created, today);
    assert_eq!(note.updated, today);
    assert_eq!(note.slug, "plan");
}

#[test]
fn new_rejects_empty_title() {
    let err = Note::new(String::new(), "b".into(), None).err().unwrap();
    assert_eq!(err, "Missing title.");
}

#[test]
fn note_text_has_front_matter() {
    let d = Date { year: 2021, month: 3, day: 4 };
    let note = Note::new_on("Hello".into(), "line".into(), Some(d), Date { year: 2021, month: 3, day: 5 }).unwrap();
    assert_eq!(
        note.to_text(),
        "---\ntitle: Hello\ncreated: 2021-03-04\nupdated: 2021-03-05\ntags: todo\n---\n\nline"
    );
}

#[test]
fn note_parse_reads_fields() {
    let text = "---\ntitle: Deep Work\ncreated: 2022-01-31\nupdated: 2022-02-01\nother: x\n---\nbody here";
    let n = Note::try_from(text.to_string()).unwrap();
    assert_eq!(n.title, "Deep Work");
    assert_eq!(n.slug, "deep-work");
    assert_eq!(n.created, Date { year: 2022, month: 1, day: 31 });
    assert_eq!(n.updated, Date { year: 2022, month: 2, day: 1 });
    assert_eq!(n.body, "body here");
}

#[test]
fn note_parse_later_title_wins() {
    let text = "---\ntitle: one\ntitle: two\ncreated: 2022-01-01\nupdated: 2022-01-01\n---\n";
    let n = Note::try_from(text.to_string()).unwrap();
    assert_eq!(n.title, "two");
    assert_eq!(n.body, "");
}

#[test]
fn note_parse_errors() {
    assert_eq!(Note::try_from("no fence".to_string()).err(), Some("missing formatter"));
    assert_eq!(Note::try_from("---\ntitle: x\n".to_string()).err(), Some("unterminated formatter"));
    assert_eq!(
        Note::try_from("---\ncreated: 2022-13-01\n---\n".to_string()).err(),
        Some("bad created date")
    );
    assert_eq!(
        Note::try_from("---\nupdated: 2022-02-30\n---\n".to_string()).err(),
        Some("bad updated date")
    );
    assert_eq!(
        Note::try_from("---\ncreated: 2022-01-01\n---\n".to_string()).err(),
        Some("missing title")
    );
    assert_eq!(
        Note::try_from("---\ntitle: t\nupdated: 2022-01-01\n---\n".to_string()).err(),
        Some("missing created")
    );
    assert_eq!(
        Note::try_from("---\ntitle: t\ncreated: 2022-01-01\n---\n".to_string()).err(),
        Some("missing updated")
    );
}

#[test]
fn note_failure_messages() {
    assert_eq!(NoteFailure::MissingFormatter.message(), "missing formatter");
    assert_eq!(NoteFailure::MissingUpdated.message(), "missing updated");
}

#[test]
fn note_validity() {
    let mut n = sample();
    assert!(n.is_valid());
    n.slug = String::new();
    assert!(!n.is_valid());
}

#[test]
fn record_parse_edges() {
    let r = Record::parse("-09:05").unwrap();
    assert_eq!(r.at, Time { hour: 9, minute: 5, second: 0 });
    assert_eq!(r.text, "");
    assert!(Record::parse("- 9:05 short hour").is_err());
    assert!(Record::parse("- 12:60 bad minute").is_err());
    assert!(Record::parse("* 12:00 not a dash").is_err());
    assert_eq!(Record::parse("- 23:59\tlate ").unwrap().text, "late");
}

#[test]
fn slugify_edges() {
    assert_eq!(slugify(""), "");
    assert_eq!(slugify(" / "), "");
    assert_eq!(slugify("a-b  c").split('-').collect::<Vec<_>>(), vec!["a", "b", "c"]);
    assert_eq!(slugify("--Hello,  World!--"), "hello-world");
    assert_eq!(slugify("Ünïcode Straße"), "ünïcode-straße");
}
