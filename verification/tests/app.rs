use diane::app::{update, Action, App, Focus, Mode, Window};
use diane::calendar::{Date, Time};
use diane::config::Config;
use diane::entry::{Day, Note, Record};
use diane::ui::{Key, KeyCode, NO_MODIFIERS, SHIFT};

fn config() -> Config {
    Config { diane_root: std::path::PathBuf::from("/tmp/diane-test"), theme: String::new() }
}

fn date(year: i32, month: u32, day: u32) -> Date {
    Date { year, month, day }
}

fn at(hour: u32, minute: u32) -> Time {
    Time { hour, minute, second: 0 }
}

fn key(code: KeyCode) -> Key {
    Key { code, modifiers: NO_MODIFIERS }
}

fn library(app: &App) -> (Date, usize, Mode, Focus, usize, usize, usize) {
    match &app.pane {
        Some(Window::Library {
            selected_entry,
            selected_note,
            mode,
            focus,
            archive_scroll,
            journal_scroll,
            content_scroll,
        }) => (
            *selected_entry,
            *selected_note,
            *mode,
            *focus,
            *archive_scroll,
            *journal_scroll,
            *content_scroll,
        ),
        _ => panic!("no library window"),
    }
}

fn day(records: &[(Time, &str)]) -> Day {
    Day { records: records.iter().map(|(t, s)| Record { at: *t, text: s.to_string() }).collect() }
}

fn texts(app: &App, d: Date) -> Vec<String> {
    app.days
        .iter()
        .find(|(x, _)| *x == d)
        .map(|(_, day)| day.records.iter().map(|r| r.text.clone()).collect())
        .unwrap_or_default()
}

fn note(title: &str, created: Date) -> Note {
    Note::new_on(title.to_string(), "body".to_string(), Some(created), created).unwrap()
}

#[test]
fn new_opens_journal_list() {
    let app = App::new_on(&config(), date(2024, 5, 6));
    assert_eq!(library(&app), (date(2024, 5, 6), 0, Mode::Journal, Focus::Sidepane, 0, 0, 0));
    assert!(app.days.is_empty());
    assert!(!app.should_quit);
}

#[test]
fn toggle_mode_twice_returns() {
    let mut app = App::new_on(&config(), date(2024, 5, 6));
    let before = library(&app);
    app.update_at(Action::ToggleMode, date(2024, 5, 6), at(1, 0));
    assert_eq!(library(&app).2, Mode::Archive);
    app.update_at(Action::ToggleMode, date(2024, 5, 6), at(1, 0));
    assert_eq!(library(&app), before);
}

#[test]
fn leaving_content_resets_its_scroll() {
    let mut app = App::new_on(&config(), date(2024, 5, 6));
    update(&mut app, Action::ToggleFocus);
    update(&mut app, Action::ScrollbarNext);
    update(&mut app, Action::ScrollbarNext);
    assert_eq!(library(&app).6, 2);
    update(&mut app, Action::ToggleFocus);
    assert_eq!(library(&app).3, Focus::Sidepane);
    assert_eq!(library(&app).6, 0);
}

#[test]
fn scroll_down_then_up() {
    let mut app = App::new_on(&config(), date(2024, 5, 6));
    let before = library(&app);
    update(&mut app, Action::ScrollbarNext);
    assert_eq!(library(&app).5, 1);
    update(&mut app, Action::ScrollbarPrevious);
    assert_eq!(library(&app), before);
    update(&mut app, Action::ScrollbarPrevious);
    assert_eq!(library(&app), before);
}

#[test]
fn journal_navigation_moves_between_days() {
    let mut app = App::new_on(&config(), date(2024, 5, 6));
    app.retrieve_journal(vec![
        (date(2024, 5, 1), day(&[(at(9, 0), "a")])),
        (date(2024, 5, 3), day(&[(at(9, 0), "b")])),
        (date(2024, 5, 6), day(&[(at(9, 0), "c")])),
    ]);
    assert_eq!(library(&app).0, date(2024, 5, 6));
    update(&mut app, Action::PreviousJournalEntry);
    assert_eq!(library(&app).0, date(2024, 5, 3));
    assert_eq!(library(&app).5, 1);
    update(&mut app, Action::PreviousJournalEntry);
    assert_eq!(library(&app).0, date(2024, 5, 1));
    update(&mut app, Action::PreviousJournalEntry);
    assert_eq!(library(&app).0, date(2024, 5, 1));
    assert_eq!(library(&app).5, 2);
    update(&mut app, Action::NextJournalEntry);
    assert_eq!(library(&app).0, date(2024, 5, 3));
    assert_eq!(library(&app).5, 1);
    update(&mut app, Action::NextJournalEntry);
    update(&mut app, Action::NextJournalEntry);
    assert_eq!(library(&app).0, date(2024, 5, 6));
}

#[test]
fn archive_navigation_stays_in_range() {
    let mut app = App::new_on(&config(), date(2024, 5, 6));
    update(&mut app, Action::NextArchiveNote);
    assert_eq!(library(&app).1, 0);
    app.retrieve_archive(vec![note("one", date(2024, 1, 1)), note("two", date(2024, 1, 2))]);
    assert_eq!(library(&app).1, 1);
    update(&mut app, Action::NextArchiveNote);
    assert_eq!(library(&app).1, 1);
    update(&mut app, Action::PreviousArchiveNote);
    assert_eq!(library(&app).1, 0);
    assert_eq!(library(&app).4, 1);
    update(&mut app, Action::PreviousArchiveNote);
    assert_eq!(library(&app).1, 0);
    assert_eq!(library(&app).4, 2);
}

#[test]
fn typing_then_erasing_restores_text() {
    let mut app = App::new_on(&config(), date(2024, 5, 6));
    app.pane = Some(Window::Capture { text: "ab".to_string(), character_index: 2 });
    update(&mut app, Action::InsertChar('é'));
    match &app.pane {
        Some(Window::Capture { text, character_index }) => {
            assert_eq!(text, "abé");
            assert_eq!(*character_index, 3);
        }
        _ => panic!("no capture window"),
    }
    update(&mut app, Action::Backspace);
    match &app.pane {
        Some(Window::Capture { text, character_index }) => {
            assert_eq!(text, "ab");
            assert_eq!(*character_index, 2);
        }
        _ => panic!("no capture window"),
    }
}

#[test]
fn backspace_on_empty_capture() {
    let mut app = App::new_on(&config(), date(2024, 5, 6));
    app.pane = Some(Window::Capture { text: String::new(), character_index: 0 });
    assert!(!update(&mut app, Action::Backspace));
    match &app.pane {
        Some(Window::Capture { text, character_index }) => {
            assert_eq!(text, "");
            assert_eq!(*character_index, 0);
        }
        _ => panic!("no capture window"),
    }
}

#[test]
fn commit_capture_records_trimmed_text() {
    let mut app = App::new_on(&config(), date(2024, 5, 6));
    app.pane = Some(Window::Capture { text: "  wrote tests \n".to_string(), character_index: 3 });
    let flush = app.update_at(Action::CommitCapture, date(2024, 5, 6), at(10, 15));
    assert!(flush);
    assert!(app.should_quit);
    assert_eq!(app.days.len(), 1);
    assert_eq!(app.days[0].0, date(2024, 5, 6));
    assert_eq!(app.days[0].1.records[0].text, "wrote tests");
    assert_eq!(app.days[0].1.records[0].at, at(10, 15));
}

#[test]
fn commit_capture_of_blank_text_records_nothing() {
    let mut app = App::new_on(&config(), date(2024, 5, 6));
    app.pane = Some(Window::Capture { text: " \t ".to_string(), character_index: 3 });
    assert!(app.update_at(Action::CommitCapture, date(2024, 5, 6), at(10, 15)));
    assert!(app.days.is_empty());
    assert!(app.should_quit);
}

#[test]
fn cancel_asks_to_quit() {
    let mut app = App::new_on(&config(), date(2024, 5, 6));
    assert!(!update(&mut app, Action::Cancel));
    assert!(app.should_quit);
}

#[test]
fn recording_then_reading_a_day() {
    let mut app = App::new_on(&config(), date(2024, 5, 6));
    app.push_record_at("second".to_string(), date(2024, 5, 6), at(9, 0));
    app.push_record_at("first".to_string(), date(2024, 5, 2), at(8, 0));
    app.push_record_at("third".to_string(), date(2024, 5, 6), at(11, 0));
    assert_eq!(app.days.iter().map(|(d, _)| *d).collect::<Vec<_>>(), vec![date(2024, 5, 2), date(2024, 5, 6)]);
    assert_eq!(texts(&app, date(2024, 5, 6)), vec!["second", "third"]);
    assert_eq!(texts(&app, date(2024, 5, 2)), vec!["first"]);
}

#[test]
fn push_record_keeps_text_as_given() {
    let mut app = App::new_on(&config(), date(2024, 5, 6));
    app.push_record(" untrimmed ".to_string());
    assert_eq!(app.days.len(), 1);
    assert_eq!(app.days[0].1.records[0].text, " untrimmed ");
}

#[test]
fn retrieve_journal_orders_days_and_keeps_last_duplicate() {
    let mut app = App::new_on(&config(), date(2024, 5, 4));
    app.retrieve_journal(vec![
        (date(2024, 5, 6), day(&[(at(9, 0), "late")])),
        (date(2024, 5, 1), day(&[(at(9, 0), "old")])),
        (date(2024, 5, 3), day(&[(at(9, 0), "first copy")])),
        (date(2024, 5, 3), day(&[(at(9, 0), "second copy")])),
    ]);
    assert_eq!(
        app.days.iter().map(|(d, _)| *d).collect::<Vec<_>>(),
        vec![date(2024, 5, 1), date(2024, 5, 3), date(2024, 5, 6)]
    );
    assert_eq!(texts(&app, date(2024, 5, 3)), vec!["second copy"]);
    assert_eq!(library(&app).0, date(2024, 5, 3));
}

#[test]
fn retrieve_journal_keeps_selection_without_earlier_day() {
    let mut app = App::new_on(&config(), date(2024, 1, 1));
    app.retrieve_journal(vec![(date(2024, 5, 6), day(&[]))]);
    assert_eq!(library(&app).0, date(2024, 1, 1));
}

#[test]
fn retrieve_archive_selects_last_note() {
    let mut app = App::new_on(&config(), date(2024, 1, 1));
    app.retrieve_archive(vec![]);
    assert_eq!(library(&app).1, 0);
    app.retrieve_archive(vec![note("a", date(2024, 1, 1)), note("b", date(2024, 1, 1)), note("c", date(2024, 1, 1))]);
    assert_eq!(library(&app).1, 2);
    assert_eq!(app.notes.len(), 3);
}

#[test]
fn today_mut_makes_the_day_and_writes_through() {
    let mut app = App::new_on(&config(), date(2024, 5, 6));
    app.push_record_at("x".to_string(), date(2024, 5, 2), at(8, 0));
    {
        let today = app.today_mut_at(date(2024, 5, 6));
        assert!(today.records.is_empty());
        today.records.push(Record { at: at(12, 0), text: "lunch".to_string() });
    }
    assert_eq!(texts(&app, date(2024, 5, 6)), vec!["lunch"]);
    {
        let today = app.today_mut_at(date(2024, 5, 6));
        assert_eq!(today.records.len(), 1);
        today.records.clear();
    }
    assert_eq!(app.days.len(), 2);
    assert!(texts(&app, date(2024, 5, 6)).is_empty());
}

#[test]
fn save_current_note_touches_and_renders() {
    let mut app = App::new_on(&config(), date(2024, 5, 6));
    assert_eq!(app.save_current_note_at(date(2024, 5, 6)), None);
    app.retrieve_archive(vec![note("Road Trip", date(2023, 7, 1))]);
    let (name, text) = app.save_current_note_at(date(2024, 5, 6)).unwrap();
    assert_eq!(name, "road-trip.md");
    assert_eq!(
        text,
        "---\ntitle: Road Trip\ncreated: 2023-07-01\nupdated: 2024-05-06\ntags: todo\n---\n\nbody"
    );
    assert_eq!(app.notes[0].updated, date(2024, 5, 6));
    app.notes[0].slug = String::new();
    assert_eq!(app.save_current_note_at(date(2024, 5, 7)), None);
    assert_eq!(app.notes[0].updated, date(2024, 5, 7));
}

#[test]
fn keys_follow_the_window() {
    let mut app = App::new_on(&config(), date(2024, 5, 6));
    assert_eq!(app.to_action(key(KeyCode::Char('j'))), Some(Action::PreviousJournalEntry));
    assert_eq!(
        app.to_action(Key { code: KeyCode::Char('J'), modifiers: SHIFT }),
        Some(Action::ToggleMode)
    );
    update(&mut app, Action::ToggleMode);
    assert_eq!(app.to_action(key(KeyCode::Char('j'))), Some(Action::PreviousArchiveNote));
    update(&mut app, Action::ToggleFocus);
    assert_eq!(app.to_action(key(KeyCode::Char('j'))), Some(Action::ScrollbarNext));
    app.pane = Some(Window::Capture { text: String::new(), character_index: 0 });
    assert_eq!(app.to_action(key(KeyCode::Char('j'))), Some(Action::InsertChar('j')));
    app.pane = None;
    assert_eq!(app.to_action(key(KeyCode::Esc)), None);
}

#[test]
fn selected_note_can_be_changed_in_place() {
    let mut app = App::new_on(&config(), date(2024, 5, 6));
    assert!(app.selected_note_mut().is_none());
    app.retrieve_archive(vec![note("a", date(2024, 1, 1)), note("b", date(2024, 1, 1))]);
    app.note_cursor = 1;
    app.selected_note_mut().unwrap().body = "changed".to_string();
    assert_eq!(app.notes[1].body, "changed");
    assert_eq!(app.notes[0].body, "body");
    app.note_cursor = 2;
    assert!(app.selected_note_mut().is_none());
}

#[test]
fn can_update_guards_counters() {
    let mut app = App::new_on(&config(), date(2024, 5, 6));
    assert!(app.can_update(Action::ScrollbarNext));
    app.pane = Some(Window::Library {
        selected_entry: date(2024, 5, 6),
        selected_note: usize::MAX,
        mode: Mode::Archive,
        focus: Focus::Sidepane,
        archive_scroll: usize::MAX,
        journal_scroll: usize::MAX,
        content_scroll: 0,
    });
    assert!(!app.can_update(Action::ScrollbarNext));
    assert!(!app.can_update(Action::NextArchiveNote));
    assert!(!app.can_update(Action::PreviousArchiveNote));
    assert!(app.can_update(Action::PreviousJournalEntry));
    app.push_record_at("x".to_string(), date(2024, 5, 1), at(1, 0));
    assert!(!app.can_update(Action::PreviousJournalEntry));
    assert!(app.can_update(Action::NextJournalEntry));
    app.pane = Some(Window::Capture { text: String::new(), character_index: u16::MAX });
    assert!(!app.can_update(Action::InsertChar('a')));
    assert!(app.can_update(Action::Backspace));
    app.pane = None;
    assert!(app.can_update(Action::InsertChar('a')));
}

#[test]
fn commit_capture_on_the_clock() {
    let mut app = App::new(&config());
    app.pane = Some(Window::Capture { text: " call mom ".to_string(), character_index: 0 });
    app.commit_capture();
    assert_eq!(app.days.len(), 1);
    assert!(app.days[0].0.is_valid());
    assert_eq!(app.days[0].1.records[0].text, "call mom");
    assert!(app.days[0].1.records[0].at.is_valid());
    assert!(!app.should_quit);
}
