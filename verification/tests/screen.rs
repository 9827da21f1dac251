use diane::app::{Focus, Mode};
use diane::calendar::{Date, Time};
use diane::entry::{Day, Note, Record};
use diane::screen::{
    capture_cursor, content_choice, content_scrollbar, Content, cut_title, day_rows, library_look, note_rows,
    record_wrap_width, records_title, sidepane_markers, time_label, Gutter, Pane, RECORD_INDENT,
};
use diane::theme::{diane, StyleSpec};

fn date(year: i32, month: u32, day: u32) -> Date {
    Date { year, month, day }
}

fn records(n: usize) -> Day {
    Day {
        records: (0..n)
            .map(|i| Record { at: Time { hour: 9, minute: i as u32, second: 0 }, text: format!("r{i}") })
            .collect(),
    }
}

#[test]
fn library_look_follows_focus() {
    let t = diane();
    let look = library_look(Mode::Journal, Focus::Sidepane, &t);
    assert!(look.journal_focused && !look.archive_focused && !look.content_focused);
    assert_eq!(look.journal_divider, t.divider_focus);
    assert_eq!(look.archive_divider, t.divider);
    assert_eq!(look.content_divider, t.divider);
    assert_eq!(look.drawn, (Pane::ArchiveList, Pane::Content, Pane::JournalList));
    assert_eq!(look.footer, diane::ui::journal_sidepane_instructions());

    let look = library_look(Mode::Archive, Focus::Sidepane, &t);
    assert_eq!(look.drawn, (Pane::JournalList, Pane::Content, Pane::ArchiveList));
    assert_eq!(look.archive_divider, t.divider_focus);

    let look = library_look(Mode::Archive, Focus::Content, &t);
    assert!(look.content_focused && !look.archive_focused);
    assert_eq!(look.drawn, (Pane::JournalList, Pane::ArchiveList, Pane::Content));
    assert_eq!(look.content_divider, t.divider_focus);
    assert_eq!(look.footer, diane::ui::content_instructions());
}

#[test]
fn day_rows_latest_first_with_padding() {
    let t = diane();
    let days = vec![(date(2024, 1, 2), records(3)), (date(2024, 1, 5), records(12))];
    let rows = day_rows(&days, date(2024, 1, 2), true, 20, &t);
    assert_eq!(rows.len(), 2);
    assert_eq!(rows[0].date, "2024-01-05");
    assert_eq!(rows[0].count, "12");
    assert_eq!(rows[0].pad, 20 - 10 - 2 - 3);
    assert_eq!(rows[0].gutter, Gutter::Blank);
    assert_eq!(rows[0].style, StyleSpec { fg: Some(t.text), bg: None, bold: false, italic: false, underlined: false });
    assert_eq!(rows[1].date, "2024-01-02");
    assert_eq!(rows[1].count, "3");
    assert_eq!(rows[1].pad, 6);
    assert_eq!(rows[1].gutter, Gutter::Blank);
    assert_eq!(rows[1].style.bg, Some(t.selected_bg));
    assert!(rows[1].style.bold);
    assert_eq!(rows[1].count_style.fg, Some(t.selected_fg));

    let rows = day_rows(&days, date(2024, 1, 2), false, 10, &t);
    assert_eq!(rows[1].gutter, Gutter::Bar(t.border));
    assert_eq!(rows[1].style.bg, Some(t.selected_bg_dim));
    assert_eq!(rows[1].pad, 0);
}

#[test]
fn titles_are_cut_to_the_list() {
    assert_eq!(cut_title("short", 20), "short");
    assert_eq!(cut_title("exactly", 9), "exactly");
    assert_eq!(cut_title("a long note title", 10), "a lon...");
    assert_eq!(cut_title("abcdef", 2), "...");
    assert_eq!(cut_title("héllo wörld", 8), "hél...");
}

#[test]
fn note_rows_last_first() {
    let t = diane();
    let d = date(2024, 1, 1);
    let notes = vec![
        Note::new_on("first".into(), String::new(), Some(d), d).unwrap(),
        Note::new_on("a rather long title".into(), String::new(), Some(d), d).unwrap(),
    ];
    let rows = note_rows(&notes, 0, false, 12, &t);
    assert_eq!(rows.len(), 2);
    assert_eq!(rows[0].title, "a rathe...");
    assert_eq!(rows[0].pad, 0);
    assert_eq!(rows[0].gutter, Gutter::Blank);
    assert_eq!(rows[1].title, "first");
    assert_eq!(rows[1].pad, 5);
    assert_eq!(rows[1].gutter, Gutter::Bar(t.border));
}

#[test]
fn sidepane_scroll_is_clamped_and_marked() {
    let mut scroll = 10;
    assert_eq!(sidepane_markers(&mut scroll, 8, 5), (true, false));
    assert_eq!(scroll, 3);
    let mut scroll = 1;
    assert_eq!(sidepane_markers(&mut scroll, 8, 5), (true, true));
    assert_eq!(scroll, 1);
    let mut scroll = 0;
    assert_eq!(sidepane_markers(&mut scroll, 8, 5), (false, true));
    let mut scroll = 4;
    assert_eq!(sidepane_markers(&mut scroll, 3, 5), (false, false));
    assert_eq!(scroll, 0);
}

#[test]
fn content_scrollbar_only_when_needed() {
    let mut scroll = 9;
    assert_eq!(content_scrollbar(&mut scroll, 30, 25), Some((6, 5)));
    assert_eq!(scroll, 5);
    let mut scroll = 2;
    assert_eq!(content_scrollbar(&mut scroll, 10, 25), None);
    assert_eq!(scroll, 0);
}

#[test]
fn record_layout_helpers() {
    assert_eq!(RECORD_INDENT.len(), 9);
    assert_eq!(record_wrap_width(50), 41);
    assert_eq!(record_wrap_width(4), 0);
    let (d, n) = records_title(&date(2024, 3, 9), 12);
    assert_eq!(d, "2024-03-09");
    assert_eq!(n, "  ·  12 entries");
    assert_eq!(time_label(&Time { hour: 7, minute: 5, second: 59 }), "07:05");
    assert_eq!(capture_cursor(4, 2, 5), (12, 2));
}

#[test]
fn content_panel_follows_focus_and_mode() {
    let days = vec![(date(2024, 1, 2), records(1)), (date(2024, 1, 5), records(2))];
    assert_eq!(
        content_choice(Mode::Journal, Focus::Content, &days, date(2024, 1, 5), 0, 0),
        Some(Content::Day(1))
    );
    assert_eq!(content_choice(Mode::Journal, Focus::Content, &days, date(2024, 1, 3), 0, 0), None);
    assert_eq!(content_choice(Mode::Journal, Focus::Sidepane, &days, date(2024, 1, 5), 0, 0), None);
    assert_eq!(
        content_choice(Mode::Archive, Focus::Content, &days, date(2024, 1, 5), 2, 3),
        Some(Content::Note(2))
    );
    assert_eq!(content_choice(Mode::Archive, Focus::Sidepane, &days, date(2024, 1, 5), 2, 3), None);
}
