use diane::app::{Action, Focus, Mode};
use diane::ui::{
    archive_browsing_sidepane_action, archive_focused_record_action, archive_sidepane_instructions,
    capture_action, content_instructions, footer_instructions, journal_browsing_sidepane_action,
    journal_focused_record_action, journal_sidepane_instructions, Key, KeyCode, NO_MODIFIERS, SHIFT,
};

fn key(code: KeyCode) -> Key {
    Key { code, modifiers: NO_MODIFIERS }
}

fn with(code: KeyCode, modifiers: u8) -> Key {
    Key { code, modifiers }
}

const CONTROL: u8 = 2;

#[test]
fn capture_keys() {
    assert_eq!(capture_action(key(KeyCode::Char('x'))), Some(Action::InsertChar('x')));
    assert_eq!(capture_action(with(KeyCode::Char('X'), SHIFT)), Some(Action::InsertChar('X')));
    assert_eq!(capture_action(key(KeyCode::Backspace)), Some(Action::Backspace));
    assert_eq!(capture_action(key(KeyCode::Esc)), Some(Action::Cancel));
    assert_eq!(capture_action(key(KeyCode::Enter)), Some(Action::CommitCapture));
    assert_eq!(capture_action(key(KeyCode::Left)), None);
    assert_eq!(capture_action(key(KeyCode::Other)), None);
}

#[test]
fn journal_list_keys() {
    let f = journal_browsing_sidepane_action;
    assert_eq!(f(key(KeyCode::Right)), Some(Action::ToggleFocus));
    assert_eq!(f(with(KeyCode::Char('l'), CONTROL)), Some(Action::ToggleFocus));
    assert_eq!(f(key(KeyCode::Down)), Some(Action::PreviousJournalEntry));
    assert_eq!(f(key(KeyCode::Char('j'))), Some(Action::PreviousJournalEntry));
    assert_eq!(f(with(KeyCode::Char('j'), CONTROL)), None);
    assert_eq!(f(with(KeyCode::Down, SHIFT)), None);
    assert_eq!(f(key(KeyCode::Up)), Some(Action::NextJournalEntry));
    assert_eq!(f(with(KeyCode::Char('k'), SHIFT)), Some(Action::NextJournalEntry));
    assert_eq!(f(with(KeyCode::Char('J'), SHIFT)), Some(Action::ToggleMode));
    assert_eq!(f(key(KeyCode::Char('J'))), Some(Action::ToggleMode));
    assert_eq!(f(with(KeyCode::Char('J'), SHIFT | CONTROL)), None);
    assert_eq!(f(key(KeyCode::Char('K'))), None);
    assert_eq!(f(with(KeyCode::Esc, CONTROL)), Some(Action::Cancel));
    assert_eq!(f(key(KeyCode::Left)), None);
}

#[test]
fn archive_list_keys() {
    let f = archive_browsing_sidepane_action;
    assert_eq!(f(key(KeyCode::Char('l'))), Some(Action::ToggleFocus));
    assert_eq!(f(key(KeyCode::Char('j'))), Some(Action::PreviousArchiveNote));
    assert_eq!(f(with(KeyCode::Down, CONTROL)), None);
    assert_eq!(f(key(KeyCode::Char('k'))), Some(Action::NextArchiveNote));
    assert_eq!(f(with(KeyCode::Char('K'), SHIFT)), Some(Action::ToggleMode));
    assert_eq!(f(key(KeyCode::Char('J'))), None);
    assert_eq!(f(key(KeyCode::Esc)), Some(Action::Cancel));
}

#[test]
fn open_content_keys() {
    for f in [journal_focused_record_action, archive_focused_record_action] {
        assert_eq!(f(key(KeyCode::Left)), Some(Action::ToggleFocus));
        assert_eq!(f(with(KeyCode::Char('h'), SHIFT)), Some(Action::ToggleFocus));
        assert_eq!(f(key(KeyCode::Esc)), Some(Action::Cancel));
        assert_eq!(f(key(KeyCode::Char('j'))), Some(Action::ScrollbarNext));
        assert_eq!(f(key(KeyCode::Down)), Some(Action::ScrollbarNext));
        assert_eq!(f(key(KeyCode::Up)), Some(Action::ScrollbarPrevious));
        assert_eq!(f(key(KeyCode::Char('k'))), Some(Action::ScrollbarPrevious));
        assert_eq!(f(key(KeyCode::Right)), None);
        assert_eq!(f(key(KeyCode::Enter)), None);
    }
}

#[test]
fn hint_lines() {
    assert_eq!(
        journal_sidepane_instructions(),
        "j/k or ↑/↓ select day  ·  l or → open  ·  SHIFT + j archive  ·  esc quit"
    );
    assert_eq!(content_instructions(), "j/k or ↑/↓ scroll up or down  ·  h or ← back  ·  esc quit");
    assert_eq!(
        archive_sidepane_instructions(),
        "j/k or ↑/↓ select note  ·  l or → open  ·  SHIFT + k journal  ·  esc quit"
    );
    assert_eq!(footer_instructions(Mode::Journal, Focus::Sidepane), journal_sidepane_instructions());
    assert_eq!(footer_instructions(Mode::Archive, Focus::Sidepane), archive_sidepane_instructions());
    assert_eq!(footer_instructions(Mode::Archive, Focus::Content), content_instructions());
    assert_eq!(footer_instructions(Mode::Journal, Focus::Content), content_instructions());
}
