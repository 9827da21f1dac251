//! Which keys do what in each window, and the hints the windows show.

use vstd::prelude::*;

use crate::app::{Action, Focus, Mode};

verus! {

/// The key that was pressed, as far as the windows tell keys apart.
#[derive(Clone, Copy, Debug, PartialEq, Eq, Structural)]
pub enum KeyCode {
    Char(char),
    Backspace,
    Enter,
    Esc,
    Left,
    Right,
    Up,
    Down,
    Other,
}

/// A key press: the key and the modifier keys held with it, as bits
/// (`SHIFT`, and others that no window reads).
#[derive(Clone, Copy, Debug, PartialEq, Eq, Structural)]
pub struct Key {
    pub code: KeyCode,
    pub modifiers: u8,
}

/// No modifier key held.
pub const NO_MODIFIERS: u8 = 0;

/// The bit of the shift key.
pub const SHIFT: u8 = 1;

/// The keys of the capture window: characters are typed, backspace erases,
/// escape cancels and enter commits.
pub open spec fn capture_action_of(key: Key) -> Option<Action> {
    match key.code {
        KeyCode::Char(c) => Some(Action::InsertChar(c)),
        KeyCode::Backspace => Some(Action::Backspace),
        KeyCode::Esc => Some(Action::Cancel),
        KeyCode::Enter => Some(Action::CommitCapture),
        _ => None,
    }
}

/// The keys of the journal list: right or `l` opens the day, down or `j`
/// (with no modifier) goes to the day before, up or `k` to the day after,
/// `J` (alone or with shift) turns to the archive, escape quits.
pub open spec fn journal_browsing_action_of(key: Key) -> Option<Action> {
    match key.code {
        KeyCode::Right => Some(Action::ToggleFocus),
        KeyCode::Down => if key.modifiers == NO_MODIFIERS {
            Some(Action::PreviousJournalEntry)
        } else {
            None
        },
        KeyCode::Up => Some(Action::NextJournalEntry),
        KeyCode::Esc => Some(Action::Cancel),
        KeyCode::Char(c) => if c == 'l' {
            Some(Action::ToggleFocus)
        } else if c == 'j' {
            if key.modifiers == NO_MODIFIERS {
                Some(Action::PreviousJournalEntry)
            } else {
                None
            }
        } else if c == 'k' {
            Some(Action::NextJournalEntry)
        } else if c == 'J' && (key.modifiers == SHIFT || key.modifiers == NO_MODIFIERS) {
            Some(Action::ToggleMode)
        } else {
            None
        },
        _ => None,
    }
}

/// The keys of the archive list: as in the journal list, with notes in place
/// of days, and `K` turning to the journal.
pub open spec fn archive_browsing_action_of(key: Key) -> Option<Action> {
    match key.code {
        KeyCode::Right => Some(Action::ToggleFocus),
        KeyCode::Down => if key.modifiers == NO_MODIFIERS {
            Some(Action::PreviousArchiveNote)
        } else {
            None
        },
        KeyCode::Up => Some(Action::NextArchiveNote),
        KeyCode::Esc => Some(Action::Cancel),
        KeyCode::Char(c) => if c == 'l' {
            Some(Action::ToggleFocus)
        } else if c == 'j' {
            if key.modifiers == NO_MODIFIERS {
                Some(Action::PreviousArchiveNote)
            } else {
                None
            }
        } else if c == 'k' {
            Some(Action::NextArchiveNote)
        } else if c == 'K' && (key.modifiers == SHIFT || key.modifiers == NO_MODIFIERS) {
            Some(Action::ToggleMode)
        } else {
            None
        },
        _ => None,
    }
}

/// The keys of an open day or note: left or `h` goes back to the list,
/// escape quits, down or `j` scrolls on, up or `k` scrolls back.
pub open spec fn focused_content_action_of(key: Key) -> Option<Action> {
    match key.code {
        KeyCode::Left => Some(Action::ToggleFocus),
        KeyCode::Esc => Some(Action::Cancel),
        KeyCode::Down => Some(Action::ScrollbarNext),
        KeyCode::Up => Some(Action::ScrollbarPrevious),
        KeyCode::Char(c) => if c == 'h' {
            Some(Action::ToggleFocus)
        } else if c == 'j' {
            Some(Action::ScrollbarNext)
        } else if c == 'k' {
            Some(Action::ScrollbarPrevious)
        } else {
            None
        },
        _ => None,
    }
}

/// What a key does in the capture window.
pub fn capture_action(key: Key) -> (r: Option<Action>)
    ensures
        r == capture_action_of(key),
{
    match key.code {
        KeyCode::Char(c) => Some(Action::InsertChar(c)),
        KeyCode::Backspace => Some(Action::Backspace),
        KeyCode::Esc => Some(Action::Cancel),
        KeyCode::Enter => Some(Action::CommitCapture),
        _ => None,
    }
}

/// What a key does in the journal list.
pub fn journal_browsing_sidepane_action(key: Key) -> (r: Option<Action>)
    ensures
        r == journal_browsing_action_of(key),
{
    let plain = key.modifiers == NO_MODIFIERS;
    match key.code {
        KeyCode::Right | KeyCode::Char('l') => Some(Action::ToggleFocus),
        KeyCode::Down | KeyCode::Char('j') => if plain {
            Some(Action::PreviousJournalEntry)
        } else {
            None
        },
        KeyCode::Up | KeyCode::Char('k') => Some(Action::NextJournalEntry),
        KeyCode::Char('J') => if key.modifiers == SHIFT || plain {
            Some(Action::ToggleMode)
        } else {
            None
        },
        KeyCode::Esc => Some(Action::Cancel),
        _ => None,
    }
}

/// What a key does in the archive list.
pub fn archive_browsing_sidepane_action(key: Key) -> (r: Option<Action>)
    ensures
        r == archive_browsing_action_of(key),
{
    let plain = key.modifiers == NO_MODIFIERS;
    match key.code {
        KeyCode::Right | KeyCode::Char('l') => Some(Action::ToggleFocus),
        KeyCode::Down | KeyCode::Char('j') => if plain {
            Some(Action::PreviousArchiveNote)
        } else {
            None
        },
        KeyCode::Up | KeyCode::Char('k') => Some(Action::NextArchiveNote),
        KeyCode::Char('K') => if key.modifiers == SHIFT || plain {
            Some(Action::ToggleMode)
        } else {
            None
        },
        KeyCode::Esc => Some(Action::Cancel),
        _ => None,
    }
}

/// What a key does in an open journal day.
pub fn journal_focused_record_action(key: Key) -> (r: Option<Action>)
    ensures
        r == focused_content_action_of(key),
{
    focused_content_action(key)
}

/// What a key does in an open note.
pub fn archive_focused_record_action(key: Key) -> (r: Option<Action>)
    ensures
        r == focused_content_action_of(key),
{
    focused_content_action(key)
}

fn focused_content_action(key: Key) -> (r: Option<Action>)
    ensures
        r == focused_content_action_of(key),
{
    match key.code {
        KeyCode::Left | KeyCode::Char('h') => Some(Action::ToggleFocus),
        KeyCode::Esc => Some(Action::Cancel),
        KeyCode::Down | KeyCode::Char('j') => Some(Action::ScrollbarNext),
        KeyCode::Up | KeyCode::Char('k') => Some(Action::ScrollbarPrevious),
        _ => None,
    }
}

/// The hint line under the journal list.
pub fn journal_sidepane_instructions() -> (s: &'static str)
    ensures
        s@ == "j/k or ↑/↓ select day  ·  l or → open  ·  SHIFT + j archive  ·  esc quit"@,
{
    "j/k or ↑/↓ select day  ·  l or → open  ·  SHIFT + j archive  ·  esc quit"
}

/// The hint line under an open day or note.
pub fn content_instructions() -> (s: &'static str)
    ensures
        s@ == "j/k or ↑/↓ scroll up or down  ·  h or ← back  ·  esc quit"@,
{
    "j/k or ↑/↓ scroll up or down  ·  h or ← back  ·  esc quit"
}

/// The hint line under the archive list.
pub fn archive_sidepane_instructions() -> (s: &'static str)
    ensures
        s@ == "j/k or ↑/↓ select note  ·  l or → open  ·  SHIFT + k journal  ·  esc quit"@,
{
    "j/k or ↑/↓ select note  ·  l or → open  ·  SHIFT + k journal  ·  esc quit"
}

/// The hint line of the library window: that of the focused list, or that
/// of the open day or note.
pub open spec fn footer_text(mode: Mode, focus: Focus) -> Seq<char> {
    match (focus, mode) {
        (Focus::Sidepane, Mode::Journal) => "j/k or ↑/↓ select day  ·  l or → open  ·  SHIFT + j archive  ·  esc quit"@,
        (Focus::Sidepane, Mode::Archive) => "j/k or ↑/↓ select note  ·  l or → open  ·  SHIFT + k journal  ·  esc quit"@,
        (Focus::Content, _) => "j/k or ↑/↓ scroll up or down  ·  h or ← back  ·  esc quit"@,
    }
}

/// The hint line of the library window in the given mode and focus.
pub fn footer_instructions(mode: Mode, focus: Focus) -> (s: &'static str)
    ensures
        s@ == footer_text(mode, focus),
{
    match (focus, mode) {
        (Focus::Sidepane, Mode::Journal) => journal_sidepane_instructions(),
        (Focus::Sidepane, Mode::Archive) => archive_sidepane_instructions(),
        (Focus::Content, _) => content_instructions(),
    }
}

/// The capture window's keys: a character is typed, backspace erases,
/// escape cancels, enter commits, and any other key does nothing, whatever
/// the modifiers.
pub proof fn lemma_capture_keys(key: Key)
    ensures
        key.code matches KeyCode::Char(c) ==> capture_action_of(key) == Some(Action::InsertChar(c)),
        key.code == KeyCode::Backspace ==> capture_action_of(key) == Some(Action::Backspace),
        key.code == KeyCode::Esc ==> capture_action_of(key) == Some(Action::Cancel),
        key.code == KeyCode::Enter ==> capture_action_of(key) == Some(Action::CommitCapture),
        !(key.code is Char || key.code == KeyCode::Backspace || key.code == KeyCode::Esc || key.code
            == KeyCode::Enter) ==> capture_action_of(key) is None,
{
}

/// The journal list's keys: right or `l` opens the day; down or `j` with no
/// modifier goes to the day before, and with a modifier does nothing; up or
/// `k` goes to the day after; `J` alone or with shift turns to the archive;
/// escape quits; other keys do nothing.
pub proof fn lemma_journal_list_keys(key: Key)
    ensures
        (key.code == KeyCode::Right || key.code == KeyCode::Char('l')) ==> journal_browsing_action_of(key)
            == Some(Action::ToggleFocus),
        (key.code == KeyCode::Down || key.code == KeyCode::Char('j')) ==> journal_browsing_action_of(key)
            == (if key.modifiers == 0 {
            Some(Action::PreviousJournalEntry)
        } else {
            None
        }),
        (key.code == KeyCode::Up || key.code == KeyCode::Char('k')) ==> journal_browsing_action_of(key)
            == Some(Action::NextJournalEntry),
        key.code == KeyCode::Char('J') ==> journal_browsing_action_of(key) == (if key.modifiers == 1
            || key.modifiers == 0 {
            Some(Action::ToggleMode)
        } else {
            None
        }),
        key.code == KeyCode::Esc ==> journal_browsing_action_of(key) == Some(Action::Cancel),
        !(key.code == KeyCode::Right || key.code == KeyCode::Char('l') || key.code == KeyCode::Down
            || key.code == KeyCode::Char('j') || key.code == KeyCode::Up || key.code == KeyCode::Char(
            'k',
        ) || key.code == KeyCode::Char('J') || key.code == KeyCode::Esc) ==> journal_browsing_action_of(
            key,
        ) is None,
{
}

/// The archive list's keys: right or `l` opens the note; down or `j` with
/// no modifier goes to the note before, and with a modifier does nothing;
/// up or `k` goes to the note after; `K` alone or with shift turns to the
/// journal; escape quits; other keys do nothing.
pub proof fn lemma_archive_list_keys(key: Key)
    ensures
        (key.code == KeyCode::Right || key.code == KeyCode::Char('l')) ==> archive_browsing_action_of(key)
            == Some(Action::ToggleFocus),
        (key.code == KeyCode::Down || key.code == KeyCode::Char('j')) ==> archive_browsing_action_of(key)
            == (if key.modifiers == 0 {
            Some(Action::PreviousArchiveNote)
        } else {
            None
        }),
        (key.code == KeyCode::Up || key.code == KeyCode::Char('k')) ==> archive_browsing_action_of(key)
            == Some(Action::NextArchiveNote),
        key.code == KeyCode::Char('K') ==> archive_browsing_action_of(key) == (if key.modifiers == 1
            || key.modifiers == 0 {
            Some(Action::ToggleMode)
        } else {
            None
        }),
        key.code == KeyCode::Esc ==> archive_browsing_action_of(key) == Some(Action::Cancel),
        !(key.code == KeyCode::Right || key.code == KeyCode::Char('l') || key.code == KeyCode::Down
            || key.code == KeyCode::Char('j') || key.code == KeyCode::Up || key.code == KeyCode::Char(
            'k',
        ) || key.code == KeyCode::Char('K') || key.code == KeyCode::Esc) ==> archive_browsing_action_of(
            key,
        ) is None,
{
}

/// In both lists the arrow keys and the letters do the same: down as `j`,
/// up as `k`, right as `l`, with the same modifiers.
pub proof fn lemma_arrows_match_letters(modifiers: u8)
    ensures
        journal_browsing_action_of(Key { code: KeyCode::Down, modifiers }) == journal_browsing_action_of(
            Key { code: KeyCode::Char('j'), modifiers },
        ),
        journal_browsing_action_of(Key { code: KeyCode::Up, modifiers }) == journal_browsing_action_of(
            Key { code: KeyCode::Char('k'), modifiers },
        ),
        journal_browsing_action_of(Key { code: KeyCode::Right, modifiers })
            == journal_browsing_action_of(Key { code: KeyCode::Char('l'), modifiers }),
        archive_browsing_action_of(Key { code: KeyCode::Down, modifiers }) == archive_browsing_action_of(
            Key { code: KeyCode::Char('j'), modifiers },
        ),
        archive_browsing_action_of(Key { code: KeyCode::Up, modifiers }) == archive_browsing_action_of(
            Key { code: KeyCode::Char('k'), modifiers },
        ),
        archive_browsing_action_of(Key { code: KeyCode::Right, modifiers })
            == archive_browsing_action_of(Key { code: KeyCode::Char('l'), modifiers }),
        focused_content_action_of(Key { code: KeyCode::Down, modifiers }) == focused_content_action_of(
            Key { code: KeyCode::Char('j'), modifiers },
        ),
        focused_content_action_of(Key { code: KeyCode::Up, modifiers }) == focused_content_action_of(
            Key { code: KeyCode::Char('k'), modifiers },
        ),
        focused_content_action_of(Key { code: KeyCode::Left, modifiers }) == focused_content_action_of(
            Key { code: KeyCode::Char('h'), modifiers },
        ),
{
}

} // verus!
