//! The state of the interface and how actions change it.

use vstd::prelude::*;

use crate::calendar::{now, today, Date, Time};
use crate::entry::{note_text, record_views, Day, Note, NoteView, Record, RecordView};
use crate::stream::{archive_entry, archive_file_name_of};
use crate::text::{pop_char, push_char};
use crate::theme::Theme;
use crate::ui::{
    archive_browsing_action_of, archive_browsing_sidepane_action, archive_focused_record_action,
    capture_action, capture_action_of, focused_content_action_of, journal_browsing_action_of,
    journal_browsing_sidepane_action, journal_focused_record_action, Key, KeyCode,
};

verus! {

/// Which part of the library window has the focus.
#[derive(Clone, Copy, Debug, PartialEq, Eq, Structural)]
pub enum Focus {
    Sidepane,
    Content,
}

/// Which list of the library window is browsed.
#[derive(Clone, Copy, Debug, PartialEq, Eq, Structural)]
pub enum Mode {
    Journal,
    Archive,
}

/// The two parts of a front matter line.
#[derive(Clone, Copy, Debug, PartialEq, Eq, Structural)]
pub enum Field {
    Key,
    Value,
}

/// What the user asks for.
#[derive(Clone, Copy, Debug, PartialEq, Eq, Structural)]
pub enum Action {
    Backspace,
    Cancel,
    CommitCapture,
    InsertChar(char),
    NextJournalEntry,
    NextArchiveNote,
    PreviousJournalEntry,
    PreviousArchiveNote,
    ScrollbarNext,
    ScrollbarPrevious,
    ToggleFocus,
    ToggleMode,
}

/// The window on screen: the library of days and notes, or the popup that
/// captures one record.
pub enum Window {
    Library {
        selected_entry: Date,
        selected_note: usize,
        mode: Mode,
        focus: Focus,
        archive_scroll: usize,
        journal_scroll: usize,
        content_scroll: usize,
    },
    Capture { text: String, character_index: u16 },
}

/// The settings of the library window.
#[derive(Clone, Copy, Debug, PartialEq, Eq, Structural)]
pub struct LibraryState {
    pub selected_entry: Date,
    pub selected_note: usize,
    pub mode: Mode,
    pub focus: Focus,
    pub archive_scroll: usize,
    pub journal_scroll: usize,
    pub content_scroll: usize,
}

/// The contents of a window.
pub enum WindowView {
    Library(LibraryState),
    Capture { text: Seq<char>, character_index: u16 },
}

impl View for Window {
    type V = WindowView;

    open spec fn view(&self) -> WindowView {
        match *self {
            Window::Library {
                selected_entry,
                selected_note,
                mode,
                focus,
                archive_scroll,
                journal_scroll,
                content_scroll,
            } => WindowView::Library(
                LibraryState {
                    selected_entry,
                    selected_note,
                    mode,
                    focus,
                    archive_scroll,
                    journal_scroll,
                    content_scroll,
                },
            ),
            Window::Capture { text, character_index } => WindowView::Capture {
                text: text@,
                character_index,
            },
        }
    }
}

/// The view of an optional window.
pub open spec fn pane_view(p: Option<Window>) -> Option<WindowView> {
    match p {
        Some(w) => Some(w@),
        None => None,
    }
}

/// The dates of the journal days, in order.
pub open spec fn day_dates(days: Seq<(Date, Day)>) -> Seq<Date> {
    Seq::new(days.len(), |i: int| days[i].0)
}

/// The journal days with the views of their records.
pub open spec fn days_view(days: Seq<(Date, Day)>) -> Seq<(Date, Seq<RecordView>)> {
    Seq::new(days.len(), |i: int| (days[i].0, record_views(days[i].1.records@)))
}

/// The days are valid dates in strictly increasing order, as the keys of an
/// ordered map are.
pub open spec fn dates_ordered(ds: Seq<Date>) -> bool {
    &&& forall|i: int| 0 <= i < ds.len() ==> (#[trigger] ds[i]).wf()
    &&& forall|i: int, j: int| 0 <= i < j < ds.len() ==> (#[trigger] ds[i]).key() < (
    #[trigger] ds[j]).key()
}

/// The latest of the dates that come strictly before `sel`, if any.
pub open spec fn prev_entry(ds: Seq<Date>, sel: Date) -> Option<Date>
    decreases ds.len(),
{
    if ds.len() == 0 {
        None
    } else {
        let p = prev_entry(ds.drop_last(), sel);
        let d = ds.last();
        if d.key() < sel.key() && (p is None || p.unwrap().key() < d.key()) {
            Some(d)
        } else {
            p
        }
    }
}

/// The earliest of the dates that come strictly after `sel`, if any.
pub open spec fn next_entry(ds: Seq<Date>, sel: Date) -> Option<Date>
    decreases ds.len(),
{
    if ds.len() == 0 {
        None
    } else {
        let p = next_entry(ds.drop_last(), sel);
        let d = ds.last();
        if sel.key() < d.key() && (p is None || d.key() < p.unwrap().key()) {
            Some(d)
        } else {
            p
        }
    }
}

/// What `prev_entry` gives: one of the dates, before `sel`, and no date
/// before `sel` comes after it; nothing only when no date comes before `sel`.
pub proof fn lemma_prev_entry(ds: Seq<Date>, sel: Date)
    ensures
        prev_entry(ds, sel) matches Some(d) ==> {
            &&& ds.contains(d)
            &&& d.key() < sel.key()
            &&& forall|i: int| 0 <= i < ds.len() && #[trigger] ds[i].key() < sel.key() ==> ds[i].key()
                <= d.key()
        },
        prev_entry(ds, sel) is None ==> forall|i: int| 0 <= i < ds.len() ==> #[trigger] ds[i].key()
            >= sel.key(),
    decreases ds.len(),
{
    if ds.len() > 0 {
        lemma_prev_entry(ds.drop_last(), sel);
        if let Some(d) = prev_entry(ds.drop_last(), sel) {
            let k = choose|k: int| 0 <= k < ds.drop_last().len() && ds.drop_last()[k] == d;
            assert(ds[k] == d);
        }
        assert(ds[ds.len() - 1] == ds.last());
        assert forall|i: int| 0 <= i < ds.len() - 1 implies #[trigger] ds[i] == ds.drop_last()[i] by {}
    }
}

/// What `next_entry` gives: one of the dates, after `sel`, and no date
/// after `sel` comes before it; nothing only when no date comes after `sel`.
pub proof fn lemma_next_entry(ds: Seq<Date>, sel: Date)
    ensures
        next_entry(ds, sel) matches Some(d) ==> {
            &&& ds.contains(d)
            &&& sel.key() < d.key()
            &&& forall|i: int| 0 <= i < ds.len() && sel.key() < #[trigger] ds[i].key() ==> d.key()
                <= ds[i].key()
        },
        next_entry(ds, sel) is None ==> forall|i: int| 0 <= i < ds.len() ==> #[trigger] ds[i].key()
            <= sel.key(),
    decreases ds.len(),
{
    if ds.len() > 0 {
        lemma_next_entry(ds.drop_last(), sel);
        if let Some(d) = next_entry(ds.drop_last(), sel) {
            let k = choose|k: int| 0 <= k < ds.drop_last().len() && ds.drop_last()[k] == d;
            assert(ds[k] == d);
        }
        assert(ds[ds.len() - 1] == ds.last());
        assert forall|i: int| 0 <= i < ds.len() - 1 implies #[trigger] ds[i] == ds.drop_last()[i] by {}
    }
}

impl Date {
    /// The ordering number of the date.
    pub fn key_value(&self) -> (k: i64)
        ensures
            k as int == self.key(),
    {
        self.year as i64 * 10000 + self.month as i64 * 100 + self.day as i64
    }
}

/// The latest journal day before `sel`.
pub fn previous_entry(days: &Vec<(Date, Day)>, sel: Date) -> (r: Option<Date>)
    ensures
        r == prev_entry(day_dates(days@), sel),
{
    let ghost ds = day_dates(days@);
    let mut best: Option<Date> = None;
    let sk = sel.key_value();
    let mut i: usize = 0;
    while i < days.len()
        invariant
            i <= days.len(),
            ds == day_dates(days@),
            sk == sel.key(),
            best == prev_entry(ds.take(i as int), sel),
        decreases days.len() - i,
    {
        assert(ds.take(i + 1).drop_last() =~= ds.take(i as int));
        assert(ds.take(i + 1).last() == days@[i as int].0);
        let d = days[i].0;
        let dk = d.key_value();
        if dk < sk {
            match best {
                Some(b) => {
                    if b.key_value() < dk {
                        best = Some(d);
                    }
                },
                None => {
                    best = Some(d);
                },
            }
        }
        i = i + 1;
    }
    assert(ds.take(days.len() as int) =~= ds);
    best
}

/// The earliest journal day after `sel`.
pub fn following_entry(days: &Vec<(Date, Day)>, sel: Date) -> (r: Option<Date>)
    ensures
        r == next_entry(day_dates(days@), sel),
{
    let ghost ds = day_dates(days@);
    let mut best: Option<Date> = None;
    let sk = sel.key_value();
    let mut i: usize = 0;
    while i < days.len()
        invariant
            i <= days.len(),
            ds == day_dates(days@),
            sk == sel.key(),
            best == next_entry(ds.take(i as int), sel),
        decreases days.len() - i,
    {
        assert(ds.take(i + 1).drop_last() =~= ds.take(i as int));
        assert(ds.take(i + 1).last() == days@[i as int].0);
        let d = days[i].0;
        let dk = d.key_value();
        if sk < dk {
            match best {
                Some(b) => {
                    if dk < b.key_value() {
                        best = Some(d);
                    }
                },
                None => {
                    best = Some(d);
                },
            }
        }
        i = i + 1;
    }
    assert(ds.take(days.len() as int) =~= ds);
    best
}

/// `n - 1`, or `0` for `0`.
pub open spec fn dec(n: usize) -> usize {
    if n == 0 {
        0
    } else {
        (n - 1) as usize
    }
}

/// How an action changes the settings of the library window; `notes` is how
/// many notes the archive holds, `dates` the days of the journal.
pub open spec fn next_library(w: LibraryState, a: Action, dates: Seq<Date>, notes: nat) -> LibraryState {
    match a {
        Action::ScrollbarNext => match w.focus {
            Focus::Content => LibraryState { content_scroll: (w.content_scroll + 1) as usize, ..w },
            Focus::Sidepane => LibraryState { journal_scroll: (w.journal_scroll + 1) as usize, ..w },
        },
        Action::ScrollbarPrevious => match w.focus {
            Focus::Content => LibraryState { content_scroll: dec(w.content_scroll), ..w },
            Focus::Sidepane => LibraryState { journal_scroll: dec(w.journal_scroll), ..w },
        },
        Action::ToggleMode => LibraryState {
            mode: match w.mode {
                Mode::Archive => Mode::Journal,
                Mode::Journal => Mode::Archive,
            },
            ..w
        },
        Action::ToggleFocus => match w.focus {
            Focus::Content => LibraryState { focus: Focus::Sidepane, content_scroll: 0, ..w },
            Focus::Sidepane => LibraryState { focus: Focus::Content, ..w },
        },
        Action::PreviousJournalEntry => match prev_entry(dates, w.selected_entry) {
            Some(d) => LibraryState {
                selected_entry: d,
                journal_scroll: (w.journal_scroll + 1) as usize,
                ..w
            },
            None => w,
        },
        Action::NextJournalEntry => match next_entry(dates, w.selected_entry) {
            Some(d) => LibraryState { selected_entry: d, journal_scroll: dec(w.journal_scroll), ..w },
            None => w,
        },
        Action::PreviousArchiveNote => LibraryState {
            selected_note: dec(w.selected_note),
            archive_scroll: (w.archive_scroll + 1) as usize,
            ..w
        },
        Action::NextArchiveNote => LibraryState {
            selected_note: if w.selected_note + 1 <= dec(notes as usize) {
                (w.selected_note + 1) as usize
            } else {
                dec(notes as usize)
            },
            archive_scroll: dec(w.archive_scroll),
            ..w
        },
        _ => w,
    }
}

/// How an action changes the window.
pub open spec fn next_window(w: WindowView, a: Action, dates: Seq<Date>, notes: nat) -> WindowView {
    match w {
        WindowView::Library(st) => WindowView::Library(next_library(st, a, dates, notes)),
        WindowView::Capture { text, character_index } => match a {
            Action::InsertChar(c) => WindowView::Capture {
                text: text.push(c),
                character_index: (character_index + 1) as u16,
            },
            Action::Backspace => WindowView::Capture {
                text: if text.len() > 0 {
                    text.drop_last()
                } else {
                    text
                },
                character_index: if character_index == 0 {
                    0
                } else {
                    (character_index - 1) as u16
                },
            },
            _ => w,
        },
    }
}

/// The counters that the action increments stay within their integer
/// types (the application stops on an overflow there).
pub open spec fn step_in_range(w: WindowView, a: Action, dates: Seq<Date>) -> bool {
    match w {
        WindowView::Library(st) => match a {
            Action::ScrollbarNext => match st.focus {
                Focus::Content => st.content_scroll < usize::MAX,
                Focus::Sidepane => st.journal_scroll < usize::MAX,
            },
            Action::PreviousJournalEntry => prev_entry(dates, st.selected_entry) is Some
                ==> st.journal_scroll < usize::MAX,
            Action::PreviousArchiveNote => st.archive_scroll < usize::MAX,
            Action::NextArchiveNote => st.selected_note < usize::MAX,
            _ => true,
        },
        WindowView::Capture { character_index, .. } => match a {
            Action::InsertChar(_) => character_index < u16::MAX,
            _ => true,
        },
    }
}

/// The window after an action.
pub fn step_window(w: Window, action: Action, days: &Vec<(Date, Day)>, notes: usize) -> (r: Window)
    requires
        step_in_range(w@, action, day_dates(days@)),
    ensures
        r@ == next_window(w@, action, day_dates(days@), notes as nat),
{
    match w {
        Window::Library {
            selected_entry,
            selected_note,
            mode,
            focus,
            archive_scroll,
            journal_scroll,
            content_scroll,
        } => {
            let mut selected_entry = selected_entry;
            let mut selected_note = selected_note;
            let mut mode = mode;
            let mut focus = focus;
            let mut archive_scroll = archive_scroll;
            let mut journal_scroll = journal_scroll;
            let mut content_scroll = content_scroll;
            match action {
                Action::ScrollbarNext => match focus {
                    Focus::Content => {
                        content_scroll = content_scroll + 1;
                    },
                    Focus::Sidepane => {
                        journal_scroll = journal_scroll + 1;
                    },
                },
                Action::ScrollbarPrevious => match focus {
                    Focus::Content => {
                        content_scroll = content_scroll.saturating_sub(1);
                    },
                    Focus::Sidepane => {
                        journal_scroll = journal_scroll.saturating_sub(1);
                    },
                },
                Action::ToggleMode => {
                    mode = match mode {
                        Mode::Archive => Mode::Journal,
                        Mode::Journal => Mode::Archive,
                    };
                },
                Action::ToggleFocus => {
                    focus = match focus {
                        Focus::Content => {
                            content_scroll = 0;
                            Focus::Sidepane
                        },
                        Focus::Sidepane => Focus::Content,
                    };
                },
                Action::PreviousJournalEntry => {
                    if let Some(date) = previous_entry(days, selected_entry) {
                        selected_entry = date;
                        journal_scroll = journal_scroll + 1;
                    }
                },
                Action::NextJournalEntry => {
                    if let Some(date) = following_entry(days, selected_entry) {
                        selected_entry = date;
                        journal_scroll = journal_scroll.saturating_sub(1);
                    }
                },
                Action::PreviousArchiveNote => {
                    selected_note = selected_note.saturating_sub(1);
                    archive_scroll = archive_scroll + 1;
                },
                Action::NextArchiveNote => {
                    let last = notes.saturating_sub(1);
                    let next = selected_note + 1;
                    selected_note = if next <= last {
                        next
                    } else {
                        last
                    };
                    archive_scroll = archive_scroll.saturating_sub(1);
                },
                _ => {},
            }
            Window::Library {
                selected_entry,
                selected_note,
                mode,
                focus,
                archive_scroll,
                journal_scroll,
                content_scroll,
            }
        },
        Window::Capture { text, character_index } => {
            let mut text = text;
            let mut character_index = character_index;
            match action {
                Action::InsertChar(c) => {
                    push_char(&mut text, c);
                    character_index = character_index + 1;
                },
                Action::Backspace => {
                    let _ = pop_char(&mut text);
                    character_index = character_index.saturating_sub(1);
                },
                _ => {},
            }
            Window::Capture { text, character_index }
        },
    }
}

/// The first position from `i` on whose date does not come before `d`:
/// where `d` stands, or would stand, in ordered dates.
pub open spec fn lower_bound(ds: Seq<Date>, d: Date, i: int) -> int
    decreases ds.len() - i,
{
    if i < 0 || i >= ds.len() || ds[i].key() >= d.key() {
        i
    } else {
        lower_bound(ds, d, i + 1)
    }
}

/// Every date before the position `lower_bound` gives comes before `d`, and
/// the date at it, if any, does not.
pub proof fn lemma_lower_bound(ds: Seq<Date>, d: Date, i: int)
    requires
        0 <= i <= ds.len(),
    ensures
        i <= lower_bound(ds, d, i) <= ds.len(),
        forall|j: int| i <= j < lower_bound(ds, d, i) ==> #[trigger] ds[j].key() < d.key(),
        lower_bound(ds, d, i) < ds.len() ==> ds[lower_bound(ds, d, i)].key() >= d.key(),
    decreases ds.len() - i,
{
    if i < ds.len() && ds[i].key() < d.key() {
        lemma_lower_bound(ds, d, i + 1);
    }
}

/// The dates of journal days with their records.
pub open spec fn view_dates(dv: Seq<(Date, Seq<RecordView>)>) -> Seq<Date> {
    Seq::new(dv.len(), |i: int| dv[i].0)
}

/// The days with one more record on day `d`: the day's entry is made when
/// the journal has none yet, in its place among the ordered days.
pub open spec fn with_record(dv: Seq<(Date, Seq<RecordView>)>, d: Date, r: RecordView) -> Seq<
    (Date, Seq<RecordView>),
> {
    let p = lower_bound(view_dates(dv), d, 0);
    if p < dv.len() && dv[p].0 == d {
        dv.update(p, (d, dv[p].1.push(r)))
    } else {
        dv.insert(p, (d, seq![r]))
    }
}

/// The days with day `d` set to the given records, the entry made when
/// missing: what inserting into an ordered map does.
pub open spec fn with_day(dv: Seq<(Date, Seq<RecordView>)>, d: Date, rs: Seq<RecordView>) -> Seq<
    (Date, Seq<RecordView>),
> {
    let p = lower_bound(view_dates(dv), d, 0);
    if p < dv.len() && dv[p].0 == d {
        dv.update(p, (d, rs))
    } else {
        dv.insert(p, (d, rs))
    }
}

proof fn lemma_days_view_dates(days: Seq<(Date, Day)>)
    ensures
        view_dates(days_view(days)) == day_dates(days),
{
    assert(view_dates(days_view(days)) =~= day_dates(days));
}

/// Where a date stands among ordered days, and whether it is there.
fn locate_day(days: &Vec<(Date, Day)>, d: Date) -> (r: (usize, bool))
    requires
        dates_ordered(day_dates(days@)),
        d.wf(),
    ensures
        r.0 == lower_bound(day_dates(days@), d, 0),
        r.0 <= days@.len(),
        r.1 == (r.0 < days@.len() && days@[r.0 as int].0 == d),
        forall|j: int| 0 <= j < r.0 ==> #[trigger] days@[j].0.key() < d.key(),
        forall|j: int| r.0 <= j < days@.len() ==> #[trigger] days@[j].0.key() >= d.key(),
        !r.1 ==> forall|j: int| r.0 <= j < days@.len() ==> #[trigger] days@[j].0.key() > d.key(),
{
    let ghost ds = day_dates(days@);
    let dk = d.key_value();
    let mut p: usize = 0;
    while p < days.len() && days[p].0.key_value() < dk
        invariant
            p <= days.len(),
            ds == day_dates(days@),
            dk == d.key(),
            lower_bound(ds, d, 0) == lower_bound(ds, d, p as int),
        decreases days.len() - p,
    {
        p = p + 1;
    }
    proof {
        lemma_lower_bound(ds, d, 0);
        assert forall|j: int| 0 <= j < p implies #[trigger] days@[j].0.key() < d.key() by {
            assert(ds[j] == days@[j].0);
        }
        assert forall|j: int| p <= j < days@.len() implies #[trigger] days@[j].0.key() >= d.key() by {
            assert(ds[j] == days@[j].0);
            assert(ds[p as int] == days@[p as int].0);
            if j > p {
                assert(ds[p as int].key() < ds[j].key());
            }
        }
    }
    let found = p < days.len() && days[p].0 == d;
    proof {
        if !found {
            assert forall|j: int| p <= j < days@.len() implies #[trigger] days@[j].0.key() > d.key() by {
                assert(ds[j] == days@[j].0);
                assert(ds[j].wf());
                if days@[j].0.key() == d.key() {
                    crate::calendar::lemma_key_injective(days@[j].0, d);
                    if j > p {
                        assert(ds[p as int] == days@[p as int].0);
                        assert(ds[p as int].key() < ds[j].key());
                    }
                }
            }
        }
    }
    (p, found)
}

/// Adds a record to the day `d`, making the day's entry when it is missing.
pub fn add_day_record(days: &mut Vec<(Date, Day)>, d: Date, r: Record)
    requires
        dates_ordered(day_dates(old(days)@)),
        d.wf(),
    ensures
        dates_ordered(day_dates(final(days)@)),
        days_view(final(days)@) == with_record(days_view(old(days)@), d, r@),
{
    let (p, found) = locate_day(days, d);
    let ghost dv = days_view(days@);
    let ghost rv = r@;
    proof {
        lemma_days_view_dates(days@);
    }
    if found {
        let (date, mut day) = days.remove(p);
        let ghost before = record_views(day.records@);
        day.records.push(r);
        assert(record_views(day.records@) =~= before.push(rv));
        days.insert(p, (date, day));
        assert(days_view(days@) =~= dv.update(p as int, (d, dv[p as int].1.push(rv))));
        assert(day_dates(days@) =~= day_dates(old(days)@));
    } else {
        let mut records: Vec<Record> = Vec::new();
        records.push(r);
        assert(record_views(records@) =~= seq![rv]);
        days.insert(p, (d, Day { records }));
        assert(days_view(days@) =~= dv.insert(p as int, (d, seq![rv])));
        assert(day_dates(days@) =~= day_dates(old(days)@).insert(p as int, d));
        proof {
            let ods = day_dates(old(days)@);
            let nds = day_dates(days@);
            assert forall|i: int, j: int| 0 <= i < j < nds.len() implies (#[trigger] nds[i]).key() < (
            #[trigger] nds[j]).key() by {
                if j < p {
                } else if j == p {
                    assert(ods[i] == old(days)@[i].0);
                } else if i < p {
                    assert(ods[j - 1] == old(days)@[j - 1].0);
                    assert(ods[i] == old(days)@[i].0);
                } else if i == p {
                    assert(ods[j - 1] == old(days)@[j - 1].0);
                } else {
                    assert(ods[i - 1].key() < ods[j - 1].key());
                }
            }
        }
    }
}

/// Sets the records of day `d`, making the day's entry when it is missing.
pub fn set_day(days: &mut Vec<(Date, Day)>, d: Date, day: Day)
    requires
        dates_ordered(day_dates(old(days)@)),
        d.wf(),
    ensures
        dates_ordered(day_dates(final(days)@)),
        days_view(final(days)@) == with_day(days_view(old(days)@), d, record_views(day.records@)),
{
    let (p, found) = locate_day(days, d);
    let ghost dv = days_view(days@);
    let ghost rv = record_views(day.records@);
    proof {
        lemma_days_view_dates(days@);
    }
    if found {
        let _ = days.remove(p);
        days.insert(p, (d, day));
        assert(days_view(days@) =~= dv.update(p as int, (d, rv)));
        assert(day_dates(days@) =~= day_dates(old(days)@));
    } else {
        days.insert(p, (d, day));
        assert(days_view(days@) =~= dv.insert(p as int, (d, rv)));
        assert(day_dates(days@) =~= day_dates(old(days)@).insert(p as int, d));
        proof {
            let ods = day_dates(old(days)@);
            let nds = day_dates(days@);
            assert forall|i: int, j: int| 0 <= i < j < nds.len() implies (#[trigger] nds[i]).key() < (
            #[trigger] nds[j]).key() by {
                if j < p {
                } else if j == p {
                    assert(ods[i] == old(days)@[i].0);
                } else if i < p {
                    assert(ods[j - 1] == old(days)@[j - 1].0);
                    assert(ods[i] == old(days)@[i].0);
                } else if i == p {
                    assert(ods[j - 1] == old(days)@[j - 1].0);
                } else {
                    assert(ods[i - 1].key() < ods[j - 1].key());
                }
            }
        }
    }
}

/// Switching between journal and archive twice comes back to the same window.
pub proof fn lemma_toggle_mode_twice(st: LibraryState, dates: Seq<Date>, notes: nat)
    ensures
        next_library(next_library(st, Action::ToggleMode, dates, notes), Action::ToggleMode, dates, notes)
            == st,
{
}

/// Leaving the content pane puts the focus on the side pane and scrolls the
/// content back to its top; entering it keeps the rest.
pub proof fn lemma_toggle_focus(st: LibraryState, dates: Seq<Date>, notes: nat)
    ensures
        st.focus == Focus::Content ==> next_library(st, Action::ToggleFocus, dates, notes) == (
        LibraryState { focus: Focus::Sidepane, content_scroll: 0, ..st }),
        st.focus == Focus::Sidepane ==> next_library(
            next_library(st, Action::ToggleFocus, dates, notes),
            Action::ToggleFocus,
            dates,
            notes,
        ) == (LibraryState { content_scroll: 0, ..st }),
{
}

/// Scrolling down one step and back up comes back to the same window.
pub proof fn lemma_scroll_down_up(st: LibraryState, dates: Seq<Date>, notes: nat)
    requires
        step_in_range(WindowView::Library(st), Action::ScrollbarNext, dates),
    ensures
        next_library(
            next_library(st, Action::ScrollbarNext, dates, notes),
            Action::ScrollbarPrevious,
            dates,
            notes,
        ) == st,
{
}

/// Typing a character and erasing it leaves the capture text as it was.
pub proof fn lemma_type_then_erase(text: Seq<char>, index: u16, c: char, dates: Seq<Date>, notes: nat)
    requires
        index < u16::MAX,
    ensures
        next_window(
            next_window(
                WindowView::Capture { text, character_index: index },
                Action::InsertChar(c),
                dates,
                notes,
            ),
            Action::Backspace,
            dates,
            notes,
        ) == (WindowView::Capture { text, character_index: index }),
{
    assert(text.push(c).drop_last() =~= text);
}

/// The selected note stays within the archive: once its index is at most
/// the last index (or 0 for an empty archive), every action keeps it so.
pub proof fn lemma_selected_note_in_range(st: LibraryState, a: Action, dates: Seq<Date>, notes: nat)
    requires
        st.selected_note <= dec(notes as usize),
        notes <= usize::MAX,
    ensures
        next_library(st, a, dates, notes).selected_note <= dec(notes as usize),
{
}

/// The selected day stays a day of the journal: once it is one, every
/// action keeps it one.
pub proof fn lemma_selected_entry_stays(st: LibraryState, a: Action, dates: Seq<Date>, notes: nat)
    requires
        dates.contains(st.selected_entry),
    ensures
        dates.contains(next_library(st, a, dates, notes).selected_entry),
{
    lemma_prev_entry(dates, st.selected_entry);
    lemma_next_entry(dates, st.selected_entry);
}

/// In an ordered journal, stepping to the previous day and then to the next
/// one comes back to the day where it started.
pub proof fn lemma_previous_then_next(dates: Seq<Date>, sel: Date)
    requires
        dates_ordered(dates),
        dates.contains(sel),
        prev_entry(dates, sel) is Some,
    ensures
        next_entry(dates, prev_entry(dates, sel).unwrap()) == Some(sel),
{
    let p = prev_entry(dates, sel).unwrap();
    lemma_prev_entry(dates, sel);
    lemma_next_entry(dates, p);
    let k = choose|k: int| 0 <= k < dates.len() && dates[k] == sel;
    assert(p.key() < dates[k].key());
    match next_entry(dates, p) {
        Some(n) => {
            let j = choose|j: int| 0 <= j < dates.len() && dates[j] == n;
            assert(n.key() <= sel.key());
            if n.key() < sel.key() {
                assert(dates[j].key() < sel.key());
                assert(dates[j].key() <= p.key());
            }
            crate::calendar::lemma_key_injective(n, sel);
        },
        None => {
            assert(dates[k].key() <= p.key());
        },
    }
}

/// Adding a record on a day: that day's records gain it at their end, and
/// every other day stays as it was; the days stay in date order.
pub proof fn lemma_with_record(dv: Seq<(Date, Seq<RecordView>)>, d: Date, r: RecordView)
    requires
        dates_ordered(view_dates(dv)),
        d.wf(),
    ensures
        dates_ordered(view_dates(with_record(dv, d, r))),
        exists|i: int|
            0 <= i < with_record(dv, d, r).len() && #[trigger] with_record(dv, d, r)[i].0 == d
                && with_record(dv, d, r)[i].1 == (if view_dates(dv).contains(d) {
                dv[view_dates(dv).index_of(d)].1
            } else {
                Seq::<RecordView>::empty()
            }).push(r),
        forall|e: Date|
            e != d ==> (view_dates(dv).contains(e) <==> view_dates(with_record(dv, d, r)).contains(
                e,
            )),
{
    let ds = view_dates(dv);
    lemma_lower_bound(ds, d, 0);
    let p = lower_bound(ds, d, 0);
    let res = with_record(dv, d, r);
    let rs = view_dates(res);
    if p < dv.len() && dv[p].0 == d {
        assert(rs =~= ds);
        assert(ds[p] == d);
        assert(ds.contains(d));
        let q = ds.index_of(d);
        assert(ds[q] == d);
        if q != p {
            if q < p {
                assert(ds[q].key() < ds[p].key());
            } else {
                assert(ds[p].key() < ds[q].key());
            }
        }
        assert(res[p].0 == d);
    } else {
        assert(rs =~= ds.insert(p, d));
        assert(!ds.contains(d)) by {
            if ds.contains(d) {
                let q = choose|q: int| 0 <= q < ds.len() && ds[q] == d;
                if q < p {
                } else if q == p {
                } else {
                    assert(ds[p].key() < ds[q].key());
                }
            }
        }
        assert forall|i: int, j: int| 0 <= i < j < rs.len() implies (#[trigger] rs[i]).key() < (
        #[trigger] rs[j]).key() by {
            if j < p {
            } else if j == p {
            } else if i < p {
            } else if i == p {
                if p < ds.len() {
                    assert(ds[p].key() >= d.key());
                    assert(ds[p] != d);
                    if ds[p].key() == d.key() {
                        crate::calendar::lemma_key_injective(ds[p], d);
                    }
                    if j - 1 > p {
                        assert(ds[p].key() < ds[j - 1].key());
                    }
                }
            } else {
                assert(ds[i - 1].key() < ds[j - 1].key());
            }
        }
        assert(res[p].0 == d);
        assert(res[p].1 =~= Seq::<RecordView>::empty().push(r));
        assert forall|e: Date| e != d implies (ds.contains(e) <==> rs.contains(e)) by {
            if ds.contains(e) {
                let q = choose|q: int| 0 <= q < ds.len() && ds[q] == e;
                if q < p {
                    assert(rs[q] == e);
                } else {
                    assert(rs[q + 1] == e);
                }
            }
            if rs.contains(e) {
                let q = choose|q: int| 0 <= q < rs.len() && rs[q] == e;
                if q < p {
                    assert(ds[q] == e);
                } else if q > p {
                    assert(ds[q - 1] == e);
                }
            }
        }
    }
}

/// The latest of the dates that do not come after `sel`, if any.
pub open spec fn last_upto(ds: Seq<Date>, sel: Date) -> Option<Date>
    decreases ds.len(),
{
    if ds.len() == 0 {
        None
    } else {
        let p = last_upto(ds.drop_last(), sel);
        let d = ds.last();
        if d.key() <= sel.key() && (p is None || p.unwrap().key() < d.key()) {
            Some(d)
        } else {
            p
        }
    }
}

/// What `last_upto` gives: one of the dates, not after `sel`, and no date
/// that is not after `sel` comes after it; nothing only when every date
/// comes after `sel`.
pub proof fn lemma_last_upto(ds: Seq<Date>, sel: Date)
    ensures
        last_upto(ds, sel) matches Some(d) ==> {
            &&& ds.contains(d)
            &&& d.key() <= sel.key()
            &&& forall|i: int| 0 <= i < ds.len() && #[trigger] ds[i].key() <= sel.key() ==> ds[i].key()
                <= d.key()
        },
        last_upto(ds, sel) is None ==> forall|i: int| 0 <= i < ds.len() ==> #[trigger] ds[i].key()
            > sel.key(),
    decreases ds.len(),
{
    if ds.len() > 0 {
        lemma_last_upto(ds.drop_last(), sel);
        if let Some(d) = last_upto(ds.drop_last(), sel) {
            let k = choose|k: int| 0 <= k < ds.drop_last().len() && ds.drop_last()[k] == d;
            assert(ds[k] == d);
        }
        assert(ds[ds.len() - 1] == ds.last());
        assert forall|i: int| 0 <= i < ds.len() - 1 implies #[trigger] ds[i] == ds.drop_last()[i] by {}
    }
}

/// The latest journal day that does not come after `sel`.
pub fn entry_upto(days: &Vec<(Date, Day)>, sel: Date) -> (r: Option<Date>)
    ensures
        r == last_upto(day_dates(days@), sel),
{
    let ghost ds = day_dates(days@);
    let mut best: Option<Date> = None;
    let sk = sel.key_value();
    let mut i: usize = 0;
    while i < days.len()
        invariant
            i <= days.len(),
            ds == day_dates(days@),
            sk == sel.key(),
            best == last_upto(ds.take(i as int), sel),
        decreases days.len() - i,
    {
        assert(ds.take(i + 1).drop_last() =~= ds.take(i as int));
        assert(ds.take(i + 1).last() == days@[i as int].0);
        let d = days[i].0;
        let dk = d.key_value();
        if dk <= sk {
            match best {
                Some(b) => {
                    if b.key_value() < dk {
                        best = Some(d);
                    }
                },
                None => {
                    best = Some(d);
                },
            }
        }
        i = i + 1;
    }
    assert(ds.take(days.len() as int) =~= ds);
    best
}

/// The days that a list of dated records makes when it is collected into an
/// ordered map: one entry per date, in date order, a later pair for a date
/// replacing an earlier one.
pub open spec fn gathered(list: Seq<(Date, Seq<RecordView>)>) -> Seq<(Date, Seq<RecordView>)>
    decreases list.len(),
{
    if list.len() == 0 {
        Seq::empty()
    } else {
        with_day(gathered(list.drop_last()), list.last().0, list.last().1)
    }
}

/// The records of day `d`, none when the journal has no entry for it.
pub open spec fn records_on(dv: Seq<(Date, Seq<RecordView>)>, d: Date) -> Seq<RecordView> {
    let p = lower_bound(view_dates(dv), d, 0);
    if p < dv.len() && dv[p].0 == d {
        dv[p].1
    } else {
        Seq::empty()
    }
}

/// The window once the archive is loaded with `n` notes: the library selects
/// the last note.
pub open spec fn archive_loaded(p: Option<WindowView>, n: nat) -> Option<WindowView> {
    match p {
        Some(WindowView::Library(st)) => Some(
            WindowView::Library(
                LibraryState {
                    selected_note: if n == 0 {
                        0
                    } else {
                        (n - 1) as usize
                    },
                    ..st
                },
            ),
        ),
        _ => p,
    }
}

/// The window once the journal is loaded with the days `ds`: the library
/// selects the latest day that does not come after the selected one, and
/// keeps its selection when there is none.
pub open spec fn journal_loaded(p: Option<WindowView>, ds: Seq<Date>) -> Option<WindowView> {
    match p {
        Some(WindowView::Library(st)) => match last_upto(ds, st.selected_entry) {
            Some(d) => Some(WindowView::Library(LibraryState { selected_entry: d, ..st })),
            None => p,
        },
        _ => p,
    }
}

/// What `records_on` reads from ordered days: the records of the entry for
/// `e` when there is one, and none when no entry has that date.
pub proof fn lemma_records_on(dv: Seq<(Date, Seq<RecordView>)>, e: Date)
    requires
        dates_ordered(view_dates(dv)),
        e.wf(),
    ensures
        forall|q: int| 0 <= q < dv.len() && (#[trigger] dv[q]).0 == e ==> records_on(dv, e) == dv[q].1,
        (forall|q: int| 0 <= q < dv.len() ==> (#[trigger] dv[q]).0 != e) ==> records_on(dv, e)
            == Seq::<RecordView>::empty(),
{
    let ds = view_dates(dv);
    lemma_lower_bound(ds, e, 0);
    let p = lower_bound(ds, e, 0);
    assert forall|q: int| 0 <= q < dv.len() && (#[trigger] dv[q]).0 == e implies records_on(dv, e)
        == dv[q].1 by {
        assert(ds[q] == e);
        if q < p {
        } else if q > p {
            assert(ds[p].key() < ds[q].key());
        }
    }
}

/// Setting the records of a day, as an ordered map's insert does: the days
/// stay in date order, reading the day gives the records set, every other
/// day reads as before, and the dates are those before with `d`.
pub proof fn lemma_with_day(dv: Seq<(Date, Seq<RecordView>)>, d: Date, rs: Seq<RecordView>)
    requires
        dates_ordered(view_dates(dv)),
        d.wf(),
    ensures
        dates_ordered(view_dates(with_day(dv, d, rs))),
        records_on(with_day(dv, d, rs), d) == rs,
        forall|e: Date| e.wf() && e != d ==> #[trigger] records_on(with_day(dv, d, rs), e) == records_on(dv, e),
        forall|e: Date|
            #[trigger] view_dates(with_day(dv, d, rs)).contains(e) <==> (e == d || view_dates(dv).contains(e)),
{
    let ds = view_dates(dv);
    lemma_lower_bound(ds, d, 0);
    let p = lower_bound(ds, d, 0);
    let res = with_day(dv, d, rs);
    let ns = view_dates(res);
    if p < dv.len() && dv[p].0 == d {
        assert(ns =~= ds);
        assert(res[p].0 == d);
        lemma_records_on(res, d);
        assert forall|e: Date| e.wf() && e != d implies #[trigger] records_on(res, e) == records_on(dv, e) by {
            lemma_records_on(res, e);
            lemma_records_on(dv, e);
            if exists|q: int| 0 <= q < dv.len() && dv[q].0 == e {
                let q = choose|q: int| 0 <= q < dv.len() && dv[q].0 == e;
                assert(res[q] == dv[q]);
            } else {
                assert forall|q: int| 0 <= q < res.len() implies (#[trigger] res[q]).0 != e by {
                    if q != p {
                        assert(res[q] == dv[q]);
                    }
                }
            }
        }
        assert forall|e: Date| #[trigger] ns.contains(e) <==> (e == d || ds.contains(e)) by {
            if e == d {
                assert(ds[p] == d);
            }
        }
    } else {
        assert(ns =~= ds.insert(p, d));
        assert forall|i: int, j: int| 0 <= i < j < ns.len() implies (#[trigger] ns[i]).key() < (
        #[trigger] ns[j]).key() by {
            if j < p {
            } else if j == p {
            } else if i < p {
            } else if i == p {
                if p < ds.len() {
                    assert(ds[p].key() >= d.key());
                    if ds[p].key() == d.key() {
                        crate::calendar::lemma_key_injective(ds[p], d);
                    }
                    if j - 1 > p {
                        assert(ds[p].key() < ds[j - 1].key());
                    }
                }
            } else {
                assert(ds[i - 1].key() < ds[j - 1].key());
            }
        }
        assert(res[p].0 == d);
        lemma_records_on(res, d);
        assert forall|e: Date| e.wf() && e != d implies #[trigger] records_on(res, e) == records_on(dv, e) by {
            lemma_records_on(res, e);
            lemma_records_on(dv, e);
            if exists|q: int| 0 <= q < dv.len() && dv[q].0 == e {
                let q = choose|q: int| 0 <= q < dv.len() && dv[q].0 == e;
                if q < p {
                    assert(res[q] == dv[q]);
                } else {
                    assert(res[q + 1] == dv[q]);
                }
            } else {
                assert forall|q: int| 0 <= q < res.len() implies (#[trigger] res[q]).0 != e by {
                    if q < p {
                        assert(res[q] == dv[q]);
                    } else if q > p {
                        assert(res[q] == dv[q - 1]);
                    }
                }
            }
        }
        assert forall|e: Date| #[trigger] ns.contains(e) <==> (e == d || ds.contains(e)) by {
            if ds.contains(e) {
                let q = choose|q: int| 0 <= q < ds.len() && ds[q] == e;
                if q < p {
                    assert(ns[q] == e);
                } else {
                    assert(ns[q + 1] == e);
                }
            }
            if ns.contains(e) && e != d {
                let q = choose|q: int| 0 <= q < ns.len() && ns[q] == e;
                if q < p {
                    assert(ds[q] == e);
                } else if q > p {
                    assert(ds[q - 1] == e);
                }
            }
            if e == d {
                assert(ns[p] == d);
            }
        }
    }
}

/// Adding a record to a day is setting the day to its records with the new
/// one at the end.
pub proof fn lemma_with_record_sets_day(dv: Seq<(Date, Seq<RecordView>)>, d: Date, r: RecordView)
    ensures
        with_record(dv, d, r) == with_day(dv, d, records_on(dv, d).push(r)),
{
    let p = lower_bound(view_dates(dv), d, 0);
    if !(p < dv.len() && dv[p].0 == d) {
        assert(Seq::<RecordView>::empty().push(r) =~= seq![r]);
    }
}

/// Recording on a day and reading it back: the day gives its earlier
/// records with the new one at the end, and every other day reads as before.
pub proof fn lemma_record_then_read(dv: Seq<(Date, Seq<RecordView>)>, d: Date, r: RecordView, e: Date)
    requires
        dates_ordered(view_dates(dv)),
        d.wf(),
        e.wf(),
    ensures
        records_on(with_record(dv, d, r), d) == records_on(dv, d).push(r),
        e != d ==> records_on(with_record(dv, d, r), e) == records_on(dv, e),
{
    lemma_with_record_sets_day(dv, d, r);
    lemma_with_day(dv, d, records_on(dv, d).push(r));
}

/// The records last given for date `d` in a list of dated records, none
/// when the list never gives `d`.
pub open spec fn last_given(list: Seq<(Date, Seq<RecordView>)>, d: Date) -> Seq<RecordView>
    decreases list.len(),
{
    if list.len() == 0 {
        Seq::empty()
    } else if list.last().0 == d {
        list.last().1
    } else {
        last_given(list.drop_last(), d)
    }
}

/// Loading the journal: the days come out in date order, with an entry for
/// exactly the dates the list gives, each reading the records last given
/// for its date.
pub proof fn lemma_gathered(list: Seq<(Date, Seq<RecordView>)>, d: Date)
    requires
        forall|i: int| 0 <= i < list.len() ==> (#[trigger] list[i]).0.wf(),
        d.wf(),
    ensures
        dates_ordered(view_dates(gathered(list))),
        records_on(gathered(list), d) == last_given(list, d),
        view_dates(gathered(list)).contains(d) <==> exists|i: int| 0 <= i < list.len() && (#[trigger] list[i]).0 == d,
    decreases list.len(),
{
    if list.len() == 0 {
        assert(view_dates(gathered(list)) =~= Seq::<Date>::empty());
        lemma_records_on(gathered(list), d);
    } else {
        let init = list.drop_last();
        assert forall|i: int| 0 <= i < init.len() implies (#[trigger] init[i]).0.wf() by {
            assert(init[i] == list[i]);
        }
        lemma_gathered(init, d);
        let last = list.last();
        assert(list[list.len() - 1] == last);
        lemma_with_day(gathered(init), last.0, last.1);
        if exists|i: int| 0 <= i < init.len() && (#[trigger] init[i]).0 == d {
            let i = choose|i: int| 0 <= i < init.len() && (#[trigger] init[i]).0 == d;
            assert(list[i] == init[i]);
        }
        if exists|i: int| 0 <= i < list.len() && (#[trigger] list[i]).0 == d {
            let i = choose|i: int| 0 <= i < list.len() && (#[trigger] list[i]).0 == d;
            if i < list.len() - 1 {
                assert(init[i] == list[i]);
            }
        }
    }
}

/// What a key does in the window on screen: each window and each part of
/// the library has its own keys; without a window, keys do nothing.
pub open spec fn key_action(p: Option<WindowView>, key: Key) -> Option<Action> {
    match p {
        None => None,
        Some(WindowView::Capture { .. }) => capture_action_of(key),
        Some(WindowView::Library(st)) => match (st.mode, st.focus) {
            (Mode::Journal, Focus::Sidepane) => journal_browsing_action_of(key),
            (Mode::Archive, Focus::Sidepane) => archive_browsing_action_of(key),
            (_, Focus::Content) => focused_content_action_of(key),
        },
    }
}

/// Keys act by the window on screen: with the focus on the content of the
/// library, in either mode, down or `j` scrolls on, up or `k` scrolls back,
/// left or `h` goes back to the list, escape quits and other keys do
/// nothing; the journal list and the archive list use their own tables, and
/// the capture window its own.
pub proof fn lemma_key_action(st: LibraryState, text: Seq<char>, index: u16, key: Key)
    ensures
        st.focus == Focus::Content && (key.code == KeyCode::Down || key.code == KeyCode::Char('j'))
            ==> key_action(Some(WindowView::Library(st)), key) == Some(Action::ScrollbarNext),
        st.focus == Focus::Content && (key.code == KeyCode::Up || key.code == KeyCode::Char('k'))
            ==> key_action(Some(WindowView::Library(st)), key) == Some(Action::ScrollbarPrevious),
        st.focus == Focus::Content && (key.code == KeyCode::Left || key.code == KeyCode::Char('h'))
            ==> key_action(Some(WindowView::Library(st)), key) == Some(Action::ToggleFocus),
        st.focus == Focus::Content && key.code == KeyCode::Esc ==> key_action(
            Some(WindowView::Library(st)),
            key,
        ) == Some(Action::Cancel),
        st.focus == Focus::Content && !(key.code == KeyCode::Down || key.code == KeyCode::Char('j')
            || key.code == KeyCode::Up || key.code == KeyCode::Char('k') || key.code == KeyCode::Left
            || key.code == KeyCode::Char('h') || key.code == KeyCode::Esc) ==> key_action(
            Some(WindowView::Library(st)),
            key,
        ) is None,
        st.focus == Focus::Sidepane && st.mode == Mode::Journal ==> key_action(
            Some(WindowView::Library(st)),
            key,
        ) == journal_browsing_action_of(key),
        st.focus == Focus::Sidepane && st.mode == Mode::Archive ==> key_action(
            Some(WindowView::Library(st)),
            key,
        ) == archive_browsing_action_of(key),
        key_action(Some(WindowView::Capture { text, character_index: index }), key)
            == capture_action_of(key),
        key_action(None, key) is None,
{
}

/// Going down the archive list: with `n` notes, the note after the selected
/// one is selected, or the last note when there is none after it (the
/// selection moves by at most one note and stays within the archive); the
/// archive list scrolls back one row, and nothing else changes.
pub proof fn lemma_next_archive_note(st: LibraryState, dates: Seq<Date>, n: nat)
    requires
        n <= usize::MAX,
        st.selected_note < usize::MAX,
    ensures
        next_window(WindowView::Library(st), Action::NextArchiveNote, dates, n) == WindowView::Library(
            LibraryState {
                selected_note: if st.selected_note + 1 < n {
                    (st.selected_note + 1) as usize
                } else if n == 0 {
                    0
                } else {
                    (n - 1) as usize
                },
                archive_scroll: if st.archive_scroll == 0 {
                    0
                } else {
                    (st.archive_scroll - 1) as usize
                },
                ..st
            },
        ),
        next_library(st, Action::NextArchiveNote, dates, n).selected_note <= st.selected_note + 1,
        st.selected_note < n ==> next_library(st, Action::NextArchiveNote, dates, n).selected_note
            >= st.selected_note,
        n > 0 ==> next_library(st, Action::NextArchiveNote, dates, n).selected_note < n,
{
}

/// Going up the archive list: the note before the selected one is selected,
/// or the first stays selected; the archive list scrolls on one row, and
/// nothing else changes.
pub proof fn lemma_previous_archive_note(st: LibraryState, dates: Seq<Date>, n: nat)
    requires
        st.archive_scroll < usize::MAX,
    ensures
        next_window(WindowView::Library(st), Action::PreviousArchiveNote, dates, n)
            == WindowView::Library(
            LibraryState {
                selected_note: if st.selected_note == 0 {
                    0
                } else {
                    (st.selected_note - 1) as usize
                },
                archive_scroll: (st.archive_scroll + 1) as usize,
                ..st
            },
        ),
{
}

/// Loading `n` notes selects the last of them in the library window (the
/// first place when there are none) and changes nothing else; other windows
/// stay as they are.
pub proof fn lemma_archive_loaded(p: Option<WindowView>, n: nat)
    requires
        n <= usize::MAX,
    ensures
        p matches Some(WindowView::Library(st)) ==> archive_loaded(p, n) == Some(
            WindowView::Library(
                LibraryState {
                    selected_note: if n == 0 {
                        0
                    } else {
                        (n - 1) as usize
                    },
                    ..st
                },
            ),
        ),
        p matches Some(WindowView::Library(_)) ==> (n >= 1 ==> (archive_loaded(p, n) matches Some(
            WindowView::Library(s2),
        ) && s2.selected_note + 1 == n)),
        !(p matches Some(WindowView::Library(_))) ==> archive_loaded(p, n) == p,
{
}

/// Loading the journal with the days `ds`: when some day does not come
/// after the selected date, the latest such day becomes selected (it is one
/// of the days, not after the old selection, and no day that is not after
/// the old selection comes after it); when every day comes after it, the
/// selection stays. Nothing else of the window changes, and other windows
/// stay as they are.
pub proof fn lemma_journal_loaded(p: Option<WindowView>, ds: Seq<Date>)
    ensures
        p matches Some(WindowView::Library(st)) ==> ((exists|i: int|
            0 <= i < ds.len() && #[trigger] ds[i].key() <= st.selected_entry.key()) ==> (journal_loaded(
            p,
            ds,
        ) matches Some(WindowView::Library(s2)) && {
            &&& ds.contains(s2.selected_entry)
            &&& s2.selected_entry.key() <= st.selected_entry.key()
            &&& forall|i: int|
                0 <= i < ds.len() && #[trigger] ds[i].key() <= st.selected_entry.key() ==> ds[i].key()
                    <= s2.selected_entry.key()
            &&& s2 == LibraryState { selected_entry: s2.selected_entry, ..st }
        })),
        p matches Some(WindowView::Library(st)) ==> ((forall|i: int|
            0 <= i < ds.len() ==> #[trigger] ds[i].key() > st.selected_entry.key()) ==> journal_loaded(
            p,
            ds,
        ) == p),
        !(p matches Some(WindowView::Library(_))) ==> journal_loaded(p, ds) == p,
{
    if let Some(WindowView::Library(st)) = p {
        lemma_last_upto(ds, st.selected_entry);
        if let Some(d) = last_upto(ds, st.selected_entry) {
            let k = choose|k: int| 0 <= k < ds.len() && ds[k] == d;
            assert(ds[k].key() <= st.selected_entry.key());
        }
    }
}

/// Scrolling and switching in the library window: scrolling on or back
/// moves the focused pane's scroll offset (the content's, or the journal
/// list's while a list has the focus) by one row, never below the top;
/// switching the mode flips journal and archive; switching the focus flips
/// list and content, and going back to the list puts the content at its top;
/// each changes nothing else.
pub proof fn lemma_library_moves(st: LibraryState, dates: Seq<Date>, n: nat)
    requires
        st.content_scroll < usize::MAX,
        st.journal_scroll < usize::MAX,
    ensures
        next_library(st, Action::ScrollbarNext, dates, n) == (if st.focus == Focus::Content {
            LibraryState { content_scroll: (st.content_scroll + 1) as usize, ..st }
        } else {
            LibraryState { journal_scroll: (st.journal_scroll + 1) as usize, ..st }
        }),
        next_library(st, Action::ScrollbarPrevious, dates, n) == (if st.focus == Focus::Content {
            LibraryState {
                content_scroll: if st.content_scroll == 0 {
                    0
                } else {
                    (st.content_scroll - 1) as usize
                },
                ..st
            }
        } else {
            LibraryState {
                journal_scroll: if st.journal_scroll == 0 {
                    0
                } else {
                    (st.journal_scroll - 1) as usize
                },
                ..st
            }
        }),
        next_library(st, Action::ToggleMode, dates, n) == (LibraryState {
            mode: if st.mode == Mode::Journal {
                Mode::Archive
            } else {
                Mode::Journal
            },
            ..st
        }),
        next_library(st, Action::ToggleFocus, dates, n) == (if st.focus == Focus::Content {
            LibraryState { focus: Focus::Sidepane, content_scroll: 0, ..st }
        } else {
            LibraryState { focus: Focus::Content, ..st }
        }),
        next_library(st, Action::Cancel, dates, n) == st,
        next_library(st, Action::CommitCapture, dates, n) == st,
        next_library(st, Action::Backspace, dates, n) == st,
        forall|c: char| #[trigger] next_library(st, Action::InsertChar(c), dates, n) == st,
{
}

/// Stepping through the journal days: going to the previous day selects the
/// latest day before the selected one and scrolls the list on one row, and
/// going to the next day selects the earliest day after it and scrolls the
/// list back one row; with no such day nothing changes; nothing else
/// changes either way.
pub proof fn lemma_journal_steps(st: LibraryState, dates: Seq<Date>, n: nat)
    requires
        st.journal_scroll < usize::MAX,
    ensures
        ({
            let r = next_library(st, Action::PreviousJournalEntry, dates, n);
            ||| (forall|i: int| 0 <= i < dates.len() ==> #[trigger] dates[i].key() >= st.selected_entry.key())
                && r == st
            ||| {
                &&& dates.contains(r.selected_entry)
                &&& r.selected_entry.key() < st.selected_entry.key()
                &&& forall|i: int|
                    0 <= i < dates.len() && #[trigger] dates[i].key() < st.selected_entry.key()
                        ==> dates[i].key() <= r.selected_entry.key()
                &&& r == LibraryState {
                    selected_entry: r.selected_entry,
                    journal_scroll: (st.journal_scroll + 1) as usize,
                    ..st
                }
            }
        }),
        ({
            let r = next_library(st, Action::NextJournalEntry, dates, n);
            ||| (forall|i: int| 0 <= i < dates.len() ==> #[trigger] dates[i].key() <= st.selected_entry.key())
                && r == st
            ||| {
                &&& dates.contains(r.selected_entry)
                &&& st.selected_entry.key() < r.selected_entry.key()
                &&& forall|i: int|
                    0 <= i < dates.len() && st.selected_entry.key() < #[trigger] dates[i].key()
                        ==> r.selected_entry.key() <= dates[i].key()
                &&& r == LibraryState {
                    selected_entry: r.selected_entry,
                    journal_scroll: if st.journal_scroll == 0 {
                        0
                    } else {
                        (st.journal_scroll - 1) as usize
                    },
                    ..st
                }
            }
        }),
{
    lemma_prev_entry(dates, st.selected_entry);
    lemma_next_entry(dates, st.selected_entry);
}

/// Typing in the capture window: a character goes at the end of the text
/// and the cursor moves one place on; backspace takes the last character
/// off, if any, and moves the cursor one place back, never before the
/// start; other actions leave the window as it is; and the library window
/// changes by its own rules.
pub proof fn lemma_capture_steps(text: Seq<char>, index: u16, a: Action, dates: Seq<Date>, n: nat)
    requires
        index < u16::MAX,
    ensures
        a matches Action::InsertChar(c) ==> next_window(
            WindowView::Capture { text, character_index: index },
            a,
            dates,
            n,
        ) == (WindowView::Capture { text: text.push(c), character_index: (index + 1) as u16 }),
        a == Action::Backspace ==> next_window(
            WindowView::Capture { text, character_index: index },
            a,
            dates,
            n,
        ) == (WindowView::Capture {
            text: if text.len() == 0 {
                text
            } else {
                text.take(text.len() - 1)
            },
            character_index: if index == 0 {
                0
            } else {
                (index - 1) as u16
            },
        }),
        !(a is InsertChar || a == Action::Backspace) ==> next_window(
            WindowView::Capture { text, character_index: index },
            a,
            dates,
            n,
        ) == (WindowView::Capture { text, character_index: index }),
        forall|st: LibraryState|
            #[trigger] next_window(WindowView::Library(st), a, dates, n) == WindowView::Library(
                next_library(st, a, dates, n),
            ),
{
    if text.len() > 0 {
        assert(text.drop_last() =~= text.take(text.len() - 1));
    }
}

/// Committing the capture window: when its text holds more than
/// whitespace, reading `today` gives its earlier records and then the
/// trimmed text at `now`, and every other day reads as before; a blank
/// text, or no capture window, leaves the journal as it was.
pub proof fn lemma_commit(
    dv: Seq<(Date, Seq<RecordView>)>,
    text: Seq<char>,
    index: u16,
    today: Date,
    now: Time,
    e: Date,
)
    requires
        dates_ordered(view_dates(dv)),
        today.wf(),
        e.wf(),
    ensures
        crate::text::spec_trim(text).len() > 0 ==> records_on(
            committed(dv, Some(WindowView::Capture { text, character_index: index }), today, now),
            today,
        ) == records_on(dv, today).push(RecordView { at: now, text: crate::text::spec_trim(text) }),
        e != today ==> records_on(
            committed(dv, Some(WindowView::Capture { text, character_index: index }), today, now),
            e,
        ) == records_on(dv, e),
        crate::text::spec_trim(text).len() == 0 ==> committed(
            dv,
            Some(WindowView::Capture { text, character_index: index }),
            today,
            now,
        ) == dv,
        forall|st: LibraryState|
            #[trigger] committed(dv, Some(WindowView::Library(st)), today, now) == dv,
        committed(dv, None, today, now) == dv,
{
    lemma_record_then_read(dv, today, RecordView { at: now, text: crate::text::spec_trim(text) }, e);
}

/// The whole state of the interface.
pub struct App {
    /// The journal: one entry per day, in date order.
    pub days: Vec<(Date, Day)>,
    /// The archived notes.
    pub notes: Vec<Note>,
    pub note_cursor: usize,
    /// The window on screen, if any.
    pub pane: Option<Window>,
    pub should_quit: bool,
    pub theme: Theme,
}

/// What committing the capture window does to the days: its trimmed text,
/// unless empty, becomes a record of `today` at `now`.
pub open spec fn committed(
    dv: Seq<(Date, Seq<RecordView>)>,
    pane: Option<WindowView>,
    today: Date,
    now: Time,
) -> Seq<(Date, Seq<RecordView>)> {
    match pane {
        Some(WindowView::Capture { text, .. }) => if crate::text::spec_trim(text).len() > 0 {
            with_record(dv, today, RecordView { at: now, text: crate::text::spec_trim(text) })
        } else {
            dv
        },
        _ => dv,
    }
}

/// The library window as the application opens it, on the given day.
pub open spec fn opening_library(today: Date) -> LibraryState {
    LibraryState {
        selected_entry: today,
        selected_note: 0,
        mode: Mode::Journal,
        focus: Focus::Sidepane,
        archive_scroll: 0,
        journal_scroll: 0,
        content_scroll: 0,
    }
}

impl App {
    /// The journal days are in date order, one entry per day.
    pub open spec fn wf(&self) -> bool {
        dates_ordered(day_dates(self.days@))
    }

    /// A new state on the given day: no days or notes loaded, the library
    /// window open on the journal, the theme named by the configuration.
    pub fn new_on(config: &crate::config::Config, today: Date) -> (app: App)
        ensures
            app.wf(),
            app.days@.len() == 0,
            app.notes@.len() == 0,
            app.note_cursor == 0,
            pane_view(app.pane) == Some(WindowView::Library(opening_library(today))),
            !app.should_quit,
            app.theme == crate::theme::spec_diane(),
    {
        App {
            days: Vec::new(),
            notes: Vec::new(),
            note_cursor: 0,
            pane: Some(
                Window::Library {
                    selected_entry: today,
                    selected_note: 0,
                    mode: Mode::Journal,
                    focus: Focus::Sidepane,
                    archive_scroll: 0,
                    journal_scroll: 0,
                    content_scroll: 0,
                },
            ),
            should_quit: false,
            theme: Theme::named(config.theme.as_str()),
        }
    }

    /// A new state on today's date by the local clock.
    pub fn new(config: &crate::config::Config) -> (app: App)
        ensures
            app.wf(),
            app.days@.len() == 0,
            app.notes@.len() == 0,
            app.note_cursor == 0,
            exists|d: Date| d.wf() && pane_view(app.pane) == Some(
                WindowView::Library(opening_library(d)),
            ),
            !app.should_quit,
            app.theme == crate::theme::spec_diane(),
    {
        let d = today();
        let app = App::new_on(config, d);
        assert(d.wf() && pane_view(app.pane) == Some(WindowView::Library(opening_library(d))));
        app
    }

    /// Whether the counters that the action increments stay within their
    /// integer types, as `update` needs.
    pub fn can_update(&self, action: Action) -> (b: bool)
        ensures
            b == (self.pane matches Some(w) ==> step_in_range(w@, action, day_dates(self.days@))),
    {
        match &self.pane {
            None => true,
            Some(Window::Library { selected_entry, selected_note, focus, archive_scroll, journal_scroll, content_scroll, .. }) => {
                match action {
                    Action::ScrollbarNext => match focus {
                        Focus::Content => *content_scroll < usize::MAX,
                        Focus::Sidepane => *journal_scroll < usize::MAX,
                    },
                    Action::PreviousJournalEntry => {
                        previous_entry(&self.days, *selected_entry).is_none() || *journal_scroll < usize::MAX
                    },
                    Action::PreviousArchiveNote => *archive_scroll < usize::MAX,
                    Action::NextArchiveNote => *selected_note < usize::MAX,
                    _ => true,
                }
            },
            Some(Window::Capture { character_index, .. }) => match action {
                Action::InsertChar(_) => *character_index < u16::MAX,
                _ => true,
            },
        }
    }

    /// What a key does in the window on screen.
    pub fn to_action(&self, key: Key) -> (r: Option<Action>)
        ensures
            r == key_action(pane_view(self.pane), key),
    {
        match &self.pane {
            None => None,
            Some(Window::Capture { .. }) => capture_action(key),
            Some(Window::Library { mode, focus, .. }) => match (mode, focus) {
                (Mode::Journal, Focus::Sidepane) => journal_browsing_sidepane_action(key),
                (Mode::Journal, Focus::Content) => journal_focused_record_action(key),
                (Mode::Archive, Focus::Sidepane) => archive_browsing_sidepane_action(key),
                (Mode::Archive, Focus::Content) => archive_focused_record_action(key),
            },
        }
    }

    /// Loads the archive: the notes become the given ones, and the library
    /// window selects the last of them.
    pub fn retrieve_archive(&mut self, notes: Vec<Note>)
        ensures
            final(self).notes@ == notes@,
            pane_view(final(self).pane) == archive_loaded(pane_view(old(self).pane), notes@.len()),
            final(self).days@ == old(self).days@,
            final(self).note_cursor == old(self).note_cursor,
            final(self).should_quit == old(self).should_quit,
            final(self).theme == old(self).theme,
    {
        let n = notes.len();
        self.notes = notes;
        let pane = self.pane.take();
        self.pane = match pane {
            Some(
                Window::Library {
                    selected_entry,
                    selected_note: _,
                    mode,
                    focus,
                    archive_scroll,
                    journal_scroll,
                    content_scroll,
                },
            ) => Some(
                Window::Library {
                    selected_entry,
                    selected_note: n.saturating_sub(1),
                    mode,
                    focus,
                    archive_scroll,
                    journal_scroll,
                    content_scroll,
                },
            ),
            other => other,
        };
    }

    /// Loads the journal from the days read from its files: they are
    /// collected by date, a later day of the same date replacing an earlier
    /// one, and the library window selects the latest day that does not
    /// come after the selected one.
    pub fn retrieve_journal(&mut self, days: Vec<(Date, Day)>)
        requires
            forall|i: int| 0 <= i < days@.len() ==> (#[trigger] days@[i]).0.wf(),
        ensures
            final(self).wf(),
            days_view(final(self).days@) == gathered(days_view(days@)),
            pane_view(final(self).pane) == journal_loaded(
                pane_view(old(self).pane),
                day_dates(final(self).days@),
            ),
            final(self).notes == old(self).notes,
            final(self).note_cursor == old(self).note_cursor,
            final(self).should_quit == old(self).should_quit,
            final(self).theme == old(self).theme,
    {
        let ghost whole = days_view(days@);
        let mut rest = days;
        let mut out: Vec<(Date, Day)> = Vec::new();
        let ghost mut k: int = 0;
        while rest.len() > 0
            invariant
                dates_ordered(day_dates(out@)),
                0 <= k <= whole.len(),
                rest@.len() == whole.len() - k,
                days_view(rest@) == whole.subrange(k, whole.len() as int),
                forall|i: int| 0 <= i < rest@.len() ==> (#[trigger] rest@[i]).0.wf(),
                days_view(out@) == gathered(whole.take(k)),
            decreases rest.len(),
        {
            let ghost before = rest@;
            let (d, day) = rest.remove(0);
            proof {
                assert(days_view(before)[0] == whole[k]);
                assert(whole.take(k + 1).drop_last() =~= whole.take(k));
                assert(whole.take(k + 1).last() == whole[k]);
                assert(before[0].0.wf());
            }
            set_day(&mut out, d, day);
            proof {
                k = k + 1;
                assert(rest@ =~= before.subrange(1, before.len() as int));
                assert(days_view(rest@) =~= whole.subrange(k, whole.len() as int)) by {
                    assert forall|i: int| 0 <= i < rest@.len() implies days_view(rest@)[i] == whole[k + i] by {
                        assert(rest@[i] == before[i + 1]);
                        assert(days_view(before)[i + 1] == whole[k + i]);
                    }
                }
                assert forall|i: int| 0 <= i < rest@.len() implies (#[trigger] rest@[i]).0.wf() by {
                    assert(rest@[i] == before[i + 1]);
                }
            }
        }
        assert(whole.take(whole.len() as int) =~= whole);
        self.days = out;
        let pane = self.pane.take();
        self.pane = match pane {
            Some(
                Window::Library {
                    selected_entry,
                    selected_note,
                    mode,
                    focus,
                    archive_scroll,
                    journal_scroll,
                    content_scroll,
                },
            ) => {
                let selected = match entry_upto(&self.days, selected_entry) {
                    Some(d) => d,
                    None => selected_entry,
                };
                Some(
                    Window::Library {
                        selected_entry: selected,
                        selected_note,
                        mode,
                        focus,
                        archive_scroll,
                        journal_scroll,
                        content_scroll,
                    },
                )
            },
            other => other,
        };
    }

    /// The day `today` of the journal, to read and change; its entry is made
    /// when the journal has none.
    pub fn today_mut_at(&mut self, today: Date) -> (day: &mut Day)
        requires
            old(self).wf(),
            today.wf(),
        ensures
            final(self).wf(),
            record_views(day.records@) == records_on(days_view(old(self).days@), today),
            days_view(final(self).days@) == with_day(
                days_view(old(self).days@),
                today,
                record_views(final(day).records@),
            ),
            final(self).pane == old(self).pane,
            final(self).notes == old(self).notes,
            final(self).note_cursor == old(self).note_cursor,
            final(self).should_quit == old(self).should_quit,
            final(self).theme == old(self).theme,
    {
        let (p, found) = locate_day(&self.days, today);
        proof {
            lemma_days_view_dates(self.days@);
        }
        if !found {
            self.days.insert(p, (today, Day::default()));
            proof {
                let ods = day_dates(old(self).days@);
                let nds = day_dates(self.days@);
                assert(nds =~= ods.insert(p as int, today));
                assert forall|i: int, j: int| 0 <= i < j < nds.len() implies (#[trigger] nds[i]).key()
                    < (#[trigger] nds[j]).key() by {
                    if j < p {
                    } else if j == p {
                        assert(ods[i] == old(self).days@[i].0);
                    } else if i < p {
                        assert(ods[j - 1] == old(self).days@[j - 1].0);
                        assert(ods[i] == old(self).days@[i].0);
                    } else if i == p {
                        assert(ods[j - 1] == old(self).days@[j - 1].0);
                    } else {
                        assert(ods[i - 1].key() < ods[j - 1].key());
                    }
                }
            }
        }
        proof {
            let ds = day_dates(self.days@);
            assert forall|i: int| 0 <= i < self.days@.len() implies (#[trigger] self.days@[i]).0.wf() by {
                assert(ds[i] == self.days@[i].0);
            }
            assert forall|i: int, j: int| 0 <= i < j < self.days@.len() implies (
            #[trigger] self.days@[i]).0.key() < (#[trigger] self.days@[j]).0.key() by {
                assert(ds[i] == self.days@[i].0);
                assert(ds[j] == self.days@[j].0);
            }
        }
        &mut self.days[p].1
    }

    /// The selected note, to read and change; nothing when the cursor is past
    /// the notes.
    pub fn selected_note_mut(&mut self) -> (r: Option<&mut Note>)
        ensures
            r is Some <==> old(self).note_cursor < old(self).notes@.len(),
            r matches Some(n) ==> *n == old(self).notes@[old(self).note_cursor as int]
                && final(self).notes@ == old(self).notes@.update(old(self).note_cursor as int, *final(n)),
            r is None ==> final(self).notes@ == old(self).notes@,
            final(self).days == old(self).days,
            final(self).pane == old(self).pane,
            final(self).note_cursor == old(self).note_cursor,
            final(self).should_quit == old(self).should_quit,
            final(self).theme == old(self).theme,
    {
        let c = self.note_cursor;
        if c < self.notes.len() {
            Some(&mut self.notes[c])
        } else {
            None
        }
    }

    /// Saves the selected note on `today`: the note's update date becomes
    /// `today`, and the file that saving writes, its name and its text,
    /// comes back. Nothing comes back when no note is selected, or when the
    /// note has no slug or no title.
    pub fn save_current_note_at(&mut self, today: Date) -> (r: Option<(String, String)>)
        requires
            today.wf(),
            old(self).note_cursor < old(self).notes@.len() ==> old(self).notes@[old(self).note_cursor as int].created.wf(),
        ensures
            final(self).notes@.len() == old(self).notes@.len(),
            forall|i: int|
                0 <= i < old(self).notes@.len() && i != old(self).note_cursor
                    ==> #[trigger] final(self).notes@[i] == old(self).notes@[i],
            old(self).note_cursor < old(self).notes@.len()
                ==> final(self).notes@[old(self).note_cursor as int]@ == (NoteView {
                    updated: today,
                    ..old(self).notes@[old(self).note_cursor as int]@
                }),
            r is Some <==> {
                &&& old(self).note_cursor < old(self).notes@.len()
                &&& old(self).notes@[old(self).note_cursor as int].slug@.len() > 0
                &&& old(self).notes@[old(self).note_cursor as int].title@.len() > 0
            },
            r matches Some(f) ==> {
                &&& f.0@ == archive_file_name_of(old(self).notes@[old(self).note_cursor as int].slug@)
                &&& f.1@ == note_text(final(self).notes@[old(self).note_cursor as int]@)
            },
            final(self).days == old(self).days,
            final(self).pane == old(self).pane,
            final(self).note_cursor == old(self).note_cursor,
            final(self).should_quit == old(self).should_quit,
            final(self).theme == old(self).theme,
    {
        let c = self.note_cursor;
        if c >= self.notes.len() {
            return None;
        }
        let mut note = self.notes.remove(c);
        note.updated = today;
        let r = archive_entry(&note);
        self.notes.insert(c, note);
        r
    }

    /// Commits the capture window: its trimmed text, unless empty, becomes a
    /// record of `today` at `now`.
    pub fn commit_capture_at(&mut self, today: Date, now: Time)
        requires
            old(self).wf(),
            today.wf(),
        ensures
            final(self).wf(),
            days_view(final(self).days@) == committed(
                days_view(old(self).days@),
                pane_view(old(self).pane),
                today,
                now,
            ),
            final(self).pane == old(self).pane,
            final(self).notes == old(self).notes,
            final(self).note_cursor == old(self).note_cursor,
            final(self).should_quit == old(self).should_quit,
            final(self).theme == old(self).theme,
    {
        let trimmed = match &self.pane {
            Some(Window::Capture { text, .. }) => Some(crate::text::trim(text.as_str())),
            _ => None,
        };
        match trimmed {
            Some(text) => {
                if text.as_str().is_empty() {
                    return ;
                }
                add_day_record(&mut self.days, today, Record { at: now, text });
            },
            None => {},
        }
    }

    /// Commits the capture window on the local clock's date and time.
    pub fn commit_capture(&mut self)
        requires
            old(self).wf(),
        ensures
            final(self).wf(),
            exists|d: Date, t: Time|
                d.wf() && t.wf() && days_view(final(self).days@) == committed(
                    days_view(old(self).days@),
                    pane_view(old(self).pane),
                    d,
                    t,
                ),
            final(self).pane == old(self).pane,
            final(self).notes == old(self).notes,
            final(self).note_cursor == old(self).note_cursor,
            final(self).should_quit == old(self).should_quit,
            final(self).theme == old(self).theme,
    {
        let d = today();
        let t = now();
        self.commit_capture_at(d, t);
    }

    /// Adds a record with the given text to the day `today` at `now`.
    pub fn push_record_at(&mut self, text: String, today: Date, now: Time)
        requires
            old(self).wf(),
            today.wf(),
        ensures
            final(self).wf(),
            days_view(final(self).days@) == with_record(
                days_view(old(self).days@),
                today,
                RecordView { at: now, text: text@ },
            ),
            final(self).pane == old(self).pane,
            final(self).notes == old(self).notes,
            final(self).should_quit == old(self).should_quit,
    {
        add_day_record(&mut self.days, today, Record { at: now, text });
    }

    /// Adds a record with the given text to today, at the current time, by
    /// the local clock.
    pub fn push_record(&mut self, text: String)
        requires
            old(self).wf(),
        ensures
            final(self).wf(),
            exists|d: Date, t: Time|
                d.wf() && t.wf() && days_view(final(self).days@) == with_record(
                    days_view(old(self).days@),
                    d,
                    RecordView { at: t, text: text@ },
                ),
            final(self).pane == old(self).pane,
            final(self).notes == old(self).notes,
            final(self).should_quit == old(self).should_quit,
    {
        let d = today();
        let t = now();
        let ghost tv = text@;
        self.push_record_at(text, d, t);
        assert(d.wf() && t.wf() && days_view(self.days@) == with_record(
            days_view(old(self).days@),
            d,
            RecordView { at: t, text: tv },
        ));
    }

    /// Applies an action on the given day and time: the window changes as
    /// `next_window` says, cancelling and committing ask to quit, and
    /// committing adds the captured text to the journal. Returns whether the
    /// journal needs writing.
    pub fn update_at(&mut self, action: Action, today: Date, now: Time) -> (flush: bool)
        requires
            old(self).wf(),
            today.wf(),
            old(self).pane matches Some(w) ==> step_in_range(
                w@,
                action,
                day_dates(old(self).days@),
            ),
        ensures
            final(self).wf(),
            flush == (action == Action::CommitCapture),
            pane_view(final(self).pane) == match pane_view(old(self).pane) {
                Some(w) => Some(
                    next_window(w, action, day_dates(old(self).days@), old(self).notes@.len()),
                ),
                None => None,
            },
            days_view(final(self).days@) == if action == Action::CommitCapture {
                committed(days_view(old(self).days@), pane_view(old(self).pane), today, now)
            } else {
                days_view(old(self).days@)
            },
            final(self).should_quit == (old(self).should_quit || action == Action::Cancel
                || action == Action::CommitCapture),
            final(self).notes == old(self).notes,
            final(self).note_cursor == old(self).note_cursor,
            final(self).theme == old(self).theme,
    {
        let pane = self.pane.take();
        let notes = self.notes.len();
        self.pane = match pane {
            Some(w) => Some(step_window(w, action, &self.days, notes)),
            None => None,
        };
        match action {
            Action::Cancel => {
                self.should_quit = true;
                false
            },
            Action::CommitCapture => {
                self.commit_capture_at(today, now);
                self.should_quit = true;
                true
            },
            _ => false,
        }
    }
}

/// Applies an action to the state, on the local clock's date and time when
/// it commits a capture; see `App::update_at`. Returns whether the journal
/// needs writing.
pub fn update(app: &mut App, action: Action) -> (flush: bool)
    requires
        old(app).wf(),
        old(app).pane matches Some(w) ==> step_in_range(w@, action, day_dates(old(app).days@)),
    ensures
        final(app).wf(),
        flush == (action == Action::CommitCapture),
        pane_view(final(app).pane) == match pane_view(old(app).pane) {
            Some(w) => Some(next_window(w, action, day_dates(old(app).days@), old(app).notes@.len())),
            None => None,
        },
        action != Action::CommitCapture ==> days_view(final(app).days@) == days_view(
            old(app).days@,
        ),
        action == Action::CommitCapture ==> exists|d: Date, t: Time|
            d.wf() && t.wf() && days_view(final(app).days@) == committed(
                days_view(old(app).days@),
                pane_view(old(app).pane),
                d,
                t,
            ),
        final(app).should_quit == (old(app).should_quit || action == Action::Cancel || action
            == Action::CommitCapture),
        final(app).notes == old(app).notes,
        final(app).note_cursor == old(app).note_cursor,
        final(app).theme == old(app).theme,
{
    let d = today();
    let t = now();
    let flush = app.update_at(action, d, t);
    if action == Action::CommitCapture {
        assert(d.wf() && t.wf() && days_view(app.days@) == committed(
            days_view(old(app).days@),
            pane_view(old(app).pane),
            d,
            t,
        ));
    }
    flush
}

} // verus!
