//! What the windows show: the look of the library's panels, the rows of its
//! lists, the titles, and how far their contents scroll. The terminal front
//! end lays these out and draws them.

use vstd::prelude::*;

use crate::app::{day_dates, dates_ordered, Focus, Mode};
use crate::calendar::{date_text, format_date, format_time, time_text, Date, Time};
use crate::entry::{push_str_chars, Day, Note};
use crate::text::{chars_of, decimal, decimal_chars, string_of};
use crate::theme::{fg_style, Color, StyleSpec, Theme};
use crate::ui::{footer_instructions, footer_text};
use vstd::string::StringSliceAdditionalSpecFns;
use vstd::utf8::{decode_utf8, encode_utf8, is_ascii_chars, is_char_boundary};

verus! {

/// The panels of the library window.
#[derive(Clone, Copy, Debug, PartialEq, Eq, Structural)]
pub enum Pane {
    JournalList,
    ArchiveList,
    Content,
}

/// How the library window looks for a mode and focus.
pub struct LibraryLook {
    pub journal_focused: bool,
    pub archive_focused: bool,
    pub content_focused: bool,
    /// The colours of the dividers round each panel.
    pub journal_divider: Color,
    pub archive_divider: Color,
    pub content_divider: Color,
    /// The panels in the order they are drawn, the focused one last, so
    /// that its dividers stay on top where panels meet.
    pub drawn: (Pane, Pane, Pane),
    /// The hint line at the bottom.
    pub footer: &'static str,
}

/// The colour of a panel's divider.
pub open spec fn divider_of(focused: bool, theme: Theme) -> Color {
    if focused {
        theme.divider_focus
    } else {
        theme.divider
    }
}

/// The panels in drawing order: the ones without focus in their place,
/// journal list, archive list, content, then the focused one.
pub open spec fn drawing_order(mode: Mode, focus: Focus) -> (Pane, Pane, Pane) {
    match (focus, mode) {
        (Focus::Sidepane, Mode::Journal) => (Pane::ArchiveList, Pane::Content, Pane::JournalList),
        (Focus::Sidepane, Mode::Archive) => (Pane::JournalList, Pane::Content, Pane::ArchiveList),
        (Focus::Content, _) => (Pane::JournalList, Pane::ArchiveList, Pane::Content),
    }
}

/// The drawing order puts the focused panel last, on top, and draws the
/// other two first in their own order: journal list, archive list, content.
pub proof fn lemma_drawing_order(mode: Mode, focus: Focus)
    ensures
        focus == Focus::Content ==> drawing_order(mode, focus) == (
            Pane::JournalList,
            Pane::ArchiveList,
            Pane::Content,
        ),
        focus == Focus::Sidepane && mode == Mode::Journal ==> drawing_order(mode, focus) == (
            Pane::ArchiveList,
            Pane::Content,
            Pane::JournalList,
        ),
        focus == Focus::Sidepane && mode == Mode::Archive ==> drawing_order(mode, focus) == (
            Pane::JournalList,
            Pane::Content,
            Pane::ArchiveList,
        ),
{
}

/// The focused panel's dividers take the focus colour and the others the
/// plain divider colour.
pub proof fn lemma_dividers(focused: bool, theme: Theme)
    ensures
        focused ==> divider_of(focused, theme) == theme.divider_focus,
        !focused ==> divider_of(focused, theme) == theme.divider,
{
}

/// The look of the library window in the given mode and focus.
pub fn library_look(mode: Mode, focus: Focus, theme: &Theme) -> (look: LibraryLook)
    ensures
        look.journal_focused == (mode == Mode::Journal && focus == Focus::Sidepane),
        look.archive_focused == (mode == Mode::Archive && focus == Focus::Sidepane),
        look.content_focused == (focus == Focus::Content),
        look.journal_divider == divider_of(look.journal_focused, *theme),
        look.archive_divider == divider_of(look.archive_focused, *theme),
        look.content_divider == divider_of(look.content_focused, *theme),
        look.drawn == drawing_order(mode, focus),
        look.footer@ == footer_text(mode, focus),
{
    let journal_focused = mode == Mode::Journal && focus == Focus::Sidepane;
    let archive_focused = mode == Mode::Archive && focus == Focus::Sidepane;
    let content_focused = focus == Focus::Content;
    let divider = |focused: bool| -> (c: Color)
        ensures
            c == divider_of(focused, *theme),
        {
            if focused {
                theme.divider_focus
            } else {
                theme.divider
            }
        };
    let drawn = match (focus, mode) {
        (Focus::Sidepane, Mode::Journal) => (Pane::ArchiveList, Pane::Content, Pane::JournalList),
        (Focus::Sidepane, Mode::Archive) => (Pane::JournalList, Pane::Content, Pane::ArchiveList),
        (Focus::Content, _) => (Pane::JournalList, Pane::ArchiveList, Pane::Content),
    };
    LibraryLook {
        journal_focused,
        archive_focused,
        content_focused,
        journal_divider: divider(journal_focused),
        archive_divider: divider(archive_focused),
        content_divider: divider(content_focused),
        drawn,
        footer: footer_instructions(mode, focus),
    }
}

/// What the content panel of the library window shows: the records of the
/// journal day at an index, or the note at an index.
#[derive(Clone, Copy, Debug, PartialEq, Eq, Structural)]
pub enum Content {
    Day(usize),
    Note(usize),
}

/// What the content panel shows: with the focus on it, the selected day of
/// the journal when the journal has that day, or the selected note of the
/// archive; nothing while a list has the focus.
pub fn content_choice(
    mode: Mode,
    focus: Focus,
    days: &Vec<(Date, Day)>,
    selected_entry: Date,
    selected_note: usize,
    notes_len: usize,
) -> (c: Option<Content>)
    requires
        mode == Mode::Archive && focus == Focus::Content ==> selected_note < notes_len,
    ensures
        (c matches Some(Content::Day(_))) <==> (focus == Focus::Content && mode == Mode::Journal
            && day_dates(days@).contains(selected_entry)),
        c matches Some(Content::Day(i)) ==> i < days@.len() && days@[i as int].0 == selected_entry,
        (c == Some(Content::Note(selected_note))) <==> (focus == Focus::Content && mode
            == Mode::Archive),
        c matches Some(Content::Note(j)) ==> j == selected_note && j < notes_len,
{
    match (focus, mode) {
        (Focus::Sidepane, _) => None,
        (Focus::Content, Mode::Archive) => Some(Content::Note(selected_note)),
        (Focus::Content, Mode::Journal) => {
            let ghost ds = day_dates(days@);
            let mut i: usize = 0;
            while i < days.len()
                invariant
                    i <= days.len(),
                    ds == day_dates(days@),
                    focus == Focus::Content,
                    mode == Mode::Journal,
                    forall|k: int| 0 <= k < i ==> days@[k].0 != selected_entry,
                decreases days.len() - i,
            {
                if days[i].0 == selected_entry {
                    assert(ds[i as int] == selected_entry);
                    assert(ds.contains(selected_entry));
                    return Some(Content::Day(i));
                }
                i = i + 1;
            }
            assert(!ds.contains(selected_entry)) by {
                if ds.contains(selected_entry) {
                    let k = choose|k: int| 0 <= k < ds.len() && ds[k] == selected_entry;
                    assert(days@[k].0 == ds[k]);
                }
            }
            None
        },
    }
}

/// What stands left of a list row: a blank, or a bar in the given colour.
#[derive(Clone, Copy, Debug, PartialEq, Eq, Structural)]
pub enum Gutter {
    Blank,
    Bar(Color),
}

/// The look of a list row: its gutter, the style of the row, and that of
/// the count at its end.
pub open spec fn row_look(selected: bool, focused: bool, theme: Theme) -> (Gutter, StyleSpec, StyleSpec) {
    if !selected {
        (Gutter::Blank, fg_style(theme.text), fg_style(theme.text_dim))
    } else if focused {
        (
            Gutter::Blank,
            StyleSpec {
                fg: Some(theme.selected_fg),
                bg: Some(theme.selected_bg),
                bold: true,
                italic: false,
                underlined: false,
            },
            fg_style(theme.selected_fg),
        )
    } else {
        (
            Gutter::Bar(theme.border),
            StyleSpec {
                fg: Some(theme.text_dim),
                bg: Some(theme.selected_bg_dim),
                bold: true,
                italic: false,
                underlined: false,
            },
            fg_style(theme.text_dim),
        )
    }
}

fn row_style(selected: bool, focused: bool, theme: &Theme) -> (r: (Gutter, StyleSpec, StyleSpec))
    ensures
        r == row_look(selected, focused, *theme),
{
    if !selected {
        (
            Gutter::Blank,
            StyleSpec { fg: Some(theme.text), bg: None, bold: false, italic: false, underlined: false },
            StyleSpec {
                fg: Some(theme.text_dim),
                bg: None,
                bold: false,
                italic: false,
                underlined: false,
            },
        )
    } else if focused {
        (
            Gutter::Blank,
            StyleSpec {
                fg: Some(theme.selected_fg),
                bg: Some(theme.selected_bg),
                bold: true,
                italic: false,
                underlined: false,
            },
            StyleSpec {
                fg: Some(theme.selected_fg),
                bg: None,
                bold: false,
                italic: false,
                underlined: false,
            },
        )
    } else {
        (
            Gutter::Bar(theme.border),
            StyleSpec {
                fg: Some(theme.text_dim),
                bg: Some(theme.selected_bg_dim),
                bold: true,
                italic: false,
                underlined: false,
            },
            StyleSpec {
                fg: Some(theme.text_dim),
                bg: None,
                bold: false,
                italic: false,
                underlined: false,
            },
        )
    }
}

/// The number of bytes of the UTF-8 encoding of a text, as `str::len`
/// gives it.
pub open spec fn byte_len(s: Seq<char>) -> int {
    (encode_utf8(s).len() as usize) as int
}

/// The room left in `width` columns after `a`, `b` and `extra` columns.
fn pad_after(width: u16, a: usize, b: usize, extra: u16) -> (pad: usize)
    ensures
        pad == minus(width as int, a + b + extra),
{
    let used = a as u128 + b as u128 + extra as u128;
    if used <= width as u128 {
        (width as u128 - used) as usize
    } else {
        0
    }
}

/// A row of the journal list: the date, the spaces that push the count to
/// the right edge, and the number of records.
pub struct DayRow {
    pub gutter: Gutter,
    pub date: String,
    pub pad: usize,
    pub count: String,
    pub style: StyleSpec,
    pub count_style: StyleSpec,
}

/// `a - b`, or `0` when `b` is larger.
pub open spec fn minus(a: int, b: int) -> int {
    if a >= b {
        a - b
    } else {
        0
    }
}

/// The row of the journal list for a day, in a list `width` columns wide.
pub open spec fn day_row_is(
    row: DayRow,
    day: (Date, Day),
    selected: Date,
    focused: bool,
    width: u16,
    theme: Theme,
) -> bool {
    let look = row_look(day.0 == selected, focused, theme);
    &&& row.date@ == date_text(day.0)
    &&& row.count@ == decimal(day.1.records@.len())
    &&& row.pad == minus(width as int, byte_len(row.date@) + byte_len(row.count@) + 3)
    &&& row.gutter == look.0
    &&& row.style == look.1
    &&& row.count_style == look.2
}

/// The rows of the journal list, the latest day first, for a list `width`
/// columns wide; the selected day is marked as the focus says.
pub fn day_rows(days: &Vec<(Date, Day)>, selected: Date, focused: bool, width: u16, theme: &Theme) -> (rows:
    Vec<DayRow>)
    requires
        dates_ordered(day_dates(days@)),
    ensures
        rows@.len() == days@.len(),
        forall|i: int|
            0 <= i < rows@.len() ==> day_row_is(
                #[trigger] rows@[i],
                days@[days@.len() - 1 - i],
                selected,
                focused,
                width,
                *theme,
            ),
{
    let mut rows: Vec<DayRow> = Vec::new();
    let n = days.len();
    let mut i: usize = 0;
    while i < n
        invariant
            n == days@.len(),
            i <= n,
            rows@.len() == i,
            dates_ordered(day_dates(days@)),
            forall|k: int|
                0 <= k < i ==> day_row_is(#[trigger] rows@[k], days@[n - 1 - k], selected, focused, width, *theme),
        decreases n - i,
    {
        let j = n - 1 - i;
        let ghost ds = day_dates(days@);
        assert(ds[j as int] == days@[j as int].0);
        let date = format_date(&days[j].0);
        let count = string_of(&decimal_chars(days[j].1.records.len()));
        let pad = pad_after(width, date.as_str().len(), count.as_str().len(), 3);
        let (gutter, style, count_style) = row_style(days[j].0 == selected, focused, theme);
        let row = DayRow { gutter, date, pad, count, style, count_style };
        assert(day_row_is(row, days@[j as int], selected, focused, width, *theme));
        rows.push(row);
        i = i + 1;
    }
    rows
}

/// How many characters of a title the archive list keeps in a list `width`
/// columns wide, before it cuts the title.
pub open spec fn kept(width: u16) -> int {
    minus(width as int, 2)
}

/// Where a title that does not fit is cut, in bytes: three bytes before the
/// end of the characters that are kept, to leave room for `...`.
pub open spec fn cut_at(t: Seq<char>, width: u16) -> int {
    minus(byte_len(t.take(kept(width))), 3)
}

/// The title fits, or its cut falls between two characters; a cut inside
/// a character's bytes is not something the list can draw.
pub open spec fn cuttable(t: Seq<char>, width: u16) -> bool {
    t.len() > kept(width) ==> is_char_boundary(encode_utf8(t), cut_at(t, width))
}

/// The label of a note in the archive list: its title when it fits, else
/// the characters before the cut followed by `...`.
pub open spec fn title_label(t: Seq<char>, width: u16) -> Seq<char> {
    if t.len() > kept(width) {
        decode_utf8(encode_utf8(t).subrange(0, cut_at(t, width))) + seq!['.', '.', '.']
    } else {
        t
    }
}

/// The label of a note with the given title in an archive list `width`
/// columns wide.
pub fn cut_title(title: &str, width: u16) -> (label: String)
    requires
        cuttable(title@, width),
    ensures
        label@ == title_label(title@, width),
{
    let n: usize = width.saturating_sub(2) as usize;
    let len = title.unicode_len();
    if len <= n {
        return string_of(&chars_of(title));
    }
    let kept_bytes = title.substring_char(0, n).len();
    let k = kept_bytes.saturating_sub(3);
    proof {
        assert(title@.subrange(0, n as int) =~= title@.take(n as int));
    }
    let (head, _) = title.split_at(k);
    proof {
        broadcast use vstd::utf8::encode_utf8_decode_utf8;
        assert(head@ == decode_utf8(head.spec_bytes()));
    }
    let mut out: Vec<char> = Vec::new();
    push_str_chars(&mut out, head);
    push_str_chars(&mut out, "...");
    proof {
        reveal_strlit("...");
        assert("..."@ =~= seq!['.', '.', '.']);
    }
    string_of(&out)
}

/// A title of ASCII characters that does not fit is cut between two
/// characters, and its label is its first `kept(width) - 3` characters (none
/// when fewer than three are kept) followed by `...`.
pub proof fn lemma_ascii_title_label(t: Seq<char>, width: u16)
    requires
        is_ascii_chars(t),
        t.len() > kept(width),
    ensures
        cuttable(t, width),
        title_label(t, width) == t.take(minus(kept(width), 3)) + seq!['.', '.', '.'],
{
    broadcast use vstd::utf8::is_ascii_chars_encode_utf8, vstd::utf8::encode_utf8_valid_utf8,
        vstd::utf8::encode_utf8_decode_utf8;

    let n = kept(width);
    let bytes = encode_utf8(t);
    let head = t.take(n);
    assert(is_ascii_chars(head)) by {
        assert forall|i: int| 0 <= i < head.len() implies '\0' <= #[trigger] head[i] <= '\u{7f}' by {
            assert(head[i] == t[i]);
        }
    }
    assert(encode_utf8(head).len() == n);
    assert(byte_len(head) == n);
    let k = minus(n, 3);
    assert(cut_at(t, width) == k);
    assert(bytes.len() == t.len());
    assert(is_char_boundary(bytes, k)) by {
        if k > 0 {
            assert(bytes[k] == t[k] as u8);
            vstd::utf8::is_char_boundary_iff_is_leading_byte(bytes, k);
        }
    }
    let cut = t.take(k);
    assert(is_ascii_chars(cut)) by {
        assert forall|i: int| 0 <= i < cut.len() implies '\0' <= #[trigger] cut[i] <= '\u{7f}' by {
            assert(cut[i] == t[i]);
        }
    }
    assert(bytes.subrange(0, k) =~= encode_utf8(cut)) by {
        assert forall|i: int| 0 <= i < k implies #[trigger] bytes.subrange(0, k)[i] == encode_utf8(cut)[i] by {
            assert(cut[i] == t[i]);
            assert(bytes[i] == t[i] as u8);
            assert(encode_utf8(cut)[i] == cut[i] as u8);
        }
    }
    assert(decode_utf8(bytes.subrange(0, k)) == cut);
}

/// A row of the archive list: the label of the note and the spaces that
/// fill the row.
pub struct NoteRow {
    pub gutter: Gutter,
    pub title: String,
    pub pad: usize,
    pub style: StyleSpec,
}

/// The row of the archive list for a note, in a list `width` columns wide.
pub open spec fn note_row_is(row: NoteRow, note: Note, selected: bool, focused: bool, width: u16, theme: Theme) -> bool {
    let look = row_look(selected, focused, theme);
    &&& row.title@ == title_label(note.title@, width)
    &&& row.pad == minus(width as int, byte_len(row.title@) + 2)
    &&& row.gutter == look.0
    &&& row.style == look.1
}

/// The rows of the archive list, the last note first, for a list `width`
/// columns wide; the note at `selected` is marked as the focus says.
pub fn note_rows(notes: &Vec<Note>, selected: usize, focused: bool, width: u16, theme: &Theme) -> (rows:
    Vec<NoteRow>)
    requires
        forall|i: int| 0 <= i < notes@.len() ==> cuttable((#[trigger] notes@[i]).title@, width),
    ensures
        rows@.len() == notes@.len(),
        forall|i: int|
            0 <= i < rows@.len() ==> note_row_is(
                #[trigger] rows@[i],
                notes@[notes@.len() - 1 - i],
                notes@.len() - 1 - i == selected,
                focused,
                width,
                *theme,
            ),
{
    let mut rows: Vec<NoteRow> = Vec::new();
    let n = notes.len();
    let mut i: usize = 0;
    while i < n
        invariant
            n == notes@.len(),
            i <= n,
            rows@.len() == i,
            forall|i: int| 0 <= i < notes@.len() ==> cuttable((#[trigger] notes@[i]).title@, width),
            forall|k: int|
                0 <= k < i ==> note_row_is(
                    #[trigger] rows@[k],
                    notes@[n - 1 - k],
                    n - 1 - k == selected,
                    focused,
                    width,
                    *theme,
                ),
        decreases n - i,
    {
        let j = n - 1 - i;
        let title = cut_title(notes[j].title.as_str(), width);
        let pad = pad_after(width, title.as_str().len(), 0, 2);
        let (gutter, style, _) = row_style(j == selected, focused, theme);
        let row = NoteRow { gutter, title, pad, style };
        assert(note_row_is(row, notes@[j as int], j == selected, focused, width, *theme));
        rows.push(row);
        i = i + 1;
    }
    rows
}

/// Keeps a list's scroll offset within the list, `scroll_constraint` rows
/// shown `viewport` rows at a time, and tells whether rows are hidden above
/// and below (the list marks them with `...`).
pub fn sidepane_markers(scroll: &mut usize, scroll_constraint: usize, viewport: usize) -> (marks: (
    bool,
    bool,
))
    ensures
        *final(scroll) == if *old(scroll) <= minus(scroll_constraint as int, viewport as int) {
            *old(scroll) as int
        } else {
            minus(scroll_constraint as int, viewport as int)
        },
        marks.0 == (*final(scroll) > 0),
        marks.1 == (*final(scroll) < minus(scroll_constraint as int, viewport as int)),
{
    let max_scroll = scroll_constraint.saturating_sub(viewport);
    if *scroll > max_scroll {
        *scroll = max_scroll;
    }
    (*scroll > 0, *scroll < max_scroll)
}

/// Keeps the scroll offset of an open day or note within its
/// `scroll_constraint` rows, shown `viewport` rows at a time; when the rows
/// do not all fit, the scroll bar's length (one position per offset) and
/// position come back.
pub fn content_scrollbar(scroll: &mut usize, scroll_constraint: usize, viewport: usize) -> (bar:
    Option<(usize, usize)>)
    requires
        minus(scroll_constraint as int, viewport as int) < usize::MAX,
    ensures
        *final(scroll) == if *old(scroll) <= minus(scroll_constraint as int, viewport as int) {
            *old(scroll) as int
        } else {
            minus(scroll_constraint as int, viewport as int)
        },
        bar is Some <==> minus(scroll_constraint as int, viewport as int) > 0,
        bar matches Some(b) ==> b.0 == minus(scroll_constraint as int, viewport as int) + 1 && b.1
            == *final(scroll),
{
    let max_scroll = scroll_constraint.saturating_sub(viewport);
    if *scroll > max_scroll {
        *scroll = max_scroll;
    }
    if max_scroll > 0 {
        Some((max_scroll + 1, *scroll))
    } else {
        None
    }
}

/// The indent of the continuation lines of a record.
pub const RECORD_INDENT: &'static str = "         ";

/// The width that records wrap at in an area `width` columns wide: what is
/// left beside the indent.
pub fn record_wrap_width(width: u16) -> (w: u16)
    ensures
        w == minus(width as int, 9),
{
    width.saturating_sub(9)
}

/// The title of an open journal day: its date, and how many records it has
/// as `  ·  N entries`.
pub fn records_title(selected: &Date, count: usize) -> (title: (String, String))
    requires
        selected.wf(),
    ensures
        title.0@ == date_text(*selected),
        title.1@ == "  ·  "@ + decimal(count as nat) + " entries"@,
{
    let date = format_date(selected);
    let mut out: Vec<char> = Vec::new();
    push_str_chars(&mut out, "  ·  ");
    let digits = decimal_chars(count);
    let mut i: usize = 0;
    while i < digits.len()
        invariant
            i <= digits.len(),
            out@ == "  ·  "@ + digits@.take(i as int),
        decreases digits.len() - i,
    {
        out.push(digits[i]);
        assert(digits@.take(i + 1) =~= digits@.take(i as int).push(digits@[i as int]));
        i = i + 1;
    }
    assert(digits@.take(digits.len() as int) =~= digits@);
    push_str_chars(&mut out, " entries");
    (date, string_of(&out))
}

/// The time of a record as its line shows it, `HH:MM`.
pub fn time_label(t: &Time) -> (s: String)
    requires
        t.wf(),
    ensures
        s@ == time_text(*t),
{
    format_time(t)
}

/// Where the cursor of the capture window stands: after the prompt of three
/// columns and the characters typed, on the input line at `(x, y)`.
pub fn capture_cursor(x: u16, y: u16, character_index: u16) -> (at: (u16, u16))
    requires
        x + 3 + character_index <= u16::MAX,
    ensures
        at == ((x + 3 + character_index) as u16, y),
{
    (x + 3 + character_index, y)
}

} // verus!
