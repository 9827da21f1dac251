//! Journal records, days and archived notes, with their text forms.

use vstd::prelude::*;

use crate::calendar::{
    date_text, format_date, hm_shape, parse_time, read_date, read_date_exec, time_text, today,
    two_digit_value, Date, Time,
};
use crate::text::{
    occurs_at, all_whitespace, chars_of, is_whitespace, lemma_trim_start_skip, spec_is_whitespace, spec_trim,
    string_of, trim_chars, trim_start,
};

pub use crate::slug::slugify;

verus! {

/// One line of the journal: a time of day and what happened then.
pub struct Record {
    pub at: Time,
    pub text: String,
}

/// The contents of a record.
pub struct RecordView {
    pub at: Time,
    pub text: Seq<char>,
}

/// The records of one day of the journal.
pub struct Day {
    pub records: Vec<Record>,
}

impl Default for Day {
    /// A day with no record.
    fn default() -> (d: Self)
        ensures
            d.records@.len() == 0,
    {
        Day { records: Vec::new() }
    }
}

/// The views of a sequence of records.
pub open spec fn record_views(rs: Seq<Record>) -> Seq<RecordView> {
    Seq::new(rs.len(), |i: int| rs[i]@)
}

impl View for Record {
    type V = RecordView;

    open spec fn view(&self) -> RecordView {
        RecordView { at: self.at, text: self.text@ }
    }
}

/// The parts of a record line, `- HH:MM text`: the five characters of the
/// time and what follows them, when the line has that shape.
///
/// The line starts with a hyphen; whitespace may follow; then come two ASCII
/// digits, a colon and two ASCII digits; a line break may stand after that
/// only in the whitespace that directly follows the time.
pub open spec fn record_fields(s: Seq<char>) -> Option<(Seq<char>, Seq<char>)> {
    if s.len() > 0 && s[0] == '-' {
        let t = trim_start(s.drop_first());
        if t.len() >= 5 && hm_shape(t.take(5)) && !trim_start(t.skip(5)).contains('\n') {
            Some((t.take(5), t.skip(5)))
        } else {
            None
        }
    } else {
        None
    }
}

/// The record that a journal line holds, if it holds one: the hour and
/// minute of the time (which must exist) and the trimmed text after it.
pub open spec fn parse_record(s: Seq<char>) -> Option<RecordView> {
    match record_fields(s) {
        Some((hm, rest)) => {
            let h = two_digit_value(hm[0], hm[1]);
            let m = two_digit_value(hm[3], hm[4]);
            if h < 24 && m < 60 {
                Some(
                    RecordView {
                        at: Time { hour: h as u32, minute: m as u32, second: 0 },
                        text: spec_trim(rest),
                    },
                )
            } else {
                None
            }
        },
        None => None,
    }
}

/// The grammar of a record line: `-`, whitespace, `HH:MM` in ASCII digits
/// and a rest whose text after its leading whitespace holds no line feed.
/// Such a line reads as the record of that hour and minute, when they exist
/// on a clock, with the rest trimmed as its text.
pub proof fn lemma_record_line(w: Seq<char>, hm: Seq<char>, rest: Seq<char>)
    requires
        all_whitespace(w),
        hm_shape(hm),
        !trim_start(rest).contains('\n'),
    ensures
        parse_record(seq!['-'] + w + hm + rest) == (if two_digit_value(hm[0], hm[1]) < 24
            && two_digit_value(hm[3], hm[4]) < 60 {
            Some(
                RecordView {
                    at: Time {
                        hour: two_digit_value(hm[0], hm[1]) as u32,
                        minute: two_digit_value(hm[3], hm[4]) as u32,
                        second: 0,
                    },
                    text: spec_trim(rest),
                },
            )
        } else {
            None
        }),
{
    let s = seq!['-'] + w + hm + rest;
    let x = w + hm + rest;
    assert(s.drop_first() =~= x);
    assert(x.take(w.len() as int) =~= w);
    lemma_trim_start_skip(x, w.len() as int);
    assert(x.skip(w.len() as int) =~= hm + rest);
    assert(!spec_is_whitespace((hm + rest)[0]));
    assert(trim_start(hm + rest) == hm + rest);
    assert((hm + rest).take(5) =~= hm);
    assert((hm + rest).skip(5) =~= rest);
}

/// Every line that reads as a record has the shape of the grammar above.
pub proof fn lemma_record_line_shape(s: Seq<char>)
    requires
        parse_record(s) is Some,
    ensures
        exists|w: Seq<char>, hm: Seq<char>, rest: Seq<char>|
            {
                &&& all_whitespace(w)
                &&& hm_shape(hm)
                &&& !trim_start(rest).contains('\n')
                &&& s == seq!['-'] + w + hm + rest
            },
{
    let x = s.drop_first();
    let t = trim_start(x);
    crate::text::lemma_trim_start_suffix(x);
    let w = x.take(x.len() - t.len());
    let hm = t.take(5);
    let rest = t.skip(5);
    assert(s =~= seq!['-'] + w + hm + rest);
}

fn is_digit_char(c: char) -> (b: bool)
    ensures
        b == crate::calendar::is_ascii_digit(c),
{
    '0' <= c && c <= '9'
}

/// The index of the first character at or after `from` that is not whitespace.
fn skip_whitespace(s: &Vec<char>, from: usize) -> (i: usize)
    requires
        from <= s.len(),
    ensures
        from <= i <= s.len(),
        all_whitespace(s@.subrange(from as int, i as int)),
        i < s.len() ==> !spec_is_whitespace(s@[i as int]),
        trim_start(s@.skip(from as int)) == s@.skip(i as int),
{
    let mut i = from;
    while i < s.len() && is_whitespace(s[i])
        invariant
            from <= i <= s.len(),
            all_whitespace(s@.subrange(from as int, i as int)),
        decreases s.len() - i,
    {
        assert forall|k: int| 0 <= k < i + 1 - from implies #[trigger] spec_is_whitespace(
            s@.subrange(from as int, i + 1)[k],
        ) by {
            if k < i - from {
                assert(s@.subrange(from as int, i + 1)[k] == s@.subrange(from as int, i as int)[k]);
            }
        }
        i = i + 1;
    }
    proof {
        let t = s@.skip(from as int);
        assert(t.take(i - from) =~= s@.subrange(from as int, i as int));
        lemma_trim_start_skip(t, i - from);
        assert(t.skip(i - from) =~= s@.skip(i as int));
        if i < s.len() {
            assert(trim_start(s@.skip(i as int)) == s@.skip(i as int));
        } else {
            assert(s@.skip(i as int).len() == 0);
        }
    }
    i
}

/// The characters of `s` from `from` to `to`.
pub fn slice_chars(s: &Vec<char>, from: usize, to: usize) -> (r: Vec<char>)
    requires
        from <= to <= s.len(),
    ensures
        r@ == s@.subrange(from as int, to as int),
{
    let mut r: Vec<char> = Vec::new();
    let mut k = from;
    while k < to
        invariant
            from <= k <= to <= s.len(),
            r@ == s@.subrange(from as int, k as int),
        decreases to - k,
    {
        r.push(s[k]);
        assert(s@.subrange(from as int, k + 1) == s@.subrange(from as int, k as int).push(
            s@[k as int],
        ));
        k = k + 1;
    }
    r
}

impl Record {
    /// Reads a journal line of the form `- HH:MM text`.
    pub fn parse(line: &str) -> (r: Result<Record, &'static str>)
        ensures
            r matches Ok(rec) ==> parse_record(line@) == Some(rec@),
            r matches Err(e) ==> parse_record(line@) is None && e@
                == "Unable to convert string to record"@,
    {
        let s = chars_of(line);
        let n = s.len();
        if n == 0 || s[0] != '-' {
            return Err("Unable to convert string to record");
        }
        let i = skip_whitespace(&s, 1);
        proof {
            assert(s@.drop_first() == s@.skip(1));
        }
        if n - i < 5 {
            return Err("Unable to convert string to record");
        }
        if !(is_digit_char(s[i]) && is_digit_char(s[i + 1]) && s[i + 2] == ':' && is_digit_char(
            s[i + 3],
        ) && is_digit_char(s[i + 4])) {
            proof {
                assert(s@.skip(i as int).take(5)[0] == s@[i as int]);
                assert(s@.skip(i as int).take(5)[1] == s@[i + 1]);
                assert(s@.skip(i as int).take(5)[2] == s@[i + 2]);
                assert(s@.skip(i as int).take(5)[3] == s@[i + 3]);
                assert(s@.skip(i as int).take(5)[4] == s@[i + 4]);
            }
            return Err("Unable to convert string to record");
        }
        let j = skip_whitespace(&s, i + 5);
        let ghost t = s@.skip(i as int);
        proof {
            assert(t.skip(5) =~= s@.skip(i + 5));
        }
        let mut k = j;
        while k < n
            invariant
                j <= k <= n,
                n == s@.len(),
                forall|q: int| j <= q < k ==> s@[q] != '\n',
                i + 5 <= j,
                t == s@.skip(i as int),
                t.skip(5) == s@.skip(i + 5),
                trim_start(s@.skip(i + 5)) == s@.skip(j as int),
                s@ == line@,
                s@.len() > 0 && s@[0] == '-',
                trim_start(s@.drop_first()) == t,
                t.len() >= 5 && hm_shape(t.take(5)),
            decreases n - k,
        {
            if s[k] == '\n' {
                proof {
                    assert(s@.skip(j as int)[k - j] == '\n');
                    assert(trim_start(t.skip(5)).contains('\n'));
                }
                return Err("Unable to convert string to record");
            }
            k = k + 1;
        }
        let hm = slice_chars(&s, i, i + 5);
        let hm_text = string_of(&hm);
        proof {
            assert(hm@ =~= t.take(5));
            assert(!s@.skip(j as int).contains('\n')) by {
                if s@.skip(j as int).contains('\n') {
                    let q = choose|q: int| 0 <= q < s@.skip(j as int).len() && s@.skip(j as int)[q]
                        == '\n';
                    assert(s@[j + q] == '\n');
                }
            }
        }
        match parse_time(hm_text.as_str()) {
            Some(at) => {
                let rest = slice_chars(&s, i + 5, n);
                let text_chars = trim_chars(&rest);
                let text = string_of(&text_chars);
                proof {
                    assert(rest@ =~= t.skip(5));
                }
                Ok(Record { at, text })
            },
            None => Err("Unable to convert string to record"),
        }
    }
}

impl TryFrom<String> for Record {
    type Error = &'static str;

    /// Reads a journal line; see `Record::parse`.
    fn try_from(string: String) -> (r: Result<Self, Self::Error>)
        ensures
            r matches Ok(rec) ==> parse_record(string@) == Some(rec@),
            r matches Err(e) ==> parse_record(string@) is None && e@
                == "Unable to convert string to record"@,
    {
        Record::parse(string.as_str())
    }
}

impl vstd::std_specs::convert::TryFromSpecImpl<String> for Record {
    /// The contract of `try_from` above is stated over views; this
    /// generic form is not used.
    open spec fn obeys_try_from_spec() -> bool {
        false
    }

    open spec fn try_from_spec(v: String) -> Result<Self, Self::Error> {
        Err("Unable to convert string to record")
    }
}

/// Appends the characters of `s` to `out`.
pub fn push_str_chars(out: &mut Vec<char>, s: &str)
    ensures
        final(out)@ == old(out)@ + s@,
{
    let cs = chars_of(s);
    let mut i: usize = 0;
    while i < cs.len()
        invariant
            i <= cs.len(),
            cs@ == s@,
            out@ == old(out)@ + cs@.take(i as int),
        decreases cs.len() - i,
    {
        out.push(cs[i]);
        assert(cs@.take(i + 1) == cs@.take(i as int).push(cs@[i as int]));
        i = i + 1;
    }
    assert(cs@.take(cs.len() as int) == cs@);
}

/// Whether two character vectors are equal.
pub fn same_chars(a: &Vec<char>, b: &Vec<char>) -> (r: bool)
    ensures
        r == (a@ == b@),
{
    if a.len() != b.len() {
        return false;
    }
    let mut i: usize = 0;
    while i < a.len()
        invariant
            a.len() == b.len(),
            i <= a.len(),
            forall|k: int| 0 <= k < i ==> a@[k] == b@[k],
        decreases a.len() - i,
    {
        if a[i] != b[i] {
            return false;
        }
        i = i + 1;
    }
    assert(a@ =~= b@);
    true
}

/// An archived note: a titled markdown body with its dates.
pub struct Note {
    pub slug: String,
    pub title: String,
    pub created: Date,
    pub updated: Date,
    pub body: String,
}

/// The contents of a note.
pub struct NoteView {
    pub slug: Seq<char>,
    pub title: Seq<char>,
    pub created: Date,
    pub updated: Date,
    pub body: Seq<char>,
}

impl View for Note {
    type V = NoteView;

    open spec fn view(&self) -> NoteView {
        NoteView {
            slug: self.slug@,
            title: self.title@,
            created: self.created,
            updated: self.updated,
            body: self.body@,
        }
    }
}

/// `---` and a line break: the line that opens and closes the front matter.
pub open spec fn fence() -> Seq<char> {
    seq!['-', '-', '-', '\n']
}

/// A line break followed by `---` and a line break: where the front matter ends.
pub open spec fn closing_fence() -> Seq<char> {
    seq!['\n', '-', '-', '-', '\n']
}

/// `: `, between the key and the value of a front matter line.
pub open spec fn key_separator() -> Seq<char> {
    seq![':', ' ']
}

pub open spec fn title_key() -> Seq<char> {
    seq!['t', 'i', 't', 'l', 'e']
}

pub open spec fn created_key() -> Seq<char> {
    seq!['c', 'r', 'e', 'a', 't', 'e', 'd']
}

pub open spec fn updated_key() -> Seq<char> {
    seq!['u', 'p', 'd', 'a', 't', 'e', 'd']
}

/// The last line of the front matter that a note writes: `tags: todo`.
pub open spec fn tags_line() -> Seq<char> {
    seq!['t', 'a', 'g', 's', ':', ' ', 't', 'o', 'd', 'o']
}

/// A front matter line `key: value`.
pub open spec fn field_line(key: Seq<char>, value: Seq<char>) -> Seq<char> {
    key + key_separator() + value
}

/// The text of a note file: front matter with title, dates and tags between
/// two `---` lines, an empty line, and the body.
pub open spec fn note_text(n: NoteView) -> Seq<char> {
    fence() + field_line(title_key(), n.title) + seq!['\n'] + field_line(
        created_key(),
        date_text(n.created),
    ) + seq!['\n'] + field_line(updated_key(), date_text(n.updated)) + seq!['\n'] + tags_line()
        + closing_fence() + seq!['\n'] + n.body
}

/// Drops one carriage return at the end of a line.
pub open spec fn strip_cr(l: Seq<char>) -> Seq<char> {
    if l.len() > 0 && l.last() == '\r' {
        l.drop_last()
    } else {
        l
    }
}

/// The lines of `s`, as `str::lines` yields them: split at line feeds, a
/// carriage return before a line feed dropped, and no empty last line
/// after a final line feed.
pub open spec fn text_lines(s: Seq<char>) -> Seq<Seq<char>> {
    let p = crate::text::split_on(s, '\n');
    let init = Seq::new((p.len() - 1) as nat, |k: int| strip_cr(p[k]));
    if p.last().len() == 0 {
        init
    } else {
        init.push(p.last())
    }
}

/// The key and value of a line, split at the first `: `.
pub open spec fn split_key_value(line: Seq<char>) -> Option<(Seq<char>, Seq<char>)> {
    match crate::text::find_from(line, key_separator(), 0) {
        Some(i) => Some((line.take(i), line.skip(i + 2))),
        None => None,
    }
}

/// Why a note text could not be read.
#[derive(Clone, Copy, Debug, PartialEq, Eq, Structural)]
pub enum NoteFailure {
    MissingFormatter,
    UnterminatedFormatter,
    BadCreatedDate,
    BadUpdatedDate,
    MissingTitle,
    MissingCreated,
    MissingUpdated,
}

impl NoteFailure {
    /// The message that reports the failure.
    pub open spec fn spec_message(self) -> &'static str {
        match self {
            NoteFailure::MissingFormatter => "missing formatter",
            NoteFailure::UnterminatedFormatter => "unterminated formatter",
            NoteFailure::BadCreatedDate => "bad created date",
            NoteFailure::BadUpdatedDate => "bad updated date",
            NoteFailure::MissingTitle => "missing title",
            NoteFailure::MissingCreated => "missing created",
            NoteFailure::MissingUpdated => "missing updated",
        }
    }

    /// The message that reports the failure.
    pub fn message(&self) -> (m: &'static str)
        ensures
            m == self.spec_message(),
    {
        match self {
            NoteFailure::MissingFormatter => "missing formatter",
            NoteFailure::UnterminatedFormatter => "unterminated formatter",
            NoteFailure::BadCreatedDate => "bad created date",
            NoteFailure::BadUpdatedDate => "bad updated date",
            NoteFailure::MissingTitle => "missing title",
            NoteFailure::MissingCreated => "missing created",
            NoteFailure::MissingUpdated => "missing updated",
        }
    }
}

/// The fields found so far in the front matter.
pub struct FrontMatter {
    pub title: Option<Seq<char>>,
    pub created: Option<Date>,
    pub updated: Option<Date>,
}

/// One front matter line read into the fields: `title`, `created` and
/// `updated` set their field (a later line wins), a date that does not read
/// fails, and other lines are passed over.
pub open spec fn read_field(st: FrontMatter, line: Seq<char>) -> Result<FrontMatter, NoteFailure> {
    match split_key_value(line) {
        Some((k, v)) => if k == title_key() {
            Ok(FrontMatter { title: Some(v), ..st })
        } else if k == created_key() {
            match read_date(v) {
                Some(d) => Ok(FrontMatter { created: Some(d), ..st }),
                None => Err(NoteFailure::BadCreatedDate),
            }
        } else if k == updated_key() {
            match read_date(v) {
                Some(d) => Ok(FrontMatter { updated: Some(d), ..st }),
                None => Err(NoteFailure::BadUpdatedDate),
            }
        } else {
            Ok(st)
        },
        None => Ok(st),
    }
}

/// The front matter lines read in order; the first failure stops.
pub open spec fn read_front(lines: Seq<Seq<char>>) -> Result<FrontMatter, NoteFailure>
    decreases lines.len(),
{
    if lines.len() == 0 {
        Ok(FrontMatter { title: None, created: None, updated: None })
    } else {
        match read_front(lines.drop_last()) {
            Ok(st) => read_field(st, lines.last()),
            Err(e) => Err(e),
        }
    }
}

/// The note that a note text holds, or why it holds none.
pub open spec fn parse_note(s: Seq<char>) -> Result<NoteView, NoteFailure> {
    if !(s.len() >= 4 && s.take(4) == fence()) {
        Err(NoteFailure::MissingFormatter)
    } else {
        let rest = s.skip(4);
        match crate::text::find_from(rest, closing_fence(), 0) {
            None => Err(NoteFailure::UnterminatedFormatter),
            Some(i) => match read_front(text_lines(rest.take(i))) {
                Err(e) => Err(e),
                Ok(st) => match (st.title, st.created, st.updated) {
                    (None, _, _) => Err(NoteFailure::MissingTitle),
                    (Some(_), None, _) => Err(NoteFailure::MissingCreated),
                    (Some(_), Some(_), None) => Err(NoteFailure::MissingUpdated),
                    (Some(t), Some(c), Some(u)) => Ok(
                        NoteView {
                            slug: crate::slug::slug_of(t),
                            title: t,
                            created: c,
                            updated: u,
                            body: rest.skip(i + 5),
                        },
                    ),
                },
            },
        }
    }
}

impl Note {
    /// A note with the given title and body, created on the given date or
    /// else on `today`, and updated `today`; the slug comes from the title.
    pub fn new_on(title: String, body: String, created: Option<Date>, today: Date) -> (r: Result<
        Note,
        String,
    >)
        ensures
            r is Err <==> title@.len() == 0,
            r matches Err(e) ==> e@ == "Missing title."@,
            r matches Ok(n) ==> n@ == (NoteView {
                slug: crate::slug::slug_of(title@),
                title: title@,
                created: match created {
                    Some(d) => d,
                    None => today,
                },
                updated: today,
                body: body@,
            }),
    {
        if title.as_str().is_empty() {
            return Err(String::from_str("Missing title."));
        }
        let created_at = match created {
            Some(date) => date,
            None => today,
        };
        let slug = slugify(title.as_str());
        Ok(Note { slug, title, created: created_at, updated: today, body })
    }

    /// A note with the given title and body, created on the given date or
    /// else today, and updated today, by the local clock.
    pub fn new(title: String, body: String, created: Option<Date>) -> (r: Result<Note, String>)
        ensures
            r is Err <==> title@.len() == 0,
            r matches Err(e) ==> e@ == "Missing title."@,
            r matches Ok(n) ==> {
                &&& n.slug@ == crate::slug::slug_of(title@)
                &&& n.title@ == title@
                &&& n.body@ == body@
                &&& n.updated.wf()
                &&& n.created == match created {
                    Some(d) => d,
                    None => n.updated,
                }
            },
    {
        let now = today();
        Note::new_on(title, body, created, now)
    }

    /// The note has a slug and a title.
    pub fn is_valid(&self) -> (b: bool)
        ensures
            b == (self.slug@.len() > 0 && self.title@.len() > 0),
    {
        if self.slug.as_str().is_empty() || self.title.as_str().is_empty() {
            return false;
        }
        true
    }

    /// The text of the note file.
    pub fn to_text(&self) -> (s: String)
        requires
            self.created.wf(),
            self.updated.wf(),
        ensures
            s@ == note_text(self@),
    {
        let mut out: Vec<char> = Vec::new();
        push_str_chars(&mut out, "---\ntitle: ");
        push_str_chars(&mut out, self.title.as_str());
        push_str_chars(&mut out, "\ncreated: ");
        let created = format_date(&self.created);
        push_str_chars(&mut out, created.as_str());
        push_str_chars(&mut out, "\nupdated: ");
        let updated = format_date(&self.updated);
        push_str_chars(&mut out, updated.as_str());
        push_str_chars(&mut out, "\ntags: todo\n---\n\n");
        push_str_chars(&mut out, self.body.as_str());
        proof {
            reveal_strlit("---\ntitle: ");
            reveal_strlit("\ncreated: ");
            reveal_strlit("\nupdated: ");
            reveal_strlit("\ntags: todo\n---\n\n");
            assert("---\ntitle: "@ =~= fence() + title_key() + key_separator());
            assert("\ncreated: "@ =~= seq!['\n'] + created_key() + key_separator());
            assert("\nupdated: "@ =~= seq!['\n'] + updated_key() + key_separator());
            assert("\ntags: todo\n---\n\n"@ =~= seq!['\n'] + tags_line() + closing_fence() + seq![
                '\n',
            ]);
            assert(out@ =~= note_text(self@));
        }
        string_of(&out)
    }
}

/// The lines of `s`, as `str::lines` yields them.
pub fn lines_of(s: &Vec<char>) -> (lines: Vec<Vec<char>>)
    ensures
        crate::text::views(lines@) == text_lines(s@),
{
    let parts = crate::text::split_chars(s, '\n');
    let ghost p = crate::text::split_on(s@, '\n');
    proof {
        crate::text::lemma_split_on_nonempty(s@, '\n');
    }
    let mut lines: Vec<Vec<char>> = Vec::new();
    let mut k: usize = 0;
    while k + 1 < parts.len()
        invariant
            crate::text::views(parts@) == p,
            p.len() >= 1,
            k + 1 <= parts.len(),
            crate::text::views(lines@) == Seq::new(k as nat, |q: int| strip_cr(p[q])),
        decreases parts.len() - k,
    {
        let mut l = parts[k].clone();
        let ghost pk = l@;
        assert(pk == p[k as int]);
        if l.len() > 0 && l[l.len() - 1] == '\r' {
            l.pop();
            assert(l@ =~= pk.drop_last());
        }
        let ghost before = crate::text::views(lines@);
        lines.push(l);
        assert(crate::text::views(lines@) =~= Seq::new((k + 1) as nat, |q: int| strip_cr(p[q])))
            by {
            assert(crate::text::views(lines@) =~= before.push(strip_cr(pk)));
        }
        k = k + 1;
    }
    let last = parts[k].clone();
    assert(last@ == p.last());
    if last.len() > 0 {
        let ghost before = crate::text::views(lines@);
        lines.push(last);
        assert(crate::text::views(lines@) =~= before.push(p.last()));
    }
    lines
}

/// The key and value of a front matter line, split at the first `: `.
pub fn key_value(line: &Vec<char>) -> (r: Option<(Vec<char>, Vec<char>)>)
    ensures
        r matches Some(kv) ==> split_key_value(line@) == Some((kv.0@, kv.1@)),
        r is None ==> split_key_value(line@) is None,
{
    let mut sep: Vec<char> = Vec::new();
    sep.push(':');
    sep.push(' ');
    assert(sep@ =~= key_separator());
    match crate::text::find_chars(line, &sep, 0) {
        Some(i) => {
            proof {
                crate::text::lemma_find_from_found(line@, key_separator(), 0);
                assert(crate::text::find_from(line@, key_separator(), 0) == Some(i as int));
                assert(occurs_at(line@, key_separator(), i as int));
                assert(key_separator().len() == 2);
            }
            let n = line.len();
            let k = slice_chars(line, 0, i);
            let v = slice_chars(line, i + 2, n);
            assert(k@ =~= line@.take(i as int));
            assert(v@ =~= line@.skip(i + 2));
            Some((k, v))
        },
        None => None,
    }
}

/// A vector holding the characters of a literal.
fn literal_chars(s: &str) -> (v: Vec<char>)
    ensures
        v@ == s@,
{
    chars_of(s)
}

impl Note {
    /// Reads a note from its text; see `parse_note` for the format and the failures.
    pub fn parse(text: &str) -> (r: Result<Note, &'static str>)
        ensures
            r matches Ok(n) ==> parse_note(text@) == Ok::<NoteView, NoteFailure>(n@),
            r matches Err(e) ==> parse_note(text@) matches Err(f) && e == f.spec_message(),
    {
        let s = chars_of(text);
        let open = literal_chars("---\n");
        let close = literal_chars("\n---\n");
        let title_k = literal_chars("title");
        let created_k = literal_chars("created");
        let updated_k = literal_chars("updated");
        proof {
            reveal_strlit("---\n");
            reveal_strlit("\n---\n");
            reveal_strlit("title");
            reveal_strlit("created");
            reveal_strlit("updated");
            assert(open@ =~= fence());
            assert(close@ =~= closing_fence());
            assert(title_k@ =~= title_key());
            assert(created_k@ =~= created_key());
            assert(updated_k@ =~= updated_key());
        }
        if !crate::text::occurs_at_exec(&s, &open, 0) {
            proof {
                if s@.len() >= 4 && s@.take(4) == fence() {
                    assert(s@.subrange(0, 4) =~= s@.take(4));
                }
            }
            return Err(NoteFailure::MissingFormatter.message());
        }
        let rest = slice_chars(&s, 4, s.len());
        proof {
            assert(s@.take(4) =~= s@.subrange(0, 4));
            assert(rest@ =~= s@.skip(4));
        }
        let i = match crate::text::find_chars(&rest, &close, 0) {
            Some(i) => i,
            None => {
                return Err(NoteFailure::UnterminatedFormatter.message());
            },
        };
        proof {
            crate::text::lemma_find_from_found(rest@, closing_fence(), 0);
        }
        let front = slice_chars(&rest, 0, i);
        let body_chars = slice_chars(&rest, i + 5, rest.len());
        proof {
            assert(front@ =~= rest@.take(i as int));
            assert(body_chars@ =~= rest@.skip(i + 5));
        }
        let lines = lines_of(&front);
        let ghost ls = crate::text::views(lines@);
        let mut title: Option<Vec<char>> = None;
        let mut created: Option<Date> = None;
        let mut updated: Option<Date> = None;
        let mut k: usize = 0;
        while k < lines.len()
            invariant
                k <= lines.len(),
                ls == crate::text::views(lines@),
                title_k@ == title_key(),
                created_k@ == created_key(),
                updated_k@ == updated_key(),
                s@ == text@,
                s@.len() >= 4 && s@.take(4) == fence(),
                rest@ == s@.skip(4),
                crate::text::find_from(rest@, closing_fence(), 0) == Some(i as int),
                ls == text_lines(rest@.take(i as int)),
                read_front(ls.take(k as int)) == Ok::<FrontMatter, NoteFailure>(
                    FrontMatter {
                        title: match title {
                            Some(t) => Some(t@),
                            None => None,
                        },
                        created,
                        updated,
                    },
                ),
            decreases lines.len() - k,
        {
            assert(ls.take(k + 1).drop_last() == ls.take(k as int));
            assert(ls.take(k + 1).last() == lines[k as int]@);
            match key_value(&lines[k]) {
                Some((key, value)) => {
                    if same_chars(&key, &title_k) {
                        title = Some(value);
                    } else if same_chars(&key, &created_k) {
                        let v = string_of(&value);
                        match read_date_exec(v.as_str()) {
                            Some(d) => {
                                created = Some(d);
                            },
                            None => {
                                proof {
                                    assert(read_front(ls.take(k + 1)) == Err::<
                                        FrontMatter,
                                        NoteFailure,
                                    >(NoteFailure::BadCreatedDate));
                                    crate::entry::lemma_read_front_err_sticks(
                                        ls,
                                        k + 1,
                                        NoteFailure::BadCreatedDate,
                                    );
                                    assert(ls.take(ls.len() as int) == ls);
                                }
                                return Err(NoteFailure::BadCreatedDate.message());
                            },
                        }
                    } else if same_chars(&key, &updated_k) {
                        let v = string_of(&value);
                        match read_date_exec(v.as_str()) {
                            Some(d) => {
                                updated = Some(d);
                            },
                            None => {
                                proof {
                                    crate::entry::lemma_read_front_err_sticks(
                                        ls,
                                        k + 1,
                                        NoteFailure::BadUpdatedDate,
                                    );
                                    assert(ls.take(ls.len() as int) == ls);
                                }
                                return Err(NoteFailure::BadUpdatedDate.message());
                            },
                        }
                    }
                },
                None => {},
            }
            k = k + 1;
        }
        assert(ls.take(lines.len() as int) == ls);
        let title = match title {
            Some(t) => t,
            None => {
                return Err(NoteFailure::MissingTitle.message());
            },
        };
        let created = match created {
            Some(d) => d,
            None => {
                return Err(NoteFailure::MissingCreated.message());
            },
        };
        let updated = match updated {
            Some(d) => d,
            None => {
                return Err(NoteFailure::MissingUpdated.message());
            },
        };
        let title = string_of(&title);
        let slug = slugify(title.as_str());
        let body = string_of(&body_chars);
        Ok(Note { slug, title, created, updated, body })
    }
}

/// The front matter fails at its first failing line: a `created` or
/// `updated` line whose value reads as no date, failing with that kind; a
/// note whose front matter reads fails only for a missing title, then a
/// missing created date, then a missing updated date, in that order.
pub proof fn lemma_first_failing_line(ls: Seq<Seq<char>>)
    ensures
        read_front(ls) matches Err(e) ==> {
            &&& e == NoteFailure::BadCreatedDate || e == NoteFailure::BadUpdatedDate
            &&& exists|k: int|
                0 <= k < ls.len() && (read_front(#[trigger] ls.take(k)) matches Ok(st) && read_field(
                    st,
                    ls[k],
                ) == Err::<FrontMatter, NoteFailure>(e))
        },
    decreases ls.len(),
{
    if ls.len() > 0 {
        let init = ls.drop_last();
        lemma_first_failing_line(init);
        let k = ls.len() - 1;
        assert(ls.take(k) =~= init);
        assert(ls[k] == ls.last());
        if let Err(e) = read_front(init) {
            let j = choose|j: int|
                0 <= j < init.len() && (read_front(#[trigger] init.take(j)) matches Ok(st) && read_field(
                    st,
                    init[j],
                ) == Err::<FrontMatter, NoteFailure>(e));
            assert(init.take(j) =~= ls.take(j));
            assert(init[j] == ls[j]);
        }
    }
}

/// Once the front matter fails, later lines do not change the failure.
pub proof fn lemma_read_front_err_sticks(ls: Seq<Seq<char>>, k: int, e: NoteFailure)
    requires
        0 <= k <= ls.len(),
        read_front(ls.take(k)) == Err::<FrontMatter, NoteFailure>(e),
    ensures
        read_front(ls) == Err::<FrontMatter, NoteFailure>(e),
    decreases ls.len() - k,
{
    if k == ls.len() {
        assert(ls.take(k) == ls);
    } else {
        assert(ls.take(k + 1).drop_last() == ls.take(k));
        lemma_read_front_err_sticks(ls, k + 1, e);
    }
}

/// A line `key: value` whose key holds no colon splits into key and value.
pub proof fn lemma_split_key_value(key: Seq<char>, value: Seq<char>)
    requires
        !key.contains(':'),
    ensures
        split_key_value(field_line(key, value)) == Some((key, value)),
{
    let line = field_line(key, value);
    let n = key.len() as int;
    assert(line.subrange(n, n + 2) =~= key_separator());
    assert forall|q: int| 0 <= q < n implies !occurs_at(line, key_separator(), q) by {
        if occurs_at(line, key_separator(), q) {
            assert(line.subrange(q, q + 2)[0] == ':');
            assert(key[q] == ':');
        }
    }
    crate::text::lemma_find_from_first(line, key_separator(), 0, n);
    assert(line.take(n) =~= key);
    assert(line.skip(n + 2) =~= value);
}

proof fn lemma_no_char_in_date(d: Date, c: char)
    requires
        d.wf(),
        !crate::calendar::date_char(c),
    ensures
        !date_text(d).contains(c),
{
    crate::calendar::lemma_date_text_chars(d);
    if date_text(d).contains(c) {
        let i = choose|i: int| 0 <= i < date_text(d).len() && date_text(d)[i] == c;
        assert(crate::calendar::date_char(date_text(d)[i]));
    }
}

proof fn lemma_no_char_in_concat(a: Seq<char>, b: Seq<char>, c: char)
    requires
        !a.contains(c),
        !b.contains(c),
    ensures
        !(a + b).contains(c),
{
    if (a + b).contains(c) {
        let i = choose|i: int| 0 <= i < (a + b).len() && (a + b)[i] == c;
        if i < a.len() {
            assert(a[i] == c);
        } else {
            assert(b[i - a.len()] == c);
        }
    }
}

/// The `tags: todo` line as a key and a value.
pub open spec fn tags_key() -> Seq<char> {
    seq!['t', 'a', 'g', 's']
}

pub open spec fn tags_value() -> Seq<char> {
    seq!['t', 'o', 'd', 'o']
}

/// The four front matter lines that a note writes.
pub open spec fn written_front_lines(n: NoteView) -> Seq<Seq<char>> {
    seq![
        field_line(title_key(), n.title),
        field_line(created_key(), date_text(n.created)),
        field_line(updated_key(), date_text(n.updated)),
        tags_line(),
    ]
}

/// The front matter that a note writes, between the fences.
pub open spec fn written_front(n: NoteView) -> Seq<char> {
    let ls = written_front_lines(n);
    ls[0] + seq!['\n'] + ls[1] + seq!['\n'] + ls[2] + seq!['\n'] + ls[3]
}

proof fn lemma_literals()
    ensures
        !key_separator().contains('\n'),
        !title_key().contains('\n') && !title_key().contains(':'),
        !created_key().contains('\n') && !created_key().contains(':'),
        !updated_key().contains('\n') && !updated_key().contains(':'),
        !tags_key().contains('\n') && !tags_key().contains(':'),
        !tags_value().contains('\n'),
        tags_line() == field_line(tags_key(), tags_value()),
        created_key().len() == 7 && title_key().len() == 5 && tags_key().len() == 4,
        created_key()[0] != updated_key()[0],
{
    assert(tags_line() =~= field_line(tags_key(), tags_value()));
    assert(!key_separator().contains('\n')) by {
        if key_separator().contains('\n') {
            let i = choose|i: int| 0 <= i < key_separator().len() && key_separator()[i] == '\n';
        }
    }
    assert(!title_key().contains('\n') && !title_key().contains(':')) by {
        if title_key().contains('\n') || title_key().contains(':') {
            let i = choose|i: int|
                0 <= i < title_key().len() && (title_key()[i] == '\n' || title_key()[i] == ':');
        }
    }
    assert(!created_key().contains('\n') && !created_key().contains(':')) by {
        if created_key().contains('\n') || created_key().contains(':') {
            let i = choose|i: int|
                0 <= i < created_key().len() && (created_key()[i] == '\n' || created_key()[i]
                    == ':');
        }
    }
    assert(!updated_key().contains('\n') && !updated_key().contains(':')) by {
        if updated_key().contains('\n') || updated_key().contains(':') {
            let i = choose|i: int|
                0 <= i < updated_key().len() && (updated_key()[i] == '\n' || updated_key()[i]
                    == ':');
        }
    }
    assert(!tags_key().contains('\n') && !tags_key().contains(':')) by {
        if tags_key().contains('\n') || tags_key().contains(':') {
            let i = choose|i: int|
                0 <= i < tags_key().len() && (tags_key()[i] == '\n' || tags_key()[i] == ':');
        }
    }
    assert(!tags_value().contains('\n')) by {
        if tags_value().contains('\n') {
            let i = choose|i: int| 0 <= i < tags_value().len() && tags_value()[i] == '\n';
        }
    }
}

proof fn lemma_line_without_newline(key: Seq<char>, value: Seq<char>)
    requires
        !key.contains('\n'),
        !value.contains('\n'),
        !key_separator().contains('\n'),
    ensures
        !field_line(key, value).contains('\n'),
{
    lemma_no_char_in_concat(key, key_separator(), '\n');
    lemma_no_char_in_concat(key + key_separator(), value, '\n');
}

/// The front matter lines that a note writes hold no line feed, and none but
/// the first can end with a carriage return.
proof fn lemma_written_lines(n: NoteView)
    requires
        n.created.wf(),
        n.updated.wf(),
        !n.title.contains('\n'),
        n.title.len() == 0 || n.title.last() != '\r',
    ensures
        forall|k: int| 0 <= k < 4 ==> !(#[trigger] written_front_lines(n)[k]).contains('\n'),
        forall|k: int| 0 <= k < 4 ==> strip_cr(#[trigger] written_front_lines(n)[k])
            == written_front_lines(n)[k],
        forall|k: int| 0 <= k < 4 ==> (#[trigger] written_front_lines(n)[k]).len() > 0,
{
    let ls = written_front_lines(n);
    lemma_literals();
    crate::calendar::lemma_date_text_chars(n.created);
    crate::calendar::lemma_date_text_chars(n.updated);
    lemma_no_char_in_date(n.created, '\n');
    lemma_no_char_in_date(n.updated, '\n');
    lemma_line_without_newline(title_key(), n.title);
    lemma_line_without_newline(created_key(), date_text(n.created));
    lemma_line_without_newline(updated_key(), date_text(n.updated));
    lemma_line_without_newline(tags_key(), tags_value());
    assert(ls[1].last() == date_text(n.created).last());
    assert(ls[2].last() == date_text(n.updated).last());
    assert(ls[3].last() == 'o');
}

/// The lines of the written front matter are the four written lines.
proof fn lemma_written_front_lines(n: NoteView)
    requires
        n.created.wf(),
        n.updated.wf(),
        !n.title.contains('\n'),
        n.title.len() == 0 || n.title.last() != '\r',
    ensures
        text_lines(written_front(n)) == written_front_lines(n),
{
    let ls = written_front_lines(n);
    lemma_written_lines(n);
    let nl = seq!['\n'];
    assert(!ls[0].contains('\n') && !ls[1].contains('\n') && !ls[2].contains('\n')
        && !ls[3].contains('\n'));
    crate::text::lemma_split_single(ls[0], '\n');
    crate::text::lemma_split_single(ls[1], '\n');
    crate::text::lemma_split_single(ls[2], '\n');
    crate::text::lemma_split_single(ls[3], '\n');
    crate::text::lemma_split_concat(ls[2], ls[3], '\n');
    crate::text::lemma_split_concat(ls[1], ls[2] + nl + ls[3], '\n');
    crate::text::lemma_split_concat(ls[0], ls[1] + nl + ls[2] + nl + ls[3], '\n');
    assert(written_front(n) =~= ls[0] + nl + (ls[1] + nl + (ls[2] + nl + ls[3])));
    assert(ls[1] + nl + (ls[2] + nl + ls[3]) =~= ls[1] + nl + ls[2] + nl + ls[3]);
    assert(crate::text::split_on(written_front(n), '\n') =~= ls);
    assert(strip_cr(ls[0]) == ls[0]);
    assert(strip_cr(ls[1]) == ls[1]);
    assert(strip_cr(ls[2]) == ls[2]);
    assert(text_lines(written_front(n)) =~= ls);
}

/// The written front matter ends at the first closing fence.
proof fn lemma_written_front_ends(n: NoteView, tail: Seq<char>)
    requires
        n.created.wf(),
        n.updated.wf(),
        !n.title.contains('\n'),
        n.title.len() == 0 || n.title.last() != '\r',
    ensures
        crate::text::find_from(written_front(n) + closing_fence() + tail, closing_fence(), 0)
            == Some(written_front(n).len() as int),
{
    let ls = written_front_lines(n);
    lemma_written_lines(n);
    lemma_literals();
    let f = written_front(n);
    let rest = f + closing_fence() + tail;
    let p1 = ls[0].len() as int;
    let p2 = p1 + 1 + ls[1].len();
    let p3 = p2 + 1 + ls[2].len();
    assert(f.len() == p3 + 1 + ls[3].len());
    assert(occurs_at(rest, closing_fence(), f.len() as int)) by {
        assert(rest.subrange(f.len() as int, f.len() as int + 5) =~= closing_fence());
    }
    assert(ls[1][0] == 'c' && ls[2][0] == 'u' && ls[3][0] == 't');
    assert forall|q: int| 0 <= q < f.len() implies !occurs_at(rest, closing_fence(), q) by {
        if occurs_at(rest, closing_fence(), q) {
            assert(rest.subrange(q, q + 5)[0] == '\n');
            assert(rest.subrange(q, q + 5)[1] == '-');
            assert(f[q] == '\n');
            if q < p1 {
                assert(ls[0][q] == '\n');
            } else if q == p1 {
                assert(rest[q + 1] == ls[1][0]);
            } else if q < p2 {
                assert(ls[1][q - p1 - 1] == '\n');
            } else if q == p2 {
                assert(rest[q + 1] == ls[2][0]);
            } else if q < p3 {
                assert(ls[2][q - p2 - 1] == '\n');
            } else if q == p3 {
                assert(rest[q + 1] == ls[3][0]);
            } else {
                assert(ls[3][q - p3 - 1] == '\n');
            }
        }
    }
    crate::text::lemma_find_from_first(rest, closing_fence(), 0, f.len() as int);
}

/// Reading the written front matter lines gives the title and the dates.
proof fn lemma_read_written_front(n: NoteView)
    requires
        n.created.wf(),
        n.updated.wf(),
    ensures
        read_front(written_front_lines(n)) == Ok::<FrontMatter, NoteFailure>(
            FrontMatter { title: Some(n.title), created: Some(n.created), updated: Some(n.updated) },
        ),
{
    let ls = written_front_lines(n);
    lemma_literals();
    lemma_no_char_in_date(n.created, ':');
    lemma_no_char_in_date(n.updated, ':');
    lemma_split_key_value(title_key(), n.title);
    lemma_split_key_value(created_key(), date_text(n.created));
    lemma_split_key_value(updated_key(), date_text(n.updated));
    lemma_split_key_value(tags_key(), tags_value());
    crate::calendar::lemma_read_date_text(n.created);
    crate::calendar::lemma_read_date_text(n.updated);
    assert(ls.drop_last() =~= seq![ls[0], ls[1], ls[2]]);
    assert(seq![ls[0], ls[1], ls[2]].drop_last() =~= seq![ls[0], ls[1]]);
    assert(seq![ls[0], ls[1]].drop_last() =~= seq![ls[0]]);
    assert(seq![ls[0]].drop_last() =~= Seq::<Seq<char>>::empty());
    assert(updated_key().len() == 7);
    assert(created_key() != title_key());
    assert(updated_key() != title_key());
    assert(updated_key() != created_key());
    assert(tags_key() != title_key() && tags_key() != created_key() && tags_key()
        != updated_key());
    let st0 = FrontMatter { title: None, created: None, updated: None };
    let st1 = FrontMatter { title: Some(n.title), created: None, updated: None };
    let st2 = FrontMatter { title: Some(n.title), created: Some(n.created), updated: None };
    let st3 = FrontMatter {
        title: Some(n.title),
        created: Some(n.created),
        updated: Some(n.updated),
    };
    assert(read_front(Seq::<Seq<char>>::empty()) == Ok::<FrontMatter, NoteFailure>(st0));
    assert(read_field(st0, ls[0]) == Ok::<FrontMatter, NoteFailure>(st1));
    assert(read_front(seq![ls[0]]) == Ok::<FrontMatter, NoteFailure>(st1));
    assert(read_field(st1, ls[1]) == Ok::<FrontMatter, NoteFailure>(st2));
    assert(read_front(seq![ls[0], ls[1]]) == Ok::<FrontMatter, NoteFailure>(st2));
    assert(read_field(st2, ls[2]) == Ok::<FrontMatter, NoteFailure>(st3));
    assert(read_front(seq![ls[0], ls[1], ls[2]]) == Ok::<FrontMatter, NoteFailure>(st3));
    assert(read_field(st3, ls[3]) == Ok::<FrontMatter, NoteFailure>(st3));
}

/// A note reads back from the text it writes: the same title, slug of the
/// title, dates, and the body after the empty line that follows the front
/// matter. The title must fit on its line: no line feed in it, and no
/// carriage return at its end (which `str::lines` would take for part of
/// the line ending).
pub proof fn lemma_note_roundtrip(n: NoteView)
    requires
        n.created.wf(),
        n.updated.wf(),
        !n.title.contains('\n'),
        n.title.len() == 0 || n.title.last() != '\r',
    ensures
        parse_note(note_text(n)) == Ok::<NoteView, NoteFailure>(
            NoteView {
                slug: crate::slug::slug_of(n.title),
                title: n.title,
                created: n.created,
                updated: n.updated,
                body: seq!['\n'] + n.body,
            },
        ),
{
    let f = written_front(n);
    let tail = seq!['\n'] + n.body;
    let s = note_text(n);
    assert(s =~= fence() + (f + closing_fence() + tail));
    assert(s.take(4) =~= fence());
    let rest = s.skip(4);
    assert(rest =~= f + closing_fence() + tail);
    lemma_written_front_ends(n, tail);
    assert(rest.take(f.len() as int) =~= f);
    assert(rest.skip(f.len() as int + 5) =~= tail);
    lemma_written_front_lines(n);
    lemma_read_written_front(n);
}

impl TryFrom<String> for Note {
    type Error = &'static str;

    /// Reads a note from its text; see `Note::parse`.
    fn try_from(string: String) -> (r: Result<Self, Self::Error>)
        ensures
            r matches Ok(n) ==> parse_note(string@) == Ok::<NoteView, NoteFailure>(n@),
            r matches Err(e) ==> parse_note(string@) matches Err(f) && e == f.spec_message(),
    {
        Note::parse(string.as_str())
    }
}

impl vstd::std_specs::convert::TryFromSpecImpl<String> for Note {
    /// The contract of `try_from` above is stated over views; this
    /// generic form is not used.
    open spec fn obeys_try_from_spec() -> bool {
        false
    }

    open spec fn try_from_spec(v: String) -> Result<Self, Self::Error> {
        Err("missing formatter")
    }
}

} // verus!
