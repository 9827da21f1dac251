//! What the journal and archive files hold, and the names they go by.
//!
//! Reading and writing the files happens in the application; this module
//! decides the text that is written and what is read back from it.

use vstd::prelude::*;

use crate::calendar::{
    chrono_date, date_text, format_date, format_time, parse_date, time_text, two_digits, Date, Time,
};
use crate::entry::{
    note_text, parse_record, push_str_chars, record_views, Day, Note, Record, RecordView,
};
use crate::text::{chars_of, spec_trim, string_of, string_views, trim_chars};

verus! {

/// The journal line of a record: `- HH:MM text`, the text trimmed.
pub open spec fn record_line(r: RecordView) -> Seq<char> {
    seq!['-', ' '] + time_text(r.at) + seq![' '] + spec_trim(r.text)
}

/// The first line of a day's journal file: `# ` and the date.
pub open spec fn day_heading(d: Date) -> Seq<char> {
    seq!['#', ' '] + date_text(d)
}

/// Lines, each followed by a line feed.
pub open spec fn terminated(ls: Seq<Seq<char>>) -> Seq<char>
    decreases ls.len(),
{
    if ls.len() == 0 {
        Seq::empty()
    } else {
        terminated(ls.drop_last()) + ls.last() + seq!['\n']
    }
}

/// The lines that appending records to a day's journal file adds: the
/// heading and an empty line when the file is still empty, then a line per
/// record.
pub open spec fn journal_lines(d: Date, rs: Seq<RecordView>, file_is_empty: bool) -> Seq<
    Seq<char>,
> {
    let lines = Seq::new(rs.len(), |i: int| record_line(rs[i]));
    if file_is_empty {
        seq![day_heading(d), Seq::<char>::empty()] + lines
    } else {
        lines
    }
}

/// The text that appending records to a day's journal file adds.
pub open spec fn journal_text(d: Date, rs: Seq<RecordView>, file_is_empty: bool) -> Seq<char> {
    terminated(journal_lines(d, rs, file_is_empty))
}

/// The records that journal lines hold, in order; other lines are passed over.
pub open spec fn parse_records(ls: Seq<Seq<char>>) -> Seq<RecordView>
    decreases ls.len(),
{
    if ls.len() == 0 {
        Seq::empty()
    } else {
        match parse_record(ls.last()) {
            Some(r) => parse_records(ls.drop_last()).push(r),
            None => parse_records(ls.drop_last()),
        }
    }
}

/// A record as it reads back from its journal line: the hour and minute of
/// its time, no seconds, and its text trimmed.
pub open spec fn as_written(r: RecordView) -> RecordView {
    RecordView {
        at: Time { hour: r.at.hour, minute: r.at.minute, second: 0 },
        text: spec_trim(r.text),
    }
}

/// The records as they read back from their journal lines.
pub open spec fn all_as_written(rs: Seq<RecordView>) -> Seq<RecordView> {
    Seq::new(rs.len(), |i: int| as_written(rs[i]))
}

/// A record can be written to one journal line: its time exists and its
/// trimmed text holds no line feed.
pub open spec fn writable(r: RecordView) -> bool {
    r.at.wf() && !spec_trim(r.text).contains('\n')
}

/// The name of a day's journal file: the date and `.md`.
pub open spec fn journal_file_name_of(d: Date) -> Seq<char> {
    date_text(d) + seq!['.', 'm', 'd']
}

/// The name of a note's archive file: the slug and `.md`.
pub open spec fn archive_file_name_of(slug: Seq<char>) -> Seq<char> {
    slug + seq!['.', 'm', 'd']
}

/// The name of the journal file of a day.
pub fn journal_file_name(d: &Date) -> (name: String)
    requires
        d.wf(),
    ensures
        name@ == journal_file_name_of(*d),
{
    let mut out: Vec<char> = Vec::new();
    let t = format_date(d);
    push_str_chars(&mut out, t.as_str());
    push_str_chars(&mut out, ".md");
    proof {
        reveal_strlit(".md");
        assert(".md"@ =~= seq!['.', 'm', 'd']);
    }
    string_of(&out)
}

/// The name of the archive file of a note with the given slug.
pub fn archive_file_name(slug: &str) -> (name: String)
    ensures
        name@ == archive_file_name_of(slug@),
{
    let mut out: Vec<char> = Vec::new();
    push_str_chars(&mut out, slug);
    push_str_chars(&mut out, ".md");
    proof {
        reveal_strlit(".md");
        assert(".md"@ =~= seq!['.', 'm', 'd']);
    }
    string_of(&out)
}

/// The text that appending the records to the journal file of the day adds;
/// `file_is_empty` tells whether the file holds nothing yet.
pub fn journal_entry_text(day: &Date, records: &Vec<Record>, file_is_empty: bool) -> (s: String)
    requires
        day.wf(),
        forall|i: int| 0 <= i < records.len() ==> (#[trigger] records[i]).at.wf(),
    ensures
        s@ == journal_text(*day, record_views(records@), file_is_empty),
{
    let ghost rs = record_views(records@);
    let ghost ls = journal_lines(*day, rs, file_is_empty);
    let mut out: Vec<char> = Vec::new();
    let mut done: usize = 0;
    proof {
        reveal_strlit("# ");
        reveal_strlit("\n\n");
        reveal_strlit("- ");
        reveal_strlit(" ");
        reveal_strlit("\n");
        assert("# "@ =~= seq!['#', ' ']);
        assert("\n\n"@ =~= seq!['\n', '\n']);
        assert("- "@ =~= seq!['-', ' ']);
        assert(" "@ =~= seq![' ']);
        assert("\n"@ =~= seq!['\n']);
    }
    if file_is_empty {
        push_str_chars(&mut out, "# ");
        let t = format_date(day);
        push_str_chars(&mut out, t.as_str());
        push_str_chars(&mut out, "\n\n");
        done = 2;
        proof {
            assert(ls.take(2) =~= seq![day_heading(*day), Seq::<char>::empty()]);
            assert(ls.take(2).drop_last() =~= seq![day_heading(*day)]);
            assert(seq![day_heading(*day)].drop_last() =~= Seq::<Seq<char>>::empty());
            assert(terminated(Seq::<Seq<char>>::empty()) == Seq::<char>::empty());
            assert(terminated(seq![day_heading(*day)]) == terminated(Seq::<Seq<char>>::empty())
                + day_heading(*day) + seq!['\n']);
            assert(terminated(seq![day_heading(*day)]) =~= day_heading(*day) + seq!['\n']);
            assert(out@ =~= terminated(ls.take(2)));
        }
    } else {
        assert(ls.take(0) =~= Seq::<Seq<char>>::empty());
    }
    let ghost offset = done as int;
    assert(ls.len() == offset + records.len());
    let mut i: usize = 0;
    while i < records.len()
        invariant
            i <= records.len(),
            offset == done,
            rs == record_views(records@),
            ls == journal_lines(*day, rs, file_is_empty),
            ls.len() == offset + records.len(),
            forall|k: int| 0 <= k < records.len() ==> ls[offset + k] == record_line(rs[k]),
            forall|i: int| 0 <= i < records.len() ==> (#[trigger] records[i]).at.wf(),
            out@ == terminated(ls.take(offset + i)),
            "- "@ == seq!['-', ' '],
            " "@ == seq![' '],
            "\n"@ == seq!['\n'],
        decreases records.len() - i,
    {
        let ghost before = out@;
        push_str_chars(&mut out, "- ");
        let t = format_time(&records[i].at);
        push_str_chars(&mut out, t.as_str());
        push_str_chars(&mut out, " ");
        let tc = chars_of(records[i].text.as_str());
        let tt = trim_chars(&tc);
        let txt = string_of(&tt);
        push_str_chars(&mut out, txt.as_str());
        push_str_chars(&mut out, "\n");
        proof {
            assert(ls.take(offset + i + 1).drop_last() =~= ls.take(offset + i));
            assert(ls.take(offset + i + 1).last() == record_line(rs[i as int]));
            assert(out@ =~= before + record_line(rs[i as int]) + seq!['\n']);
        }
        i = i + 1;
    }
    assert(ls.take(offset + records.len()) =~= ls);
    string_of(&out)
}

/// The records that journal lines hold, in order; other lines are passed over.
pub fn records_from_lines(lines: &Vec<String>) -> (rs: Vec<Record>)
    ensures
        record_views(rs@) == parse_records(
            string_views(lines@),
        ),
{
    let ghost ls = string_views(lines@);
    let mut rs: Vec<Record> = Vec::new();
    let mut i: usize = 0;
    while i < lines.len()
        invariant
            i <= lines.len(),
            ls == string_views(lines@),
            record_views(rs@) == parse_records(ls.take(i as int)),
        decreases lines.len() - i,
    {
        assert(ls.take(i + 1).drop_last() =~= ls.take(i as int));
        assert(ls.take(i + 1).last() == lines[i as int]@);
        let ghost before = record_views(rs@);
        match Record::parse(lines[i].as_str()) {
            Ok(r) => {
                rs.push(r);
                assert(record_views(rs@) =~= before.push(rs[rs.len() - 1]@));
            },
            Err(_) => {},
        }
        i = i + 1;
    }
    assert(ls.take(lines.len() as int) =~= ls);
    rs
}

/// The day that a journal file holds: the date that the file's name without
/// `.md` gives, read as `%Y-%m-%d`, with the records of its lines; nothing
/// when the name is no date.
pub fn journal_day(stem: &str, lines: &Vec<String>) -> (r: Option<(Date, Day)>)
    ensures
        r is Some <==> chrono_date(stem@) is Some,
        r matches Some(p) ==> {
            &&& Some(p.0) == chrono_date(stem@)
            &&& p.0.wf()
            &&& record_views(p.1.records@) == parse_records(string_views(lines@))
        },
{
    match parse_date(stem) {
        Some(d) => Some((d, Day { records: records_from_lines(lines) })),
        None => None,
    }
}

/// The file that saving a note writes, its name and its text; nothing for a
/// note without a slug or a title, which is not saved.
pub fn archive_entry(note: &Note) -> (r: Option<(String, String)>)
    requires
        note.created.wf(),
        note.updated.wf(),
    ensures
        r is Some <==> (note.slug@.len() > 0 && note.title@.len() > 0),
        r matches Some(p) ==> p.0@ == archive_file_name_of(note.slug@) && p.1@ == note_text(note@),
{
    if !note.is_valid() {
        return None;
    }
    Some((archive_file_name(note.slug.as_str()), note.to_text()))
}

proof fn lemma_two_digits(n: nat)
    requires
        n < 100,
    ensures
        crate::calendar::is_ascii_digit(two_digits(n)[0]),
        crate::calendar::is_ascii_digit(two_digits(n)[1]),
        crate::calendar::two_digit_value(two_digits(n)[0], two_digits(n)[1]) == n,
        two_digits(n).len() == 2,
{
    crate::calendar::lemma_digit(n / 10);
    crate::calendar::lemma_digit(n % 10);
}

/// A record reads back from the journal line it writes, with its hour and
/// minute and its trimmed text.
pub proof fn lemma_record_roundtrip(r: RecordView)
    requires
        writable(r),
    ensures
        parse_record(record_line(r)) == Some(as_written(r)),
{
    let t = spec_trim(r.text);
    let hm = time_text(r.at);
    lemma_two_digits(r.at.hour as nat);
    lemma_two_digits(r.at.minute as nat);
    let s = record_line(r);
    let x = s.drop_first();
    assert(x =~= seq![' '] + (hm + seq![' '] + t));
    assert(crate::text::spec_is_whitespace(x[0]));
    assert(x.drop_first() =~= hm + seq![' '] + t);
    let y = hm + seq![' '] + t;
    assert(!crate::text::spec_is_whitespace(y[0]));
    assert(crate::text::trim_start(y) == y);
    assert(crate::text::trim_start(x) == crate::text::trim_start(x.drop_first()));
    assert(crate::text::trim_start(x) == y);
    assert(y.take(5) =~= hm);
    assert(y.skip(5) =~= seq![' '] + t);
    crate::text::lemma_trim_trimmed(r.text);
    let z = seq![' '] + t;
    assert(z.drop_first() =~= t);
    assert(crate::text::trim_start(z) == t);
    assert(crate::calendar::hm_shape(hm));
}

/// Text that lines make when each is followed by a line feed.
pub proof fn lemma_terminated_concat(a: Seq<Seq<char>>, b: Seq<Seq<char>>)
    ensures
        terminated(a + b) == terminated(a) + terminated(b),
    decreases b.len(),
{
    if b.len() == 0 {
        assert(a + b =~= a);
        assert(terminated(b) == Seq::<char>::empty());
        assert(terminated(a) + terminated(b) =~= terminated(a));
    } else {
        assert((a + b).drop_last() =~= a + b.drop_last());
        lemma_terminated_concat(a, b.drop_last());
        assert(terminated(a + b) =~= terminated(a) + terminated(b));
    }
}

/// Lines that hold no line feed and end in no carriage return read back
/// from the text they make.
pub proof fn lemma_terminated_lines(ls: Seq<Seq<char>>)
    requires
        forall|i: int| 0 <= i < ls.len() ==> !(#[trigger] ls[i]).contains('\n'),
        forall|i: int| 0 <= i < ls.len() ==> crate::entry::strip_cr(#[trigger] ls[i]) == ls[i],
    ensures
        crate::text::split_on(terminated(ls), '\n') == ls.push(Seq::<char>::empty()),
        crate::entry::text_lines(terminated(ls)) == ls,
    decreases ls.len(),
{
    let e = Seq::<char>::empty();
    if ls.len() == 0 {
        assert(terminated(ls) == e);
        assert(crate::text::split_on(e, '\n') =~= seq![e]);
        assert(ls.push(e) =~= seq![e]);
    } else {
        let init = ls.drop_last();
        let l = ls.last();
        assert(!l.contains('\n'));
        lemma_terminated_lines(init);
        crate::text::lemma_split_single(l, '\n');
        if init.len() == 0 {
            assert(terminated(init) == e);
            assert(terminated(ls) =~= l + seq!['\n'] + e);
            crate::text::lemma_split_concat(l, e, '\n');
            assert(crate::text::split_on(e, '\n') =~= seq![e]);
            assert(ls.push(e) =~= seq![l, e]);
        } else {
            let z = terminated(init).drop_last();
            assert(terminated(init) == terminated(init.drop_last()) + init.last() + seq!['\n']);
            assert(terminated(init) =~= z + seq!['\n']);
            assert(terminated(ls) =~= z + seq!['\n'] + (l + seq!['\n']));
            crate::text::lemma_split_concat(z, l + seq!['\n'], '\n');
            crate::text::lemma_split_concat(z, e, '\n');
            assert(z + seq!['\n'] + e =~= z + seq!['\n']);
            crate::text::lemma_split_concat(l, e, '\n');
            assert(l + seq!['\n'] + e =~= l + seq!['\n']);
            assert(crate::text::split_on(e, '\n') =~= seq![e]);
            assert(crate::text::split_on(z, '\n') + seq![e] =~= init.push(e));
            assert(crate::text::split_on(z, '\n') =~= init);
            assert(ls.push(e) =~= init + seq![l, e]);
        }
        let p = crate::text::split_on(terminated(ls), '\n');
        assert(p.last().len() == 0);
        assert(crate::entry::text_lines(terminated(ls)) =~= ls);
    }
}

/// The records of lines, taken part by part.
pub proof fn lemma_parse_records_concat(a: Seq<Seq<char>>, b: Seq<Seq<char>>)
    ensures
        parse_records(a + b) == parse_records(a) + parse_records(b),
    decreases b.len(),
{
    if b.len() == 0 {
        assert(a + b =~= a);
        assert(parse_records(a) + parse_records(b) =~= parse_records(a));
    } else {
        assert((a + b).drop_last() =~= a + b.drop_last());
        lemma_parse_records_concat(a, b.drop_last());
        assert((a + b).last() == b.last());
        assert(parse_records(a + b) =~= parse_records(a) + parse_records(b));
    }
}

proof fn lemma_record_lines_read(rs: Seq<RecordView>)
    requires
        forall|i: int| 0 <= i < rs.len() ==> writable(#[trigger] rs[i]),
    ensures
        parse_records(Seq::new(rs.len(), |i: int| record_line(rs[i]))) == all_as_written(rs),
    decreases rs.len(),
{
    let ls = Seq::new(rs.len(), |i: int| record_line(rs[i]));
    if rs.len() == 0 {
        assert(all_as_written(rs) =~= Seq::<RecordView>::empty());
    } else {
        let init = rs.drop_last();
        assert forall|i: int| 0 <= i < init.len() implies writable(#[trigger] init[i]) by {
            assert(init[i] == rs[i]);
        }
        lemma_record_lines_read(init);
        assert(ls.drop_last() =~= Seq::new(init.len(), |i: int| record_line(init[i])));
        lemma_record_roundtrip(rs.last());
        assert(all_as_written(rs) =~= all_as_written(init).push(as_written(rs.last())));
    }
}

proof fn lemma_written_line_shape(r: RecordView)
    requires
        writable(r),
    ensures
        !record_line(r).contains('\n'),
        crate::entry::strip_cr(record_line(r)) == record_line(r),
{
    let t = spec_trim(r.text);
    let hm = time_text(r.at);
    lemma_two_digits(r.at.hour as nat);
    lemma_two_digits(r.at.minute as nat);
    crate::text::lemma_trim_trimmed(r.text);
    let s = record_line(r);
    if s.contains('\n') {
        let i = choose|i: int| 0 <= i < s.len() && s[i] == '\n';
        if i >= 8 {
            assert(t[i - 8] == '\n');
        } else {
            assert(i < 8);
        }
    }
    if t.len() > 0 {
        assert(s.last() == t.last());
    } else {
        assert(s.last() == ' ');
    }
}

proof fn lemma_heading_shape(d: Date)
    requires
        d.wf(),
    ensures
        !day_heading(d).contains('\n'),
        crate::entry::strip_cr(day_heading(d)) == day_heading(d),
        parse_record(day_heading(d)) is None,
{
    crate::calendar::lemma_date_text_chars(d);
    let h = day_heading(d);
    if h.contains('\n') {
        let i = choose|i: int| 0 <= i < h.len() && h[i] == '\n';
        if i >= 2 {
            assert(crate::calendar::date_char(date_text(d)[i - 2]));
        }
    }
    assert(h.last() == date_text(d).last());
}

/// Records appended to a day's journal file read back from it: the file
/// that the first append makes (with the heading) followed by a later
/// append holds the records of both, in order, each with its hour and
/// minute and its trimmed text.
pub proof fn lemma_journal_roundtrip(d: Date, first: Seq<RecordView>, later: Seq<RecordView>)
    requires
        d.wf(),
        forall|i: int| 0 <= i < first.len() ==> writable(#[trigger] first[i]),
        forall|i: int| 0 <= i < later.len() ==> writable(#[trigger] later[i]),
    ensures
        parse_records(
            crate::entry::text_lines(journal_text(d, first, true) + journal_text(d, later, false)),
        ) == all_as_written(first) + all_as_written(later),
{
    let lf = Seq::new(first.len(), |i: int| record_line(first[i]));
    let ll = Seq::new(later.len(), |i: int| record_line(later[i]));
    let head = seq![day_heading(d), Seq::<char>::empty()];
    let ls = head + lf + ll;
    lemma_terminated_concat(head + lf, ll);
    assert(journal_lines(d, first, true) == head + lf);
    assert(journal_lines(d, later, false) == ll);
    lemma_heading_shape(d);
    assert forall|i: int| 0 <= i < ls.len() implies !(#[trigger] ls[i]).contains('\n')
        && crate::entry::strip_cr(ls[i]) == ls[i] by {
        if i == 0 {
        } else if i == 1 {
            assert(ls[1] == Seq::<char>::empty());
        } else if i < 2 + first.len() {
            assert(ls[i] == record_line(first[i - 2]));
            lemma_written_line_shape(first[i - 2]);
        } else {
            assert(ls[i] == record_line(later[i - 2 - first.len()]));
            lemma_written_line_shape(later[i - 2 - first.len()]);
        }
    }
    lemma_terminated_lines(ls);
    lemma_parse_records_concat(head, lf);
    lemma_parse_records_concat(head + lf, ll);
    lemma_record_lines_read(first);
    lemma_record_lines_read(later);
    assert(head.drop_last() =~= seq![day_heading(d)]);
    assert(seq![day_heading(d)].drop_last() =~= Seq::<Seq<char>>::empty());
    assert(parse_record(Seq::<char>::empty()) is None);
    assert(parse_records(Seq::<Seq<char>>::empty()) == Seq::<RecordView>::empty());
    assert(parse_records(seq![day_heading(d)]) == Seq::<RecordView>::empty());
    assert(head.last() == Seq::<char>::empty());
    assert(parse_records(head) =~= Seq::<RecordView>::empty());
}

} // verus!
