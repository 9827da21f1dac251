//! Slugs: the file names of archived notes, derived from their titles.

use vstd::prelude::*;

use crate::text::{chars_of, split_chars, split_on, string_of, views};

verus! {

/// What `str::to_lowercase` gives for a string.
pub uninterp spec fn lowercase(s: Seq<char>) -> Seq<char>;

/// What `char::is_alphanumeric` gives for a character.
pub uninterp spec fn alphanumeric(c: char) -> bool;

/// Lowercases a string.
///
/// Calls `str::to_lowercase`. Its result follows the Unicode case tables
/// (and can be longer than its input); the contract only names it.
#[verifier::external_body]
fn to_lowercase(s: &str) -> (r: String)
    ensures
        r@ == lowercase(s@),
{
    s.to_lowercase()
}

/// Whether a character is alphanumeric.
///
/// Calls `char::is_alphanumeric`, which follows the Unicode `Alphabetic` and
/// numeric properties; the contract only names its result.
#[verifier::external_body]
fn is_alphanumeric(c: char) -> (b: bool)
    ensures
        b == alphanumeric(c),
{
    c.is_alphanumeric()
}

/// Every character that is not alphanumeric replaced by a hyphen.
pub open spec fn hyphenated(s: Seq<char>) -> Seq<char> {
    Seq::new(s.len(), |i: int| if alphanumeric(s[i]) { s[i] } else { '-' })
}

/// The non-empty pieces of `ps`, in order.
pub open spec fn drop_empty(ps: Seq<Seq<char>>) -> Seq<Seq<char>>
    decreases ps.len(),
{
    if ps.len() == 0 {
        ps
    } else if ps.last().len() == 0 {
        drop_empty(ps.drop_last())
    } else {
        drop_empty(ps.drop_last()).push(ps.last())
    }
}

/// The words joined with single hyphens.
pub open spec fn join_words(ws: Seq<Seq<char>>) -> Seq<char>
    decreases ws.len(),
{
    if ws.len() == 0 {
        Seq::empty()
    } else if ws.len() == 1 {
        ws[0]
    } else {
        join_words(ws.drop_last()) + seq!['-'] + ws.last()
    }
}

/// The runs of `m` between hyphens, empty ones dropped, joined by single hyphens.
pub open spec fn collapse_hyphens(m: Seq<char>) -> Seq<char> {
    join_words(drop_empty(split_on(m, '-')))
}

/// The slug of a title: lowercased, every run of characters that are not
/// alphanumeric turned into one hyphen, none at either end.
pub open spec fn slug_of(title: Seq<char>) -> Seq<char> {
    collapse_hyphens(hyphenated(lowercase(title)))
}

/// Every character is a hyphen or alphanumeric.
pub open spec fn hyphens_and_words(s: Seq<char>) -> bool {
    forall|i: int| 0 <= i < s.len() ==> s[i] == '-' || alphanumeric(#[trigger] s[i])
}

/// The text neither starts nor ends with a hyphen, and no two hyphens
/// follow each other.
pub open spec fn single_hyphens(s: Seq<char>) -> bool {
    &&& s.len() > 0 ==> s[0] != '-' && s.last() != '-'
    &&& forall|i: int| 0 <= i < s.len() - 1 ==> !(#[trigger] s[i] == '-' && s[i + 1] == '-')
}

/// The characters of the words: alphanumeric, and none a hyphen.
pub open spec fn word_chars(ws: Seq<Seq<char>>) -> bool {
    forall|k: int, j: int|
        0 <= k < ws.len() && 0 <= j < ws[k].len() ==> (#[trigger] ws[k][j]) != '-' && alphanumeric(
            ws[k][j],
        )
}

proof fn lemma_split_words(m: Seq<char>)
    requires
        hyphens_and_words(m),
    ensures
        word_chars(split_on(m, '-')),
    decreases m.len(),
{
    if m.len() > 0 {
        let init = m.drop_last();
        assert forall|i: int| 0 <= i < init.len() implies init[i] == '-' || alphanumeric(#[trigger] init[i]) by {
            assert(init[i] == m[i]);
        }
        lemma_split_words(init);
        crate::text::lemma_split_on_nonempty(init, '-');
        let p = split_on(init, '-');
        let q = split_on(m, '-');
        assert(m[m.len() - 1] == m.last());
        if m.last() != '-' {
            assert forall|k: int, j: int| 0 <= k < q.len() && 0 <= j < q[k].len() implies (
            #[trigger] q[k][j]) != '-' && alphanumeric(q[k][j]) by {
                if k == p.len() - 1 && j == p.last().len() {
                } else if k == p.len() - 1 {
                    assert(q[k][j] == p[k][j]);
                } else {
                    assert(q[k] == p[k]);
                }
            }
        } else {
            assert forall|k: int, j: int| 0 <= k < q.len() && 0 <= j < q[k].len() implies (
            #[trigger] q[k][j]) != '-' && alphanumeric(q[k][j]) by {
                assert(q[k] == p[k]);
            }
        }
    }
}

proof fn lemma_drop_empty_words(ps: Seq<Seq<char>>)
    requires
        word_chars(ps),
    ensures
        word_chars(drop_empty(ps)),
        forall|k: int| 0 <= k < drop_empty(ps).len() ==> (#[trigger] drop_empty(ps)[k]).len() > 0,
    decreases ps.len(),
{
    if ps.len() > 0 {
        let init = ps.drop_last();
        assert forall|k: int, j: int| 0 <= k < init.len() && 0 <= j < init[k].len() implies (
        #[trigger] init[k][j]) != '-' && alphanumeric(init[k][j]) by {
            assert(init[k] == ps[k]);
        }
        lemma_drop_empty_words(init);
        assert(ps[ps.len() - 1] == ps.last());
    }
}

proof fn lemma_join_words(ws: Seq<Seq<char>>)
    requires
        word_chars(ws),
        forall|k: int| 0 <= k < ws.len() ==> (#[trigger] ws[k]).len() > 0,
    ensures
        hyphens_and_words(join_words(ws)),
        single_hyphens(join_words(ws)),
        ws.len() > 0 ==> join_words(ws).len() > 0,
    decreases ws.len(),
{
    if ws.len() == 1 {
        let w = ws[0];
        assert forall|i: int| 0 <= i < w.len() implies w[i] != '-' && alphanumeric(#[trigger] w[i]) by {
            assert(ws[0][i] == w[i]);
        }
        assert(w[w.len() - 1] == w.last());
    } else if ws.len() > 1 {
        let init = ws.drop_last();
        assert forall|k: int, j: int| 0 <= k < init.len() && 0 <= j < init[k].len() implies (
        #[trigger] init[k][j]) != '-' && alphanumeric(init[k][j]) by {
            assert(init[k] == ws[k]);
        }
        assert forall|k: int| 0 <= k < init.len() implies (#[trigger] init[k]).len() > 0 by {
            assert(init[k] == ws[k]);
        }
        lemma_join_words(init);
        let a = join_words(init);
        let w = ws.last();
        assert(ws[ws.len() - 1] == w);
        assert forall|i: int| 0 <= i < w.len() implies w[i] != '-' && alphanumeric(#[trigger] w[i]) by {
            assert(ws[ws.len() - 1][i] == w[i]);
        }
        let s = join_words(ws);
        assert(s == a + seq!['-'] + w);
        assert(a[a.len() - 1] == a.last());
        assert(w[w.len() - 1] == w.last());
        assert forall|i: int| 0 <= i < s.len() implies s[i] == '-' || alphanumeric(#[trigger] s[i]) by {
            if i < a.len() {
                assert(s[i] == a[i]);
            } else if i > a.len() {
                assert(s[i] == w[i - a.len() - 1]);
            }
        }
        assert forall|i: int| 0 <= i < s.len() - 1 implies !(#[trigger] s[i] == '-' && s[i + 1] == '-') by {
            if i + 1 < a.len() {
                assert(s[i] == a[i]);
                assert(s[i + 1] == a[i + 1]);
            } else if i + 1 == a.len() {
                assert(s[i] == a.last());
            } else if i == a.len() {
                assert(s[i + 1] == w[0]);
            } else {
                assert(s[i + 1] == w[i - a.len()]);
            }
        }
        assert(s[0] == a[0]);
        assert(s.last() == w.last());
    }
}

/// What a slug looks like: every character is alphanumeric or a hyphen, it
/// neither starts nor ends with a hyphen, and no two hyphens follow each
/// other.
pub proof fn lemma_slug_shape(title: Seq<char>)
    ensures
        hyphens_and_words(slug_of(title)),
        single_hyphens(slug_of(title)),
{
    let m = hyphenated(lowercase(title));
    assert forall|i: int| 0 <= i < m.len() implies m[i] == '-' || alphanumeric(#[trigger] m[i]) by {}
    lemma_split_words(m);
    lemma_drop_empty_words(split_on(m, '-'));
    lemma_join_words(drop_empty(split_on(m, '-')));
}

/// A character that a slug keeps: alphanumeric, and not a hyphen.
pub open spec fn word_char(c: char) -> bool {
    c != '-' && alphanumeric(c)
}

/// The maximal runs of word characters of `s`, in order.
pub open spec fn word_runs(s: Seq<char>) -> Seq<Seq<char>>
    decreases s.len(),
{
    if s.len() == 0 {
        Seq::empty()
    } else {
        let r = word_runs(s.drop_last());
        let c = s.last();
        if !word_char(c) {
            r
        } else if s.len() >= 2 && word_char(s[s.len() - 2]) {
            r.update(r.len() - 1, r.last().push(c))
        } else {
            r.push(seq![c])
        }
    }
}

proof fn lemma_split_last_empty(m: Seq<char>)
    ensures
        split_on(m, '-').len() >= 1,
        (split_on(m, '-').last().len() == 0) <==> (m.len() == 0 || m.last() == '-'),
    decreases m.len(),
{
    crate::text::lemma_split_on_nonempty(m, '-');
    if m.len() > 0 {
        lemma_split_last_empty(m.drop_last());
    }
}

proof fn lemma_runs_of_hyphenated(s: Seq<char>)
    ensures
        drop_empty(split_on(hyphenated(s), '-')) == word_runs(s),
    decreases s.len(),
{
    if s.len() > 0 {
        let init = s.drop_last();
        let h = hyphenated(s);
        assert(h.drop_last() =~= hyphenated(init));
        assert(h.last() == h[s.len() - 1]);
        lemma_runs_of_hyphenated(init);
        lemma_split_last_empty(hyphenated(init));
        let p = split_on(hyphenated(init), '-');
        let c = s.last();
        let r = word_runs(init);
        if word_char(c) {
            assert(h.last() == c);
            let q = p.update(p.len() - 1, p.last().push(c));
            assert(split_on(h, '-') == q);
            assert(q.drop_last() =~= p.drop_last());
            assert(q.last() == p.last().push(c));
            if s.len() >= 2 && word_char(s[s.len() - 2]) {
                assert(init.last() == s[s.len() - 2]);
                assert(hyphenated(init).last() == hyphenated(init)[init.len() - 1]);
                assert(p.last().len() > 0);
                assert(drop_empty(q) == drop_empty(p.drop_last()).push(p.last().push(c)));
                assert(drop_empty(p) == drop_empty(p.drop_last()).push(p.last()));
                assert(drop_empty(q) =~= r.update(r.len() - 1, r.last().push(c)));
            } else {
                if init.len() > 0 {
                    assert(init.last() == s[s.len() - 2]);
                    assert(hyphenated(init).last() == hyphenated(init)[init.len() - 1]);
                }
                assert(p.last().len() == 0);
                assert(p.last().push(c) =~= seq![c]);
                assert(drop_empty(p) == drop_empty(p.drop_last()));
            }
        } else {
            assert(h.last() == '-');
            assert(split_on(h, '-') == p.push(Seq::<char>::empty()));
            assert(p.push(Seq::<char>::empty()).drop_last() =~= p);
            assert(drop_empty(p.push(Seq::<char>::empty())) == drop_empty(p));
        }
    } else {
        let e = Seq::<char>::empty();
        assert(hyphenated(s) =~= e);
        assert(split_on(e, '-') == seq![e]);
        assert(seq![e].drop_last() =~= Seq::<Seq<char>>::empty());
        assert(drop_empty(seq![e]) == drop_empty(Seq::<Seq<char>>::empty()));
    }
}

proof fn lemma_split_join(ws: Seq<Seq<char>>)
    requires
        ws.len() > 0,
        word_chars(ws),
    ensures
        split_on(join_words(ws), '-') == ws,
    decreases ws.len(),
{
    if ws.len() == 1 {
        assert(!ws[0].contains('-')) by {
            if ws[0].contains('-') {
                let j = choose|j: int| 0 <= j < ws[0].len() && ws[0][j] == '-';
                assert(ws[0][j] != '-');
            }
        }
        crate::text::lemma_split_single(ws[0], '-');
        assert(seq![ws[0]] =~= ws);
    } else {
        let init = ws.drop_last();
        assert forall|k: int, j: int| 0 <= k < init.len() && 0 <= j < init[k].len() implies (
        #[trigger] init[k][j]) != '-' && alphanumeric(init[k][j]) by {
            assert(init[k] == ws[k]);
        }
        lemma_split_join(init);
        let w = ws.last();
        assert(ws[ws.len() - 1] == w);
        assert(!w.contains('-')) by {
            if w.contains('-') {
                let j = choose|j: int| 0 <= j < w.len() && w[j] == '-';
                assert(ws[ws.len() - 1][j] != '-');
            }
        }
        crate::text::lemma_split_single(w, '-');
        crate::text::lemma_split_concat(join_words(init), w, '-');
        assert(init + seq![w] =~= ws);
    }
}

/// The pieces of a slug: a slug is the maximal runs of word characters
/// (alphanumeric, never a hyphen) of the lowercased title, in order, joined
/// by single hyphens; splitting it at its hyphens gives those runs back, and
/// it is empty exactly when the lowercased title has no such run.
pub proof fn lemma_slug_pieces(title: Seq<char>)
    ensures
        slug_of(title) == join_words(word_runs(lowercase(title))),
        word_runs(lowercase(title)).len() > 0 ==> split_on(slug_of(title), '-') == word_runs(
            lowercase(title),
        ),
        (slug_of(title).len() == 0) <==> (word_runs(lowercase(title)).len() == 0),
{
    let l = lowercase(title);
    let m = hyphenated(l);
    lemma_runs_of_hyphenated(l);
    assert forall|i: int| 0 <= i < m.len() implies m[i] == '-' || alphanumeric(#[trigger] m[i]) by {}
    lemma_split_words(m);
    lemma_drop_empty_words(split_on(m, '-'));
    lemma_join_words(word_runs(l));
    if word_runs(l).len() > 0 {
        lemma_split_join(word_runs(l));
    }
}

/// The runs between hyphens, empty ones dropped, joined by single hyphens.
pub fn collapse_hyphen_runs(m: &Vec<char>) -> (r: Vec<char>)
    ensures
        r@ == collapse_hyphens(m@),
{
    let parts = split_chars(m, '-');
    let ghost ps = views(parts@);
    let mut words: Vec<Vec<char>> = Vec::new();
    let mut i: usize = 0;
    while i < parts.len()
        invariant
            i <= parts.len(),
            ps == views(parts@),
            views(words@) == drop_empty(ps.take(i as int)),
        decreases parts.len() - i,
    {
        assert(ps.take(i + 1).drop_last() == ps.take(i as int));
        if parts[i].len() > 0 {
            let w = parts[i].clone();
            let ghost before = views(words@);
            words.push(w);
            assert(views(words@) =~= before.push(ps[i as int]));
        }
        i = i + 1;
    }
    assert(ps.take(parts.len() as int) == ps);
    let ghost ws = views(words@);
    let mut out: Vec<char> = Vec::new();
    let mut k: usize = 0;
    while k < words.len()
        invariant
            k <= words.len(),
            ws == views(words@),
            out@ == join_words(ws.take(k as int)),
        decreases words.len() - k,
    {
        assert(ws.take(k + 1).drop_last() == ws.take(k as int));
        if k > 0 {
            out.push('-');
        }
        let mut j: usize = 0;
        let ghost start = out@;
        while j < words[k].len()
            invariant
                k < words.len(),
                j <= words[k as int]@.len(),
                out@ == start + words[k as int]@.take(j as int),
            decreases words[k as int]@.len() - j,
        {
            out.push(words[k][j]);
            assert(words[k as int]@.take(j + 1) == words[k as int]@.take(j as int).push(
                words[k as int]@[j as int],
            ));
            j = j + 1;
        }
        assert(words[k as int]@.take(j as int) == ws[k as int]);
        if k == 0 {
            assert(ws.take(1)[0] == ws[0]);
        }
        k = k + 1;
    }
    assert(ws.take(words.len() as int) == ws);
    out
}

/// The slug of a title.
pub fn slugify(title: &str) -> (slug: String)
    ensures
        slug@ == slug_of(title@),
{
    let lower = to_lowercase(title);
    let cs = chars_of(lower.as_str());
    let mut mapped: Vec<char> = Vec::new();
    let mut i: usize = 0;
    while i < cs.len()
        invariant
            i <= cs.len(),
            cs@ == lowercase(title@),
            mapped@ == hyphenated(cs@).take(i as int),
        decreases cs.len() - i,
    {
        let c = cs[i];
        if is_alphanumeric(c) {
            mapped.push(c);
        } else {
            mapped.push('-');
        }
        assert(mapped@ =~= hyphenated(cs@).take(i + 1));
        i = i + 1;
    }
    assert(mapped@ =~= hyphenated(cs@));
    let r = collapse_hyphen_runs(&mapped);
    string_of(&r)
}

} // verus!
