//! Calendar dates and clock times, and their text forms.
//!
//! Dates and times are plain values here; the `chrono` crate formats and
//! parses them and reads the local clock.

use chrono::Datelike;
use chrono::Timelike;
use vstd::prelude::*;

use crate::text::{decimal, digit};

verus! {

/// A day of the proleptic Gregorian calendar.
#[derive(Clone, Copy, Debug, PartialEq, Eq, Structural)]
pub struct Date {
    pub year: i32,
    pub month: u32,
    pub day: u32,
}

/// A time of day, to the second.
#[derive(Clone, Copy, Debug, PartialEq, Eq, Structural)]
pub struct Time {
    pub hour: u32,
    pub minute: u32,
    pub second: u32,
}

/// The year is a leap year of the proleptic Gregorian calendar.
pub open spec fn is_leap_year(y: int) -> bool {
    y % 4 == 0 && (y % 100 != 0 || y % 400 == 0)
}

/// The number of days of month `m` of year `y`.
pub open spec fn days_in_month(y: int, m: int) -> int {
    if m == 2 {
        if is_leap_year(y) {
            29
        } else {
            28
        }
    } else if m == 4 || m == 6 || m == 9 || m == 11 {
        30
    } else {
        31
    }
}

impl Date {
    /// The date exists, in the range of years that `chrono` supports.
    pub open spec fn wf(self) -> bool {
        &&& -262143 <= self.year <= 262142
        &&& 1 <= self.month <= 12
        &&& 1 <= self.day <= days_in_month(self.year as int, self.month as int)
    }

    /// Whether the date exists, in the range of years that `chrono` supports.
    pub fn is_valid(&self) -> (b: bool)
        ensures
            b == self.wf(),
    {
        if self.year < -262143 || self.year > 262142 || self.month < 1 || self.month > 12 || self.day < 1 {
            return false;
        }
        let shifted: u64 = (self.year as i64 + 400000) as u64;
        proof {
            assert(shifted as int == self.year + 1000 * 400);
            assert((self.year + 1000 * 400) % 4 == self.year % 4);
            assert((self.year + 1000 * 400) % 100 == self.year % 100);
            assert((self.year + 1000 * 400) % 400 == self.year % 400);
        }
        let leap = shifted % 4 == 0 && (shifted % 100 != 0 || shifted % 400 == 0);
        let last: u32 = if self.month == 2 {
            if leap {
                29
            } else {
                28
            }
        } else if self.month == 4 || self.month == 6 || self.month == 9 || self.month == 11 {
            30
        } else {
            31
        };
        self.day <= last
    }

    /// A number that orders dates as the calendar does.
    pub open spec fn key(self) -> int {
        self.year * 10000 + self.month * 100 + self.day
    }

    /// Whether `self` comes strictly before `other`.
    pub fn before(&self, other: &Date) -> (b: bool)
        requires
            self.wf(),
            other.wf(),
        ensures
            b == (self.key() < other.key()),
    {
        if self.year != other.year {
            self.year < other.year
        } else if self.month != other.month {
            self.month < other.month
        } else {
            self.day < other.day
        }
    }
}

/// Different valid dates have different keys.
pub proof fn lemma_key_injective(a: Date, b: Date)
    requires
        a.wf(),
        b.wf(),
        a.key() == b.key(),
    ensures
        a == b,
{
}

impl Time {
    /// The time exists on a clock.
    pub open spec fn wf(self) -> bool {
        self.hour < 24 && self.minute < 60 && self.second < 60
    }

    /// Whether the time exists on a clock.
    pub fn is_valid(&self) -> (b: bool)
        ensures
            b == self.wf(),
    {
        self.hour < 24 && self.minute < 60 && self.second < 60
    }
}

/// Two decimal digits of `n`, as `%m`, `%d`, `%H` and `%M` write them.
pub open spec fn two_digits(n: nat) -> Seq<char> {
    seq![digit(n / 10), digit(n % 10)]
}

/// The decimal digits of `n`, padded with zeros to at least four.
pub open spec fn four_digits(n: nat) -> Seq<char> {
    let d = decimal(n);
    if d.len() >= 4 {
        d
    } else {
        Seq::new((4 - d.len()) as nat, |i: int| '0') + d
    }
}

/// The year as `%Y` writes it: four digits from 0 to 9999, otherwise with a sign.
pub open spec fn year_text(y: int) -> Seq<char> {
    if 0 <= y <= 9999 {
        four_digits(y as nat)
    } else if y > 9999 {
        seq!['+'] + four_digits(y as nat)
    } else {
        seq!['-'] + four_digits((-y) as nat)
    }
}

/// The date as `%Y-%m-%d` writes it.
pub open spec fn date_text(d: Date) -> Seq<char> {
    year_text(d.year as int) + seq!['-'] + two_digits(d.month as nat) + seq!['-'] + two_digits(
        d.day as nat,
    )
}

/// The time as `%H:%M` writes it.
pub open spec fn time_text(t: Time) -> Seq<char> {
    two_digits(t.hour as nat) + seq![':'] + two_digits(t.minute as nat)
}

/// `c` is an ASCII decimal digit.
pub open spec fn is_ascii_digit(c: char) -> bool {
    '0' <= c && c <= '9'
}

/// The number that two ASCII digits spell.
pub open spec fn two_digit_value(a: char, b: char) -> int {
    (a as int - 48) * 10 + (b as int - 48)
}

/// `s` has the shape `DD:DD` with ASCII digits.
pub open spec fn hm_shape(s: Seq<char>) -> bool {
    &&& s.len() == 5
    &&& is_ascii_digit(s[0])
    &&& is_ascii_digit(s[1])
    &&& s[2] == ':'
    &&& is_ascii_digit(s[3])
    &&& is_ascii_digit(s[4])
}

/// The number that a sequence of decimal digits spells.
pub open spec fn digits_value(s: Seq<char>) -> int
    decreases s.len(),
{
    if s.len() == 0 {
        0
    } else {
        digits_value(s.drop_last()) * 10 + (s.last() as int - 48)
    }
}

/// Every character of `s` is an ASCII digit.
pub open spec fn all_digits(s: Seq<char>) -> bool {
    forall|i: int| 0 <= i < s.len() ==> #[trigger] is_ascii_digit(s[i])
}

/// The character of a digit is the ASCII digit of that value.
pub proof fn lemma_digit(d: nat)
    requires
        d < 10,
    ensures
        digit(d) as int == 48 + d,
        is_ascii_digit(digit(d)),
{
}

/// The decimal representation of `n` is made of digits and spells `n`.
pub proof fn lemma_decimal(n: nat)
    ensures
        digits_value(decimal(n)) == n,
        all_digits(decimal(n)),
        decimal(n).len() >= 1,
    decreases n,
{
    if n < 10 {
        lemma_digit(n);
        assert(decimal(n).drop_last() =~= Seq::<char>::empty());
        assert(digits_value(Seq::<char>::empty()) == 0);
    } else {
        lemma_decimal(n / 10);
        lemma_digit(n % 10);
        assert(decimal(n).drop_last() == decimal(n / 10));
        assert(decimal(n).last() == digit(n % 10));
        assert(n == (n / 10) * 10 + n % 10) by (nonlinear_arith);
        assert(digits_value(decimal(n)) == digits_value(decimal(n / 10)) * 10 + (digit(n % 10) as int
            - 48));
        assert forall|i: int| 0 <= i < decimal(n).len() implies #[trigger] is_ascii_digit(
            decimal(n)[i],
        ) by {
            if i < decimal(n / 10).len() {
                assert(decimal(n)[i] == decimal(n / 10)[i]);
            }
        }
    }
}

/// Leading zeros do not change the value of digits.
pub proof fn lemma_zeros_value(k: nat, x: Seq<char>)
    ensures
        digits_value(Seq::new(k, |i: int| '0') + x) == digits_value(x),
    decreases x.len() + k,
{
    let z = Seq::new(k, |i: int| '0');
    if x.len() == 0 {
        assert(z + x =~= z);
        if k > 0 {
            assert(z.drop_last() =~= Seq::new((k - 1) as nat, |i: int| '0'));
            lemma_zeros_value((k - 1) as nat, x);
            assert(Seq::new((k - 1) as nat, |i: int| '0') + x =~= Seq::new((k - 1) as nat, |i: int| '0'));
        }
    } else {
        assert((z + x).drop_last() =~= z + x.drop_last());
        lemma_zeros_value(k, x.drop_last());
    }
}

/// Four-digit zero padding keeps the value of a number.
pub proof fn lemma_four_digits(n: nat)
    ensures
        digits_value(four_digits(n)) == n,
        all_digits(four_digits(n)),
        four_digits(n).len() >= 1,
{
    lemma_decimal(n);
    let d = decimal(n);
    if d.len() < 4 {
        lemma_zeros_value((4 - d.len()) as nat, d);
        let z = Seq::new((4 - d.len()) as nat, |i: int| '0');
        assert forall|i: int| 0 <= i < four_digits(n).len() implies #[trigger] is_ascii_digit(
            four_digits(n)[i],
        ) by {
            if i < z.len() {
                assert(four_digits(n)[i] == '0');
            } else {
                assert(four_digits(n)[i] == d[i - z.len()]);
            }
        }
    }
}

/// Different years are written differently.
pub proof fn lemma_year_text_injective(a: int, b: int)
    requires
        year_text(a) == year_text(b),
    ensures
        a == b,
{
    lemma_four_digits(a as nat);
    lemma_four_digits(b as nat);
    lemma_four_digits((-a) as nat);
    lemma_four_digits((-b) as nat);
    let ta = year_text(a);
    if 0 <= a <= 9999 {
        assert(is_ascii_digit(ta[0]));
    } else if a > 9999 {
        assert(ta[0] == '+');
        assert(ta.drop_first() =~= four_digits(a as nat));
    } else {
        assert(ta[0] == '-');
        assert(ta.drop_first() =~= four_digits((-a) as nat));
    }
    let tb = year_text(b);
    if 0 <= b <= 9999 {
        assert(is_ascii_digit(tb[0]));
    } else if b > 9999 {
        assert(tb[0] == '+');
        assert(tb.drop_first() =~= four_digits(b as nat));
    } else {
        assert(tb[0] == '-');
        assert(tb.drop_first() =~= four_digits((-b) as nat));
    }
}

/// Different dates are written differently.
pub proof fn lemma_date_text_injective(a: Date, b: Date)
    requires
        a.wf(),
        b.wf(),
        date_text(a) == date_text(b),
    ensures
        a == b,
{
    let ya = year_text(a.year as int);
    let yb = year_text(b.year as int);
    let ta = date_text(a);
    let tb = date_text(b);
    let n = ta.len();
    assert(n == ya.len() + 6);
    assert(ya =~= ta.take(n - 6));
    assert(yb =~= tb.take(n - 6));
    lemma_year_text_injective(a.year as int, b.year as int);
    lemma_digit(a.month as nat / 10);
    lemma_digit(a.month as nat % 10);
    lemma_digit(b.month as nat / 10);
    lemma_digit(b.month as nat % 10);
    lemma_digit(a.day as nat / 10);
    lemma_digit(a.day as nat % 10);
    lemma_digit(b.day as nat / 10);
    lemma_digit(b.day as nat % 10);
    assert(ta[n - 5] == digit(a.month as nat / 10));
    assert(tb[n - 5] == digit(b.month as nat / 10));
    assert(ta[n - 4] == digit(a.month as nat % 10));
    assert(tb[n - 4] == digit(b.month as nat % 10));
    assert(ta[n - 2] == digit(a.day as nat / 10));
    assert(tb[n - 2] == digit(b.day as nat / 10));
    assert(ta[n - 1] == digit(a.day as nat % 10));
    assert(tb[n - 1] == digit(b.day as nat % 10));
    assert(a.month == (a.month / 10) * 10 + a.month % 10);
    assert(b.month == (b.month / 10) * 10 + b.month % 10);
    assert(a.day == (a.day / 10) * 10 + a.day % 10);
    assert(b.day == (b.day / 10) * 10 + b.day % 10);
}

/// A character that a written date may hold: a digit or a sign.
pub open spec fn date_char(c: char) -> bool {
    is_ascii_digit(c) || c == '-' || c == '+'
}

/// A written date holds digits and signs only, and ends with a digit.
pub proof fn lemma_date_text_chars(d: Date)
    requires
        d.wf(),
    ensures
        forall|i: int| 0 <= i < date_text(d).len() ==> #[trigger] date_char(date_text(d)[i]),
        is_ascii_digit(date_text(d).last()),
        date_text(d).len() > 0,
{
    let y = d.year as int;
    lemma_four_digits(y as nat);
    lemma_four_digits((-y) as nat);
    lemma_digit(d.month as nat / 10);
    lemma_digit(d.month as nat % 10);
    lemma_digit(d.day as nat / 10);
    lemma_digit(d.day as nat % 10);
    let yt = year_text(y);
    assert forall|i: int| 0 <= i < yt.len() implies #[trigger] date_char(yt[i]) by {
        if 0 <= y <= 9999 {
            assert(is_ascii_digit(four_digits(y as nat)[i]));
        } else if y > 9999 {
            if i > 0 {
                assert(yt[i] == four_digits(y as nat)[i - 1]);
                assert(is_ascii_digit(four_digits(y as nat)[i - 1]));
            }
        } else {
            if i > 0 {
                assert(yt[i] == four_digits((-y) as nat)[i - 1]);
                assert(is_ascii_digit(four_digits((-y) as nat)[i - 1]));
            }
        }
    }
    let t = date_text(d);
    let n = yt.len();
    assert forall|i: int| 0 <= i < t.len() implies #[trigger] date_char(t[i]) by {
        if i < n {
            assert(t[i] == yt[i]);
        }
    }
}

/// The date that a text of the form `%Y-%m-%d` spells: the existing date that
/// writes as `text`, if there is one, else what chrono reads from it.
pub open spec fn read_date(text: Seq<char>) -> Option<Date> {
    if exists|d: Date| d.wf() && date_text(d) == text {
        Some(choose|d: Date| d.wf() && date_text(d) == text)
    } else {
        chrono_date(text)
    }
}

/// Every existing date reads back from its text.
pub proof fn lemma_read_date_text(d: Date)
    requires
        d.wf(),
    ensures
        read_date(date_text(d)) == Some(d),
{
    let text = date_text(d);
    assert(d.wf() && date_text(d) == text);
    let c = choose|e: Date| e.wf() && date_text(e) == text;
    lemma_date_text_injective(c, d);
}

/// Reads a date; the result is `read_date` of the text.
pub fn read_date_exec(s: &str) -> (r: Option<Date>)
    ensures
        r == read_date(s@),
{
    let r = parse_date(s);
    proof {
        if exists|d: Date| d.wf() && date_text(d) == s@ {
            let c = choose|d: Date| d.wf() && date_text(d) == s@;
            assert(r == Some(c));
        }
    }
    r
}

/// What `chrono::NaiveDate::parse_from_str(text, "%Y-%m-%d")` gives, as a date.
pub uninterp spec fn chrono_date(text: Seq<char>) -> Option<Date>;

/// What `chrono::NaiveTime::parse_from_str(text, "%H:%M")` gives, as a time.
pub uninterp spec fn chrono_time(text: Seq<char>) -> Option<Time>;

/// Writes a date as `%Y-%m-%d`.
///
/// Calls `chrono::NaiveDate::format` with `"%Y-%m-%d"`. The contract claims
/// what chrono's formatting code does for that format: `%Y` writes years from
/// 0 to 9999 as four zero-padded digits and other years with a sign and at
/// least four digits; `%m` and `%d` write two zero-padded digits.
#[verifier::external_body]
pub(crate) fn format_date(d: &Date) -> (s: String)
    requires
        d.wf(),
    ensures
        s@ == date_text(*d),
{
    chrono::NaiveDate::from_ymd_opt(d.year, d.month, d.day).unwrap().format("%Y-%m-%d").to_string()
}

/// Reads a date written as `%Y-%m-%d`.
///
/// Calls `chrono::NaiveDate::parse_from_str` with `"%Y-%m-%d"`. The contract
/// names its result `chrono_date`, and claims that a date it returns exists
/// and that it reads back every existing date that `%Y-%m-%d` writes (chrono
/// reads a signed year of any length and an unsigned one of up to four digits,
/// then two-digit month and day, and checks that the date exists). What it
/// does with other text (it skips whitespace before each number, for one) is
/// left unsaid.
#[verifier::external_body]
pub(crate) fn parse_date(s: &str) -> (r: Option<Date>)
    ensures
        r == chrono_date(s@),
        r matches Some(d) ==> d.wf(),
        forall|d: Date| d.wf() && s@ == date_text(d) ==> r == Some(d),
{
    match chrono::NaiveDate::parse_from_str(s, "%Y-%m-%d") {
        Ok(n) => Some(Date { year: n.year(), month: n.month(), day: n.day() }),
        Err(_) => None,
    }
}

/// Writes a time as `%H:%M`.
///
/// Calls `chrono::NaiveTime::format` with `"%H:%M"`, which writes hour and
/// minute as two zero-padded digits each, separated by a colon.
#[verifier::external_body]
pub(crate) fn format_time(t: &Time) -> (s: String)
    requires
        t.wf(),
    ensures
        s@ == time_text(*t),
{
    chrono::NaiveTime::from_hms_opt(t.hour, t.minute, t.second).unwrap().format("%H:%M").to_string()
}

/// Reads a time written as `%H:%M`.
///
/// Calls `chrono::NaiveTime::parse_from_str` with `"%H:%M"`. The contract
/// names its result `chrono_time`, claims that a time it returns exists, and
/// states what it gives for five characters `DD:DD` of ASCII digits: the hour
/// and minute they spell, with no seconds, when the hour is below 24 and the
/// minute below 60, and nothing otherwise. Other text is left unsaid.
#[verifier::external_body]
pub(crate) fn parse_time(s: &str) -> (r: Option<Time>)
    ensures
        r == chrono_time(s@),
        r matches Some(t) ==> t.wf(),
        hm_shape(s@) ==> r == (if two_digit_value(s@[0], s@[1]) < 24 && two_digit_value(
            s@[3],
            s@[4],
        ) < 60 {
            Some(
                Time {
                    hour: two_digit_value(s@[0], s@[1]) as u32,
                    minute: two_digit_value(s@[3], s@[4]) as u32,
                    second: 0,
                },
            )
        } else {
            None
        }),
{
    match chrono::NaiveTime::parse_from_str(s, "%H:%M") {
        Ok(t) => Some(Time { hour: t.hour(), minute: t.minute(), second: t.second() }),
        Err(_) => None,
    }
}

/// Today's date on the local clock.
///
/// Calls `chrono::Local::now().date_naive()`. The contract claims only that
/// the date exists; which date comes back depends on the clock.
#[verifier::external_body]
pub(crate) fn today() -> (d: Date)
    ensures
        d.wf(),
{
    let n = chrono::Local::now().date_naive();
    Date { year: n.year(), month: n.month(), day: n.day() }
}

/// The current time of day on the local clock.
///
/// Calls `chrono::Local::now().time()`. The contract claims only that the
/// time exists (chrono keeps a leap second in the fraction, so the second is
/// below 60); which time comes back depends on the clock.
#[verifier::external_body]
pub(crate) fn now() -> (t: Time)
    ensures
        t.wf(),
{
    let n = chrono::Local::now().time();
    Time { hour: n.hour(), minute: n.minute(), second: n.second() }
}

/// Today's date by the local clock.
pub fn current_date() -> (d: Date)
    ensures
        d.wf(),
{
    today()
}

/// The time of day by the local clock.
pub fn current_time() -> (t: Time)
    ensures
        t.wf(),
{
    now()
}

} // verus!
