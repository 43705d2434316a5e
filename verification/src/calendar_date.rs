//! Calendar dates: construction, ordering, parsing from `yyyymmdd`, and display.

use vstd::prelude::*;
use core::cmp::Ordering;
use chrono::Datelike;
use crate::decimal::{parse_unsigned, parse_unsigned_range, push_decimal, push_two_digits, decimal_chars, two_digit_chars, all_digits, is_digit, digits_value, unsigned_digits, lemma_decimal_chars_value, lemma_parse_decimal_roundtrip};
use crate::text::{chars_in_bytes, chars_for_bytes, chars_of, char_utf8_len};

verus! {

/// A date of the calendar, used as the day on which a game is played.
#[derive(Clone, Copy, Debug, Hash, PartialEq, Eq, Structural, Ord)]
pub struct CalendarDate {
    pub year: u16,
    pub month: u8,
    pub day: u8,
}

/// `a` comes strictly before `b`: by year, then month, then day.
pub open spec fn date_before(a: CalendarDate, b: CalendarDate) -> bool {
    ||| a.year < b.year
    ||| a.year == b.year && a.month < b.month
    ||| a.year == b.year && a.month == b.month && a.day < b.day
}

/// How `a` compares to `b` in calendar order.
pub open spec fn date_ordering(a: CalendarDate, b: CalendarDate) -> Ordering {
    if date_before(a, b) {
        Ordering::Less
    } else if a == b {
        Ordering::Equal
    } else {
        Ordering::Greater
    }
}

impl CalendarDate {
    /// The date `year`-`month`-`day`; note the order of the arguments.
    pub fn new(day: u8, month: u8, year: u16) -> (d: CalendarDate)
        ensures
            d.year == year,
            d.month == month,
            d.day == day,
    {
        CalendarDate { year, month, day }
    }

    /// Compares two dates by year, then month, then day.
    pub fn compare(&self, other: &Self) -> (o: Ordering)
        ensures
            o == date_ordering(*self, *other),
    {
        if self.year < other.year {
            return Ordering::Less;
        } else {
            if self.year == other.year {
                if self.month < other.month {
                    return Ordering::Less;
                } else {
                    if self.month == other.month {
                        if self.day < other.day {
                            return Ordering::Less;
                        } else if self.day == other.day {
                            return Ordering::Equal;
                        } else {
                            return Ordering::Greater;
                        }
                    } else {
                        return Ordering::Greater;
                    }
                }
            } else {
                return Ordering::Greater;
            }
        }
    }
}

/// Calendar order is a total order: a date compares `Equal` to itself and to nothing else,
/// comparing the other way round gives the opposite answer, and it is transitive.
pub proof fn lemma_date_ordering_total(a: CalendarDate, b: CalendarDate, c: CalendarDate)
    ensures
        (date_ordering(a, b) == Ordering::Equal) == (a == b),
        (date_ordering(a, b) == Ordering::Less) == (date_ordering(b, a) == Ordering::Greater),
        date_ordering(a, b) == Ordering::Less && date_ordering(b, c) == Ordering::Less
            ==> date_ordering(a, c) == Ordering::Less,
        date_ordering(a, b) == Ordering::Greater && date_ordering(b, c) == Ordering::Greater
            ==> date_ordering(a, c) == Ordering::Greater,
{
}

impl PartialOrd for CalendarDate {
    fn partial_cmp(&self, other: &Self) -> (r: Option<Ordering>) {
        Some(self.compare(other))
    }
}

impl vstd::std_specs::cmp::PartialOrdSpecImpl for CalendarDate {
    open spec fn obeys_partial_cmp_spec() -> bool {
        true
    }

    open spec fn partial_cmp_spec(&self, other: &Self) -> Option<Ordering> {
        Some(date_ordering(*self, *other))
    }
}

/// The part of a date-parsing error message that comes before the rejected text.
pub const DATE_FORMAT_ERROR: &'static str = "Parsing of date string failed, must be in format yyyymmdd - provided value was: ";

/// The date that the text `s` spells as `yyyymmdd`: its first four bytes, the next two and
/// the rest are unsigned numerals that fit a `u16`, a `u8` and a `u8`. `None` when they are
/// not, and when `s` cannot be cut after its fourth and its sixth byte (it is too short, or
/// a character spans the cut).
pub open spec fn parse_date(s: Seq<char>) -> Option<CalendarDate> {
    if !date_text_cuttable(s) {
        None
    } else {
        let j4 = chars_in_bytes(s, 4).unwrap();
        let j6 = chars_in_bytes(s, 6).unwrap();
        let y = parse_unsigned(s.subrange(0, j4), 65535);
        let m = parse_unsigned(s.subrange(j4, j6), 255);
        let d = parse_unsigned(s.subrange(j6, s.len() as int), 255);
        if y is Some && m is Some && d is Some {
            Some(CalendarDate { year: y.unwrap() as u16, month: m.unwrap() as u8, day: d.unwrap() as u8 })
        } else {
            None
        }
    }
}

/// `s` can be cut after its fourth and after its sixth byte.
pub open spec fn date_text_cuttable(s: Seq<char>) -> bool {
    chars_in_bytes(s, 4) is Some && chars_in_bytes(s, 6) is Some
}

/// The text that a date displays as: `year-mm-dd`, month and day padded with zeros to two digits.
pub open spec fn date_display(d: CalendarDate) -> Seq<char> {
    decimal_chars(d.year as nat) + seq!['-'] + two_digit_chars(d.month as nat) + seq!['-']
        + two_digit_chars(d.day as nat)
}

/// The current date in UTC, read as `chrono::Utc::now` does but without its panics: the
/// time since the epoch from `SystemTime::now().duration_since(UNIX_EPOCH)`, turned into a
/// date by `chrono::DateTime::from_timestamp`, read through `Datelike::year`, `month` and
/// `day`. `None` when the clock is set before 1970 or the time is out of chrono's range.
/// A month is within 1..=12 and a day within 1..=31, as chrono documents; the year is
/// whatever the clock says.
#[verifier::external_body]
fn utc_now_ymd() -> (r: Option<(i32, u32, u32)>)
    ensures
        r matches Some(t) ==> 1 <= t.1 <= 12 && 1 <= t.2 <= 31,
{
    let since = std::time::SystemTime::now().duration_since(std::time::UNIX_EPOCH).ok()?;
    let now = chrono::DateTime::from_timestamp(since.as_secs() as i64, since.subsec_nanos())?;
    Some((now.year(), now.month(), now.day()))
}

impl CalendarDate {
    /// The date with the given year, month and day, each cut down to the width of its field.
    pub fn from_ymd_parts(year: i32, month: u32, day: u32) -> (d: CalendarDate)
        ensures
            d.year == year as u16,
            d.month == month as u8,
            d.day == day as u8,
    {
        CalendarDate { year: year as u16, month: month as u8, day: day as u8 }
    }

    /// Tells whether this date comes strictly before `other`.
    pub fn is_before(&self, other: &Self) -> (b: bool)
        ensures
            b == date_before(*self, *other),
    {
        self.year < other.year || (self.year == other.year && (self.month < other.month || (
        self.month == other.month && self.day < other.day)))
    }

    /// Today's date, in UTC; `None` when the clock cannot be read as a date (it is set
    /// before 1970, or beyond what chrono can hold).
    pub fn get_date_from_os() -> (d: Option<CalendarDate>)
        ensures
            d matches Some(t) ==> 1 <= t.month <= 12 && 1 <= t.day <= 31,
    {
        match utc_now_ymd() {
            Some((y, m, dd)) => Some(Self::from_ymd_parts(y, m, dd)),
            None => None,
        }
    }

    /// Reads a date written as `yyyymmdd`. On failure the error message ends with `s`.
    pub fn try_from(s: String) -> (r: Result<CalendarDate, String>)
        ensures
            r matches Ok(d) ==> parse_date(s@) == Some(d),
            r matches Err(e) ==> parse_date(s@) is None && e@ == DATE_FORMAT_ERROR@ + s@,
    {
        let v = chars_of(s.as_str());
        let parsed = match (chars_for_bytes(&v, 4), chars_for_bytes(&v, 6)) {
            (Some(j4), Some(j6)) => {
                proof {
                    crate::text::lemma_chars_in_bytes_bound(v@, 4);
                    crate::text::lemma_chars_in_bytes_bound(v@, 6);
                    crate::text::lemma_chars_in_bytes_mono(v@, 4, 6);
                }
                let y = parse_unsigned_range(&v, 0, j4, 65535);
                let m = parse_unsigned_range(&v, j4, j6, 255);
                let d = parse_unsigned_range(&v, j6, v.len(), 255);
                match (y, m, d) {
                    (Some(y), Some(m), Some(d)) => Some(CalendarDate { year: y as u16, month: m as u8, day: d as u8 }),
                    _ => None,
                }
            },
            _ => None,
        };
        match parsed {
            Some(d) => Ok(d),
            None => {
                let mut e = String::from_str(DATE_FORMAT_ERROR);
                e.append(s.as_str());
                Err(e)
            },
        }
    }

    /// The date as `year-mm-dd`.
    pub fn to_display_string(&self) -> (s: String)
        ensures
            s@ == date_display(*self),
    {
        let mut s = String::new();
        push_decimal(&mut s, self.year as u64);
        crate::decimal::string_push(&mut s, '-');
        push_two_digits(&mut s, self.month as u64);
        crate::decimal::string_push(&mut s, '-');
        push_two_digits(&mut s, self.day as u64);
        assert(s@ =~= date_display(*self));
        s
    }
}


/// The display text of a date with its dashes taken out.
pub open spec fn display_without_dashes(d: CalendarDate) -> Seq<char> {
    date_display(d).filter(|c: char| c != '-')
}

proof fn lemma_digits_keep(s: Seq<char>)
    requires
        all_digits(s),
    ensures
        s.filter(|c: char| c != '-') == s,
    decreases s.len(),
{
    reveal(Seq::filter);
    if s.len() > 0 {
        let t = s.drop_last();
        assert(all_digits(t)) by {
            assert forall|i: int| 0 <= i < t.len() implies #[trigger] is_digit(t[i]) by {
                assert(t[i] == s[i]);
            }
        }
        lemma_digits_keep(t);
        assert(is_digit(s[s.len() - 1]));
        assert(t.push(s.last()) =~= s);
    }
}

proof fn lemma_digits_bytes(s: Seq<char>, n: int)
    requires
        0 <= n <= s.len(),
        all_digits(s),
    ensures
        chars_in_bytes(s, n) == Some(n),
    decreases n,
{
    if n > 0 {
        let t = s.drop_first();
        assert(all_digits(t)) by {
            assert forall|i: int| 0 <= i < t.len() implies #[trigger] is_digit(t[i]) by {
                assert(t[i] == s[i + 1]);
            }
        }
        assert(is_digit(s[0]));
        vstd::utf8::char_is_scalar(s[0]);
        assert(char_utf8_len(s[0]) == 1);
        lemma_digits_bytes(t, n - 1);
    }
}

/// A numeral has one digit below 10, two below 100, three below 1000 and four below 10000.
pub proof fn lemma_decimal_len(n: nat)
    ensures
        n < 10 ==> decimal_chars(n).len() == 1,
        10 <= n < 100 ==> decimal_chars(n).len() == 2,
        100 <= n < 1000 ==> decimal_chars(n).len() == 3,
        1000 <= n < 10000 ==> decimal_chars(n).len() == 4,
    decreases n,
{
    if n >= 10 {
        lemma_decimal_len(n / 10);
    }
}

/// A number written with at least two digits reads back as itself, whenever it fits.
pub proof fn lemma_two_digits_read(n: nat, max: nat)
    requires
        n <= max,
    ensures
        parse_unsigned(two_digit_chars(n), max) == Some(n),
        all_digits(two_digit_chars(n)),
{
    lemma_decimal_chars_value(n);
    if n < 10 {
        let t = decimal_chars(n);
        let s = seq!['0'] + t;
        lemma_decimal_len(n);
        assert(s.drop_last() =~= seq!['0']);
        assert(seq!['0'].drop_last() =~= Seq::<char>::empty());
        assert(t.drop_last() =~= Seq::<char>::empty());
        assert(digits_value(seq!['0']) == 0);
        assert(s.last() == t.last());
        assert(digits_value(t) == (t.last() as u32 - 48) as nat);
        assert(all_digits(s)) by {
            assert forall|i: int| 0 <= i < s.len() implies #[trigger] is_digit(s[i]) by {
                if i == 1 {
                    assert(s[1] == t[0]);
                }
            }
        }
        assert(s[0] == '0');
        assert(unsigned_digits(s) == s);
    } else {
        lemma_parse_decimal_roundtrip(n, max);
    }
}

proof fn lemma_join_dashes_out(a: Seq<char>, b: Seq<char>, c: Seq<char>)
    requires
        all_digits(a),
        all_digits(b),
        all_digits(c),
    ensures
        (a + seq!['-'] + b + seq!['-'] + c).filter(|ch: char| ch != '-') == a + b + c,
{
    let pred = |ch: char| ch != '-';
    let dash = seq!['-'];
    lemma_digits_keep(a);
    lemma_digits_keep(b);
    lemma_digits_keep(c);
    assert(dash.filter(pred) =~= Seq::<char>::empty()) by {
        reveal_with_fuel(Seq::filter, 2);
        assert(dash.drop_last() =~= Seq::<char>::empty());
        assert(dash.last() == '-');
        assert(!pred(dash.last()));
    }
    Seq::filter_distributes_over_add(a, dash, pred);
    let s1 = a + dash;
    assert(s1.filter(pred) =~= a);
    Seq::filter_distributes_over_add(s1, b, pred);
    let s2 = s1 + b;
    assert(s2.filter(pred) =~= a + b);
    Seq::filter_distributes_over_add(s2, dash, pred);
    let s3 = s2 + dash;
    assert(s3.filter(pred) =~= a + b);
    Seq::filter_distributes_over_add(s3, c, pred);
    assert((s3 + c).filter(pred) =~= a + b + c);
}

proof fn lemma_dashes_out(d: CalendarDate)
    ensures
        display_without_dashes(d) == decimal_chars(d.year as nat) + two_digit_chars(d.month as nat)
            + two_digit_chars(d.day as nat),
{
    lemma_decimal_chars_value(d.year as nat);
    lemma_two_digits_read(d.month as nat, d.month as nat);
    lemma_two_digits_read(d.day as nat, d.day as nat);
    lemma_join_dashes_out(decimal_chars(d.year as nat), two_digit_chars(d.month as nat), two_digit_chars(d.day as nat));
}

/// A date shown as `year-mm-dd`, with the dashes taken out, reads back as the same date,
/// whenever its year has four digits and its month at most two.
pub proof fn lemma_display_reads_back(d: CalendarDate)
    requires
        1000 <= d.year <= 9999,
        d.month <= 99,
    ensures
        parse_date(display_without_dashes(d)) == Some(d),
{
    let y = decimal_chars(d.year as nat);
    let m = two_digit_chars(d.month as nat);
    let dd = two_digit_chars(d.day as nat);
    lemma_dashes_out(d);
    lemma_decimal_chars_value(d.year as nat);
    lemma_decimal_len(d.year as nat);
    lemma_decimal_len(d.month as nat);
    lemma_two_digits_read(d.month as nat, 255);
    lemma_two_digits_read(d.day as nat, 255);
    lemma_parse_decimal_roundtrip(d.year as nat, 65535);
    let s = y + m + dd;
    assert(y.len() == 4);
    assert(m.len() == 2);
    assert(all_digits(s)) by {
        assert forall|i: int| 0 <= i < s.len() implies #[trigger] is_digit(s[i]) by {
            if i < 4 {
                assert(s[i] == y[i]);
            } else if i < 6 {
                assert(s[i] == m[i - 4]);
            } else {
                assert(s[i] == dd[i - 6]);
            }
        }
    }
    lemma_digits_bytes(s, 4);
    lemma_digits_bytes(s, 6);
    assert(s.subrange(0, 4) =~= y);
    assert(s.subrange(4, 6) =~= m);
    assert(s.subrange(6, s.len() as int) =~= dd);
}

/// Calendar order compares the year first, then the month, then the day: an earlier year
/// comes first whatever the month and day, and so does an earlier month of the same year.
pub proof fn lemma_date_ordering_by_fields(a: CalendarDate, b: CalendarDate)
    ensures
        a.year < b.year ==> date_ordering(a, b) == Ordering::Less && date_before(a, b),
        a.year == b.year && a.month < b.month ==> date_ordering(a, b) == Ordering::Less && date_before(a, b),
        a.year == b.year && a.month == b.month && a.day < b.day ==> date_ordering(a, b) == Ordering::Less
            && date_before(a, b),
        a.year == b.year && a.month == b.month && a.day == b.day ==> date_ordering(a, b) == Ordering::Equal
            && !date_before(a, b),
        a.year > b.year ==> date_ordering(a, b) == Ordering::Greater && !date_before(a, b),
        a.year == b.year && a.month > b.month ==> date_ordering(a, b) == Ordering::Greater && !date_before(a, b),
{
}

} // verus!
