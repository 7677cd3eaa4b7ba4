//! Calendar dates as the ledger reads and writes them.

use vstd::prelude::*;
use crate::chars::{all_digits, decimal, digits_value, find_char, first_index, lemma_first_index,
    push_decimal, push_signed_decimal, read_digits, signed_decimal};

verus! {

/// A day of the proleptic Gregorian calendar.
#[derive(Clone, Copy, Debug, PartialEq, Eq, Structural)]
pub struct Date {
    pub year: i32,
    pub month: u8,
    pub day: u8,
}

/// The first year that a date can have.
pub const MIN_YEAR: i32 = -9999;

/// The last year that a date can have.
pub const MAX_YEAR: i32 = 9999;

/// Whether a year of the Gregorian calendar has a 29th of February.
pub open spec fn is_leap_year(year: int) -> bool {
    year % 4 == 0 && (year % 100 != 0 || year % 400 == 0)
}

/// The number of days of a month in a year.
pub open spec fn days_in_month(year: int, month: int) -> int {
    if month == 2 {
        if is_leap_year(year) { 29 } else { 28 }
    } else if month == 4 || month == 6 || month == 9 || month == 11 {
        30
    } else {
        31
    }
}

/// Whether the calendar has the day `day` of month `month` in year `year`.
pub open spec fn is_calendar_date(year: int, month: int, day: int) -> bool {
    &&& MIN_YEAR <= year <= MAX_YEAR
    &&& 1 <= month <= 12
    &&& 1 <= day <= days_in_month(year, month)
}

/// Asks `time::Date::from_calendar_date` (after `time::Month::try_from`)
/// whether a date exists. It accepts the years from -9999 to 9999, the
/// months from 1 to 12 and the days that the month has in that year, by the
/// Gregorian leap-year rule.
#[verifier::external_body]
fn calendar_date_exists(year: i32, month: u8, day: u8) -> (r: bool)
    ensures
        r == is_calendar_date(year as int, month as int, day as int),
{
    match time::Month::try_from(month) {
        Ok(m) => time::Date::from_calendar_date(year, m, day).is_ok(),
        Err(_) => false,
    }
}

/// The date that a literal `D.M.Y` denotes: one or two digits for the day,
/// one or two for the month, up to four for the year (none stands for year
/// 0), and the day must exist.
pub open spec fn date_of_literal(s: Seq<char>) -> Option<Date> {
    let p = first_index(s, '.', 0);
    let q = first_index(s, '.', p + 1);
    let d = s.subrange(0, p);
    let m = s.subrange(p + 1, q);
    let y = s.subrange(q + 1, s.len() as int);
    if p < q < s.len() && 1 <= d.len() <= 2 && 1 <= m.len() <= 2 && y.len() <= 4 && all_digits(d)
        && all_digits(m) && all_digits(y) && is_calendar_date(
        digits_value(y) as int,
        digits_value(m) as int,
        digits_value(d) as int,
    ) {
        Some(
            Date {
                year: digits_value(y) as i32,
                month: digits_value(m) as u8,
                day: digits_value(d) as u8,
            },
        )
    } else {
        None
    }
}

/// The literal that writes a date: day, month and year without padding,
/// separated by full stops.
pub open spec fn date_text(d: Date) -> Seq<char> {
    decimal(d.day as nat) + seq!['.'] + decimal(d.month as nat) + seq!['.'] + signed_decimal(
        d.year as int,
    )
}

impl Date {
    /// Whether the calendar has the date.
    pub open spec fn is_valid(self) -> bool {
        is_calendar_date(self.year as int, self.month as int, self.day as int)
    }

    /// Whether `self` is the same day as `other` or an earlier one.
    pub open spec fn le(self, other: Date) -> bool {
        self.year < other.year || (self.year == other.year && (self.month < other.month || (
        self.month == other.month && self.day <= other.day)))
    }

    /// The date with the given year, month and day, if the calendar has it.
    pub fn from_calendar_date(year: i32, month: u8, day: u8) -> (r: Option<Date>)
        ensures
            r == (if is_calendar_date(year as int, month as int, day as int) {
                Some(Date { year, month, day })
            } else {
                None
            }),
    {
        if calendar_date_exists(year, month, day) {
            Some(Date { year, month, day })
        } else {
            None
        }
    }

    /// The earliest date that can be represented.
    pub fn earliest() -> (r: Date)
        ensures
            r == (Date { year: MIN_YEAR, month: 1, day: 1 }),
            r.is_valid(),
    {
        Date { year: MIN_YEAR, month: 1, day: 1 }
    }

    /// The same day and month in another year, if that year has them.
    pub fn replace_year(self, year: i32) -> (r: Option<Date>)
        ensures
            r == (if is_calendar_date(year as int, self.month as int, self.day as int) {
                Some(Date { year, month: self.month, day: self.day })
            } else {
                None
            }),
    {
        Date::from_calendar_date(year, self.month, self.day)
    }

    /// Whether `self` is the same day as `other` or an earlier one.
    pub fn is_le(self, other: Date) -> (r: bool)
        ensures
            r == self.le(other),
    {
        self.year < other.year || (self.year == other.year && (self.month < other.month || (
        self.month == other.month && self.day <= other.day)))
    }

    /// Reads a date literal.
    pub fn parse(text: &Vec<char>) -> (r: Option<Date>)
        ensures
            r == date_of_literal(text@),
            r matches Some(d) ==> d.is_valid(),
    {
        let n = text.len();
        let p = find_char(text, '.', 0);
        if p >= n {
            return None;
        }
        let q = find_char(text, '.', p + 1);
        if q >= n {
            return None;
        }
        if p < 1 || p > 2 || q - p - 1 < 1 || q - p - 1 > 2 || n - q - 1 > 4 {
            return None;
        }
        let day = match read_digits(text, 0, p) {
            Some(v) => v,
            None => { return None; },
        };
        let month = match read_digits(text, p + 1, q) {
            Some(v) => v,
            None => { return None; },
        };
        let year = match read_digits(text, q + 1, n) {
            Some(v) => v,
            None => { return None; },
        };
        proof {
            crate::chars::lemma_digits_value_bound(text@.subrange(0, p as int));
            crate::chars::lemma_digits_value_bound(text@.subrange(p + 1, q as int));
            crate::chars::lemma_digits_value_bound(text@.subrange(q + 1, n as int));
            crate::chars::lemma_pow10_values();
            crate::chars::lemma_pow10_monotone(text@.subrange(0, p as int).len(), 2);
            crate::chars::lemma_pow10_monotone(text@.subrange(p + 1, q as int).len(), 2);
            crate::chars::lemma_pow10_monotone(text@.subrange(q + 1, n as int).len(), 4);
        }
        Date::from_calendar_date(year as i32, month as u8, day as u8)
    }

    /// Writes the date as a literal.
    pub fn format(self) -> (s: String)
        ensures
            s@ == date_text(self),
    {
        let mut s = String::new();
        push_decimal(&mut s, self.day as u32);
        s.push('.');
        push_decimal(&mut s, self.month as u32);
        s.push('.');
        push_signed_decimal(&mut s, self.year);
        proof {
            assert(s@ =~= date_text(self));
        }
        s
    }
}

/// Whether a run of digits is written without padding: it has a digit,
/// and no zero in front of another digit.
pub open spec fn is_unpadded(s: Seq<char>) -> bool {
    &&& s.len() >= 1
    &&& all_digits(s)
    &&& s.len() > 1 ==> s[0] != '0'
}

/// The numeral of the number that an unpadded run of digits denotes is
/// the run itself.
pub proof fn lemma_decimal_of_digits(s: Seq<char>)
    requires
        is_unpadded(s),
    ensures
        decimal(digits_value(s)) == s,
        s.len() > 1 ==> digits_value(s) >= 10,
        digits_value(s) >= 1 || s.len() == 1,
    decreases s.len(),
{
    let c = s.last();
    assert(crate::chars::is_digit(c));
    let d = crate::chars::digit_value(c);
    assert(crate::chars::digit_char(d) == c);
    if s.len() == 1 {
        assert(s.drop_last().len() == 0);
        assert(digits_value(s.drop_last()) == 0);
        assert(digits_value(s) == d);
        assert(decimal(d as nat) =~= s);
    } else {
        let head = s.drop_last();
        assert forall|i: int| 0 <= i < head.len() implies crate::chars::is_digit(
            #[trigger] head[i],
        ) by {
            assert(head[i] == s[i]);
        }
        assert(head[0] == s[0]);
        lemma_decimal_of_digits(head);
        let h = digits_value(head);
        if head.len() == 1 {
            assert(head.last() == head[0]);
            assert(head.drop_last().len() == 0);
            assert(digits_value(head.drop_last()) == 0);
            assert(h == crate::chars::digit_value(head[0]));
            assert(h >= 1);
        }
        assert(h >= 1);
        let v = digits_value(s);
        assert(v == h * 10 + d);
        assert(v / 10 == h && v % 10 == d) by {
            assert(0 <= d < 10);
        }
        assert(decimal(v) == decimal(h).push(c));
        assert(decimal(h).push(c) =~= s);
    }
}

/// A date literal that is written without padding is what its date is
/// written as: reading it and writing the date gives the literal back.
pub proof fn lemma_date_literal_round_trip(s: Seq<char>)
    requires
        date_of_literal(s) is Some,
        ({
            let p = first_index(s, '.', 0);
            let q = first_index(s, '.', p + 1);
            &&& is_unpadded(s.subrange(0, p))
            &&& is_unpadded(s.subrange(p + 1, q))
            &&& is_unpadded(s.subrange(q + 1, s.len() as int))
        }),
    ensures
        date_text(date_of_literal(s)->Some_0) == s,
{
    let p = first_index(s, '.', 0);
    let q = first_index(s, '.', p + 1);
    lemma_first_index(s, '.', 0);
    lemma_first_index(s, '.', p + 1);
    let d = s.subrange(0, p);
    let m = s.subrange(p + 1, q);
    let y = s.subrange(q + 1, s.len() as int);
    lemma_decimal_of_digits(d);
    lemma_decimal_of_digits(m);
    lemma_decimal_of_digits(y);
    let date = date_of_literal(s)->Some_0;
    assert(date.day as nat == digits_value(d));
    assert(date.month as nat == digits_value(m));
    assert(date.year as int == digits_value(y));
    assert(d + seq!['.'] + m + seq!['.'] + y =~= s);
}

/// The numeral of a number is an unpadded run of digits that denotes
/// the number, and it is as short as the number is small.
pub proof fn lemma_digits_of_decimal(n: nat)
    ensures
        is_unpadded(decimal(n)),
        digits_value(decimal(n)) == n,
        n < 10 ==> decimal(n).len() == 1,
        n < 100 ==> decimal(n).len() <= 2,
        n < 1000 ==> decimal(n).len() <= 3,
        n < 10000 ==> decimal(n).len() <= 4,
        n >= 10 ==> decimal(n).len() >= 2,
        n >= 1 ==> decimal(n)[0] != '0',
    decreases n,
{
    let s = decimal(n);
    if n < 10 {
        assert(s =~= seq![crate::chars::digit_char(n as int)]);
        assert(s.drop_last().len() == 0);
        assert(digits_value(s.drop_last()) == 0);
        assert(s.last() == crate::chars::digit_char(n as int));
        assert(crate::chars::digit_value(crate::chars::digit_char(n as int)) == n);
    } else {
        lemma_digits_of_decimal(n / 10);
        let head = decimal(n / 10);
        let c = crate::chars::digit_char((n % 10) as int);
        assert(s == head.push(c));
        assert(s.drop_last() =~= head);
        assert(s.last() == c);
        assert(crate::chars::digit_value(c) == n % 10);
        assert(s[0] == head[0]);
        assert forall|i: int| 0 <= i < s.len() implies crate::chars::is_digit(#[trigger] s[i]) by {
            if i < head.len() {
                assert(s[i] == head[i]);
            }
        }
    }
}

/// A date of a year from 0 on is what its text reads as: writing it and
/// reading the text gives the date back.
pub proof fn lemma_date_round_trip(date: Date)
    requires
        date.is_valid(),
        date.year >= 0,
    ensures
        date_of_literal(date_text(date)) == Some(date),
{
    let d = decimal(date.day as nat);
    let m = decimal(date.month as nat);
    let y = decimal(date.year as nat);
    lemma_digits_of_decimal(date.day as nat);
    lemma_digits_of_decimal(date.month as nat);
    lemma_digits_of_decimal(date.year as nat);
    let s = date_text(date);
    assert(s =~= d + seq!['.'] + m + seq!['.'] + y);
    // The first full stop stands behind the day.
    lemma_first_index(s, '.', 0);
    let p = first_index(s, '.', 0);
    assert(s[d.len() as int] == '.');
    if p < d.len() {
        assert(s[p] == d[p]);
        assert(crate::chars::is_digit(d[p]));
    }
    assert(p == d.len());
    // The second one stands behind the month.
    lemma_first_index(s, '.', p + 1);
    let q = first_index(s, '.', p + 1);
    assert(s[p + 1 + m.len()] == '.');
    if q < p + 1 + m.len() {
        assert(s[q] == m[q - p - 1]);
        assert(crate::chars::is_digit(m[q - p - 1]));
    }
    assert(q == p + 1 + m.len());
    assert(s.subrange(0, p) =~= d);
    assert(s.subrange(p + 1, q) =~= m);
    assert(s.subrange(q + 1, s.len() as int) =~= y);
}

} // verus!
