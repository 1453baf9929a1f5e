//! Calendar dates as the registry stores them, and their `YYYY-MM-DD` text.

use vstd::prelude::*;

verus! {

/// Gregorian leap years: every fourth year, except centuries not divisible by 400.
pub open spec fn is_leap_year(year: int) -> bool {
    year % 4 == 0 && (year % 100 != 0 || year % 400 == 0)
}

/// Number of days of `month` (1 to 12) in `year`.
pub open spec fn days_in_month(year: int, month: int) -> int {
    if month == 2 {
        if is_leap_year(year) {
            29
        } else {
            28
        }
    } else if month == 4 || month == 6 || month == 9 || month == 11 {
        30
    } else {
        31
    }
}

/// Whether year, month and day name an existing day of the proleptic Gregorian calendar.
pub open spec fn is_calendar_date(year: int, month: int, day: int) -> bool {
    1 <= month <= 12 && 1 <= day <= days_in_month(year, month)
}

/// Relies on `time::Month::try_from` and `time::Date::from_calendar_date`:
/// for a year within time's range (-9999 to 9999) they succeed exactly on an
/// existing day of the calendar.
#[verifier::external_body]
fn calendar_date_exists(year: u16, month: u8, day: u8) -> (r: bool)
    requires
        year <= 9999,
    ensures
        r == is_calendar_date(year as int, month as int, day as int),
{
    match time::Month::try_from(month) {
        Ok(m) => time::Date::from_calendar_date(year as i32, m, day).is_ok(),
        Err(_) => false,
    }
}

/// A day of the calendar, without time of day or time zone.
#[derive(Clone, Copy, Debug, PartialEq, Eq, Structural)]
pub struct BirthDate {
    pub year: u16,
    pub month: u8,
    pub day: u8,
}

impl BirthDate {
    /// A date that exists and whose year has four digits.
    pub open spec fn wf(self) -> bool {
        self.year <= 9999 && is_calendar_date(self.year as int, self.month as int, self.day as int)
    }

    /// The date with these components, if it exists and its year has at most four digits.
    pub fn new(year: u16, month: u8, day: u8) -> (r: Option<BirthDate>)
        ensures
            r is Some <==> (year <= 9999 && is_calendar_date(year as int, month as int, day as int)),
            r matches Some(d) ==> d.year == year && d.month == month && d.day == day,
    {
        if year > 9999 {
            return None;
        }
        if calendar_date_exists(year, month, day) {
            Some(BirthDate { year, month, day })
        } else {
            None
        }
    }
}

/// Whether `c` is one of the ASCII digits `0` to `9`.
pub open spec fn is_digit(c: char) -> bool {
    '0' <= c && c <= '9'
}

/// The number that the ASCII digit `c` stands for.
pub open spec fn digit_value(c: char) -> int {
    c as int - '0' as int
}

/// The ASCII digit for `k`, from 0 to 9.
pub open spec fn digit_char(k: int) -> char {
    ((k + '0' as int) as u32) as char
}

/// The `YYYY-MM-DD` text of a date: year on four digits, month and day on two,
/// each padded with zeros.
pub open spec fn date_text(d: BirthDate) -> Seq<char> {
    let y = d.year as int;
    let m = d.month as int;
    let dd = d.day as int;
    seq![
        digit_char(y / 1000), digit_char(y / 100 % 10), digit_char(y / 10 % 10), digit_char(y % 10),
        '-', digit_char(m / 10), digit_char(m % 10),
        '-', digit_char(dd / 10), digit_char(dd % 10),
    ]
}

/// Whether `s` has the shape `DDDD-DD-DD`, each `D` an ASCII digit.
pub open spec fn has_date_shape(s: Seq<char>) -> bool {
    &&& s.len() == 10
    &&& s[4] == '-' && s[7] == '-'
    &&& forall|i: int| 0 <= i < 10 && i != 4 && i != 7 ==> is_digit(#[trigger] s[i])
}

/// The date that the text `s` spells in `YYYY-MM-DD` form, if it has exactly
/// that form and names an existing day.
pub open spec fn date_of_text(s: Seq<char>) -> Option<BirthDate> {
    if has_date_shape(s) {
        let y = 1000 * digit_value(s[0]) + 100 * digit_value(s[1]) + 10 * digit_value(s[2])
            + digit_value(s[3]);
        let m = 10 * digit_value(s[5]) + digit_value(s[6]);
        let d = 10 * digit_value(s[8]) + digit_value(s[9]);
        if is_calendar_date(y, m, d) {
            Some(BirthDate { year: y as u16, month: m as u8, day: d as u8 })
        } else {
            None
        }
    } else {
        None
    }
}

/// The value of the digit at position `i` of `text`, if there is a digit there.
fn digit_at(text: &str, i: usize) -> (r: Option<u16>)
    requires
        i < text@.len(),
    ensures
        r is Some <==> is_digit(text@[i as int]),
        r matches Some(v) ==> v as int == digit_value(text@[i as int]) && v <= 9,
{
    let c = text.get_char(i);
    if '0' <= c && c <= '9' {
        Some((c as u32 - '0' as u32) as u16)
    } else {
        None
    }
}

/// Reads a date written exactly as `YYYY-MM-DD`; any other text, or a day
/// that does not exist, gives `None`.
pub fn parse_date(text: &str) -> (r: Option<BirthDate>)
    ensures
        r == date_of_text(text@),
        r matches Some(d) ==> d.wf(),
{
    if text.unicode_len() != 10 {
        return None;
    }
    if text.get_char(4) != '-' || text.get_char(7) != '-' {
        return None;
    }
    let mut values: Vec<u16> = Vec::new();
    let mut i: usize = 0;
    while i < 10
        invariant
            text@.len() == 10,
            0 <= i <= 10,
            values@.len() == i,
            forall|j: int| 0 <= j < i && j != 4 && j != 7 ==> is_digit(#[trigger] text@[j]),
            forall|j: int|
                0 <= j < i && j != 4 && j != 7 ==> #[trigger] values@[j] as int == digit_value(
                    text@[j],
                ) && values@[j] <= 9,
        decreases 10 - i,
    {
        if i == 4 || i == 7 {
            values.push(0);
        } else {
            match digit_at(text, i) {
                Some(v) => values.push(v),
                None => return None,
            }
        }
        i = i + 1;
    }
    let year = 1000 * values[0] + 100 * values[1] + 10 * values[2] + values[3];
    let month: u16 = 10 * values[5] + values[6];
    let day: u16 = 10 * values[8] + values[9];
    assert(month < 100 && day < 100);
    BirthDate::new(year, month as u8, day as u8)
}

/// Relies on `String::push`: the character is appended at the end.
pub assume_specification[ String::push ](s: &mut String, ch: char)
    ensures
        final(s)@ == old(s)@.push(ch),
;

/// The ASCII digit for `k`.
fn digit_of(k: u16) -> (c: char)
    requires
        k <= 9,
    ensures
        c == digit_char(k as int),
{
    ((k as u32 + '0' as u32) as u8) as char
}

impl BirthDate {
    /// The date as `YYYY-MM-DD` text.
    pub fn to_text(&self) -> (r: String)
        requires
            self.wf(),
        ensures
            r@ == date_text(*self),
    {
        let y = self.year;
        let m = self.month as u16;
        let d = self.day as u16;
        let mut r = String::new();
        r.push(digit_of(y / 1000));
        r.push(digit_of(y / 100 % 10));
        r.push(digit_of(y / 10 % 10));
        r.push(digit_of(y % 10));
        r.push('-');
        r.push(digit_of(m / 10));
        r.push(digit_of(m % 10));
        r.push('-');
        r.push(digit_of(d / 10));
        r.push(digit_of(d % 10));
        assert(r@ =~= date_text(*self));
        r
    }
}

proof fn lemma_digit_round_trip(k: int)
    requires
        0 <= k <= 9,
    ensures
        is_digit(digit_char(k)),
        digit_value(digit_char(k)) == k,
{
}

/// A date read from text is always valid.
pub proof fn lemma_date_of_text_valid(s: Seq<char>)
    ensures
        date_of_text(s) matches Some(d) ==> d.wf(),
{
    if has_date_shape(s) {
        assert(is_digit(s[0]) && is_digit(s[1]) && is_digit(s[2]) && is_digit(s[3]));
        assert(is_digit(s[5]) && is_digit(s[6]) && is_digit(s[8]) && is_digit(s[9]));
    }
}

/// The four digits of a year below 10000 give back the year.
proof fn lemma_four_digits(y: int)
    requires
        0 <= y <= 9999,
    ensures
        0 <= y / 1000 <= 9,
        1000 * (y / 1000) + 100 * (y / 100 % 10) + 10 * (y / 10 % 10) + y % 10 == y,
{
    let a = y / 10;
    let b = a / 10;
    assert(y == 10 * a + y % 10);
    assert(a == 10 * b + a % 10);
    assert(b == 10 * (b / 10) + b % 10);
    assert(b == y / 100);
    assert(b / 10 == y / 1000);
}

/// Writing a valid date as text and reading the text back gives the same date.
pub proof fn lemma_date_text_round_trip(d: BirthDate)
    requires
        d.wf(),
    ensures
        date_of_text(date_text(d)) == Some(d),
{
    let s = date_text(d);
    let y = d.year as int;
    let m = d.month as int;
    let dd = d.day as int;
    lemma_four_digits(y);
    lemma_digit_round_trip(y / 1000);
    lemma_digit_round_trip(y / 100 % 10);
    lemma_digit_round_trip(y / 10 % 10);
    lemma_digit_round_trip(y % 10);
    lemma_digit_round_trip(m / 10);
    lemma_digit_round_trip(m % 10);
    lemma_digit_round_trip(dd / 10);
    lemma_digit_round_trip(dd % 10);
    assert(has_date_shape(s));
    assert(10 * (m / 10) + m % 10 == m);
    assert(10 * (dd / 10) + dd % 10 == dd);
}

} // verus!
