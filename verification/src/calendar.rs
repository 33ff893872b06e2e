//! Dates as day numbers of the proleptic Gregorian calendar (1 January of year 1
//! is day 1), timestamps as (day, second of the day, nanosecond), and the chrono
//! calls that convert between those and calendar dates or text.

use chrono::{Datelike, NaiveDate, NaiveDateTime, Timelike};
use vstd::prelude::*;

verus! {

/// Earliest year chrono's `NaiveDate` can hold.
pub const MIN_YEAR: i32 = -262143;

/// Latest year chrono's `NaiveDate` can hold.
pub const MAX_YEAR: i32 = 262142;

/// Day number of 1 January `MIN_YEAR`.
pub const MIN_DAY: i32 = -95746129;

/// Day number of 31 December `MAX_YEAR`.
pub const MAX_DAY: i32 = 95745399;

/// Leap years of the proleptic Gregorian calendar.
pub open spec fn is_leap_year(year: int) -> bool {
    year % 4 == 0 && (year % 100 != 0 || year % 400 == 0)
}

/// Number of days of month `month` (1 to 12) of `year`.
pub open spec fn days_in_month(year: int, month: int) -> int {
    if month == 2 {
        if is_leap_year(year) { 29 } else { 28 }
    } else if month == 4 || month == 6 || month == 9 || month == 11 {
        30
    } else {
        31
    }
}

/// `year`-`month`-`day` names a day that chrono's `NaiveDate` can hold.
pub open spec fn is_calendar_date(year: int, month: int, day: int) -> bool {
    &&& MIN_YEAR <= year <= MAX_YEAR
    &&& 1 <= month <= 12
    &&& 1 <= day <= days_in_month(year, month)
}

/// Days of all years before `year`, counted from 1 January of year 1.
pub open spec fn days_before_year(year: int) -> int {
    let y = year - 1;
    365 * y + y / 4 - y / 100 + y / 400
}

/// Days of the months of `year` before `month`.
pub open spec fn days_before_month(year: int, month: int) -> int
    decreases month,
{
    if month <= 1 {
        0
    } else {
        days_before_month(year, month - 1) + days_in_month(year, month - 1)
    }
}

/// Day number of a calendar date: 1 January of year 1 is day 1.
pub open spec fn day_number(year: int, month: int, day: int) -> int {
    days_before_year(year) + days_before_month(year, month) + day
}

/// The decimal digit `d` (0 to 9) as a character.
pub open spec fn digit(d: int) -> char {
    ((48 + d) as u8) as char
}

/// `v` (0 to 99) as two decimal digits.
pub open spec fn two_digits(v: int) -> Seq<char> {
    seq![digit(v / 10), digit(v % 10)]
}

/// `v` (0 to 9999) as four decimal digits.
pub open spec fn four_digits(v: int) -> Seq<char> {
    two_digits(v / 100) + two_digits(v % 100)
}

/// The decimal digits of `n`, without leading zeros (`0` for zero).
pub open spec fn decimal(n: nat) -> Seq<char>
    decreases n,
{
    if n < 10 {
        seq![digit(n as int)]
    } else {
        decimal(n / 10).push(digit((n % 10) as int))
    }
}

/// `n` in decimal, padded with leading zeros to at least `width` digits.
pub open spec fn zero_padded(n: nat, width: nat) -> Seq<char> {
    let ds = decimal(n);
    if ds.len() >= width {
        ds
    } else {
        Seq::new((width - ds.len()) as nat, |i: int| '0') + ds
    }
}

/// How `%Y` writes a year: four digits from 0 to 9999, else a sign and at least four
/// digits.
pub open spec fn year_text(year: int) -> Seq<char> {
    if 0 <= year <= 9999 {
        four_digits(year)
    } else if year < 0 {
        seq!['-'] + zero_padded((-year) as nat, 4)
    } else {
        seq!['+'] + zero_padded(year as nat, 4)
    }
}

/// How `%Y-%m-%d` writes a calendar date.
pub open spec fn date_text(year: int, month: int, day: int) -> Seq<char> {
    year_text(year) + seq!['-'] + two_digits(month) + seq!['-'] + two_digits(day)
}

/// `text` is how `%Y-%m-%d` writes the calendar date with day number `day`.
pub open spec fn writes_day(text: Seq<char>, day: int) -> bool {
    forall|y: int, m: int, d: int|
        #![trigger day_number(y, m, d)]
        is_calendar_date(y, m, d) && day_number(y, m, d) == day ==> text == date_text(y, m, d)
}

/// The value of a run of decimal digits.
pub open spec fn digits_value(text: Seq<char>) -> int
    decreases text.len(),
{
    if text.len() == 0 {
        0
    } else {
        digits_value(text.drop_last()) * 10 + (text.last() as int - 48)
    }
}

/// What chrono's `%Y-%m-%d` writes for the date with day number `day`.
pub uninterp spec fn iso_date_text(day: int) -> Seq<char>;

/// What chrono's `NaiveDateTime::parse_from_str` reads from `text` with `format`:
/// the day number, the second of the day and the nanosecond, or `None` where it
/// returns an error.
pub uninterp spec fn parsed_timestamp(text: Seq<char>, format: Seq<char>) -> Option<(int, int, int)>;

/// A point in time without time zone: the day number, the second since midnight and
/// the nanosecond within that second (at or above 1_000_000_000 only in a leap second).
/// Ordered as chrono orders `NaiveDateTime`: by day, then second, then nanosecond.
#[derive(Clone, Copy, Debug, PartialEq, Eq, Structural)]
pub struct Timestamp {
    pub day: i32,
    pub seconds: u32,
    pub nanos: u32,
}

/// `a` comes strictly after `b`.
pub open spec fn is_after(a: Timestamp, b: Timestamp) -> bool {
    ||| a.day > b.day
    ||| a.day == b.day && a.seconds > b.seconds
    ||| a.day == b.day && a.seconds == b.seconds && a.nanos > b.nanos
}

impl Timestamp {
    /// Midnight at the start of the given day (chrono's `NaiveDate` into `NaiveDateTime`).
    pub fn midnight(day: i32) -> (t: Timestamp)
        ensures
            t == (Timestamp { day, seconds: 0, nanos: 0 }),
    {
        Timestamp { day, seconds: 0, nanos: 0 }
    }

    /// Whether `self` comes strictly after `other`.
    pub fn after(&self, other: &Timestamp) -> (r: bool)
        ensures
            r == is_after(*self, *other),
    {
        if self.day != other.day {
            self.day > other.day
        } else if self.seconds != other.seconds {
            self.seconds > other.seconds
        } else {
            self.nanos > other.nanos
        }
    }
}

/// chrono's `NaiveDate::from_ymd_opt`, its result taken by `Datelike::num_days_from_ce`.
/// Claimed: a date comes back exactly for the valid calendar dates within chrono's
/// years, and its day number is the proleptic Gregorian count from 1 January of year 1.
#[verifier::external_body]
pub(crate) fn day_from_ymd(year: i32, month: u32, day: u32) -> (r: Option<i32>)
    ensures
        r is Some <==> is_calendar_date(year as int, month as int, day as int),
        r matches Some(n) ==> n as int == day_number(year as int, month as int, day as int),
{
    match NaiveDate::from_ymd_opt(year, month, day) {
        Some(date) => Some(date.num_days_from_ce()),
        None => None,
    }
}

/// chrono's `NaiveDate::from_num_days_from_ce_opt`, formatted with `%Y-%m-%d`.
/// Claimed: a text comes back exactly for the day numbers chrono can hold; it is the
/// named `iso_date_text` of the day, and it is `date_text` of the calendar date with
/// that day number: `YYYY-MM-DD` for the years 0 to 9999, a sign and at least four
/// year digits for the others.
#[verifier::external_body]
pub(crate) fn format_iso_date(day: i32) -> (r: Option<String>)
    ensures
        r is Some <==> MIN_DAY <= day <= MAX_DAY,
        r matches Some(s) ==> s@ == iso_date_text(day as int),
        r matches Some(s) ==> writes_day(s@, day as int),
{
    match NaiveDate::from_num_days_from_ce_opt(day) {
        Some(date) => Some(date.format("%Y-%m-%d").to_string()),
        None => None,
    }
}

/// chrono's `NaiveDateTime::parse_from_str`, its result taken apart into the day number,
/// the second since midnight and the nanosecond. Claimed: the result is the named
/// `parsed_timestamp` of the text and the format; how chrono parses is left unsaid.
#[verifier::external_body]
pub(crate) fn parse_timestamp(text: &str, format: &str) -> (r: Option<Timestamp>)
    ensures
        match r {
            Some(t) => parsed_timestamp(text@, format@) == Some(
                (t.day as int, t.seconds as int, t.nanos as int),
            ),
            None => parsed_timestamp(text@, format@) is None,
        },
{
    match NaiveDateTime::parse_from_str(text, format) {
        Ok(t) => Some(
            Timestamp {
                day: t.date().num_days_from_ce(),
                seconds: t.time().num_seconds_from_midnight(),
                nanos: t.time().nanosecond(),
            },
        ),
        Err(_) => None,
    }
}

} // verus!

verus! {

/// The day numbers from `first` through `last`, one per day, in order (empty where
/// `last` comes before `first`).
pub fn days_between(first: i32, last: i32) -> (days: Vec<i32>)
    ensures
        days@.len() == if last < first { 0 } else { last - first + 1 },
        forall|i: int| 0 <= i < days@.len() ==> #[trigger] days@[i] == first + i,
{
    let mut days: Vec<i32> = Vec::new();
    if last < first {
        return days;
    }
    let mut d: i32 = first;
    loop
        invariant
            first <= d <= last,
            days@.len() == d - first,
            forall|i: int| 0 <= i < days@.len() ==> #[trigger] days@[i] == first + i,
        decreases last - d,
    {
        days.push(d);
        if d == last {
            return days;
        }
        d += 1;
    }
}

/// The day number of a calendar date that chrono can hold.
pub fn calendar_day(year: i32, month: u32, day: u32) -> (n: Option<i32>)
    ensures
        n is Some <==> is_calendar_date(year as int, month as int, day as int),
        n matches Some(d) ==> d as int == day_number(year as int, month as int, day as int),
{
    day_from_ymd(year, month, day)
}

/// The text chrono writes for a day with `%Y-%m-%d`, for the days chrono can hold.
pub fn day_text(day: i32) -> (s: Option<String>)
    ensures
        s is Some <==> MIN_DAY <= day <= MAX_DAY,
        s matches Some(t) ==> t@ == iso_date_text(day as int),
        s matches Some(t) ==> writes_day(t@, day as int),
{
    format_iso_date(day)
}

} // verus!

verus! {

/// The text written for a date of the years 0 to 9999 reads back as that date: ten
/// characters, the year in the first four digits, the month and the day in two digits
/// each, set apart by dashes.
pub proof fn lemma_date_text_reads_back(year: int, month: int, day: int)
    requires
        is_calendar_date(year, month, day),
        0 <= year <= 9999,
    ensures
        date_text(year, month, day).len() == 10,
        digits_value(date_text(year, month, day).subrange(0, 4)) == year,
        date_text(year, month, day)[4] == '-',
        digits_value(date_text(year, month, day).subrange(5, 7)) == month,
        date_text(year, month, day)[7] == '-',
        digits_value(date_text(year, month, day).subrange(8, 10)) == day,
{
    let t = date_text(year, month, day);
    lemma_two_digits_value(year / 100);
    lemma_two_digits_value(year % 100);
    lemma_two_digits_value(month);
    lemma_two_digits_value(day);
    assert(t.subrange(0, 4) =~= four_digits(year));
    assert(t.subrange(5, 7) =~= two_digits(month));
    assert(t.subrange(8, 10) =~= two_digits(day));
    lemma_four_digits_value(year);
}

/// Two digits read back as their value.
proof fn lemma_two_digits_value(v: int)
    requires
        0 <= v <= 99,
    ensures
        two_digits(v).len() == 2,
        digits_value(two_digits(v)) == v,
        digits_value(two_digits(v).subrange(0, 1)) == v / 10,
{
    let t = two_digits(v);
    assert(digit(v / 10) as int == 48 + v / 10);
    assert(digit(v % 10) as int == 48 + v % 10);
    assert(t.drop_last() =~= seq![digit(v / 10)]);
    let first = seq![digit(v / 10)];
    assert(t.subrange(0, 1) =~= first);
    assert(first.drop_last() =~= Seq::<char>::empty());
    assert(digits_value(Seq::<char>::empty()) == 0);
    assert(first.last() == digit(v / 10));
    assert(digits_value(first) == v / 10);
}

/// Four digits read back as their value.
proof fn lemma_four_digits_value(v: int)
    requires
        0 <= v <= 9999,
    ensures
        digits_value(four_digits(v)) == v,
{
    let t = four_digits(v);
    let hi = two_digits(v / 100);
    let lo = two_digits(v % 100);
    lemma_two_digits_value(v / 100);
    lemma_two_digits_value(v % 100);
    assert(t.drop_last().drop_last() =~= hi);
    assert(t.drop_last().last() == lo[0]);
    assert(t.last() == lo[1]);
    assert(lo[0] as int - 48 == (v % 100) / 10);
    assert(lo[1] as int - 48 == (v % 100) % 10);
    assert(digits_value(t.drop_last()) == (v / 100) * 10 + (v % 100) / 10);
    assert(digits_value(t) == ((v / 100) * 10 + (v % 100) / 10) * 10 + (v % 100) % 10);
    assert(((v / 100) * 10 + (v % 100) / 10) * 10 + (v % 100) % 10 == v) by (nonlinear_arith)
        requires
            0 <= v <= 9999,
    ;
}

/// Timestamps are strictly and totally ordered by `is_after`: no timestamp comes after
/// itself, the order is transitive, and of two different timestamps exactly one comes
/// after the other.
pub proof fn lemma_after_is_strict_total_order(a: Timestamp, b: Timestamp, c: Timestamp)
    ensures
        !is_after(a, a),
        is_after(a, b) && is_after(b, c) ==> is_after(a, c),
        a != b ==> (is_after(a, b) || is_after(b, a)),
        !(is_after(a, b) && is_after(b, a)),
{
}

} // verus!
