//! Calendar dates and UTC timestamps.
//!
//! The values are plain fields; reading, writing and moving them is `chrono`'s work, behind the
//! functions of this module whose contracts say what `chrono` does.

use chrono::{Datelike, Timelike};
use vstd::prelude::*;
use crate::decimal;
use crate::text;

verus! {

/// The format of a compact date, as iCalendar writes it.
pub const COMPACT_DATE: &'static str = "%Y%m%d";

/// The format of an ISO 8601 date.
pub const ISO_DATE: &'static str = "%Y-%m-%d";

/// The format of a compact UTC timestamp, as iCalendar writes it.
pub const COMPACT_UTC: &'static str = "%Y%m%dT%H%M%SZ";

/// A date of the proleptic Gregorian calendar.
#[derive(Debug, Clone, Copy, PartialEq, Eq, Structural)]
pub struct CivilDate {
    pub year: i32,
    pub month: u32,
    pub day: u32,
}

/// A UTC timestamp. `nanos` of a billion or more mark the leap second that follows `second`.
#[derive(Debug, Clone, Copy, PartialEq, Eq, Structural)]
pub struct UtcDateTime {
    pub date: CivilDate,
    pub hour: u32,
    pub minute: u32,
    pub second: u32,
    pub nanos: u32,
}

/// Does the year have a 29 February?
pub open spec fn is_leap_year(year: int) -> bool {
    year % 4 == 0 && (year % 100 != 0 || year % 400 == 0)
}

/// The number of days of a month.
pub open spec fn days_in_month(year: int, month: int) -> int {
    if month == 2 {
        if is_leap_year(year) {
            29
        } else {
            28
        }
    } else if month == 4 || month == 6 || month == 9 || month == 11 {
        30
    } else {
        31
    }
}

impl CivilDate {
    /// A date of the calendar, within the years that `chrono` represents.
    pub open spec fn valid(self) -> bool {
        &&& -262143 <= self.year <= 262142
        &&& 1 <= self.month <= 12
        &&& 1 <= self.day <= days_in_month(self.year as int, self.month as int)
    }

    /// The last date that `chrono` represents.
    pub open spec fn is_last(self) -> bool {
        self.year == 262142 && self.month == 12 && self.day == 31
    }

    /// The first date that `chrono` represents.
    pub open spec fn is_first(self) -> bool {
        self.year == -262143 && self.month == 1 && self.day == 1
    }

    /// Does the year have four digits and no sign?
    pub open spec fn four_digit_year(self) -> bool {
        0 <= self.year <= 9999
    }

    /// Is this date before `other`?
    pub open spec fn precedes(self, other: CivilDate) -> bool {
        ||| self.year < other.year
        ||| self.year == other.year && self.month < other.month
        ||| self.year == other.year && self.month == other.month && self.day < other.day
    }
}

impl UtcDateTime {
    /// A timestamp of a valid date; only the last second of a minute can be a leap second.
    pub open spec fn valid(self) -> bool {
        &&& self.date.valid()
        &&& self.hour < 24
        &&& self.minute < 60
        &&& self.second < 60
        &&& self.nanos < 2_000_000_000
        &&& self.nanos >= 1_000_000_000 ==> self.second == 59
    }

    /// The second that is shown: sixty in a leap second.
    pub open spec fn shown_second(self) -> int {
        self.second + self.nanos as int / 1_000_000_000
    }

    /// Is this timestamp before `other`?
    pub open spec fn precedes(self, other: UtcDateTime) -> bool {
        ||| self.date.precedes(other.date)
        ||| self.date == other.date && self.second_of_day() < other.second_of_day()
        ||| self.date == other.date && self.second_of_day() == other.second_of_day() && self.nanos
            < other.nanos
    }

    /// The seconds since midnight.
    pub open spec fn second_of_day(self) -> int {
        self.hour * 3600 + self.minute * 60 + self.second
    }
}

/// The date after `d`.
pub open spec fn next_day(d: CivilDate) -> CivilDate {
    if d.day < days_in_month(d.year as int, d.month as int) {
        CivilDate { year: d.year, month: d.month, day: (d.day + 1) as u32 }
    } else if d.month < 12 {
        CivilDate { year: d.year, month: (d.month + 1) as u32, day: 1 }
    } else {
        CivilDate { year: (d.year + 1) as i32, month: 1, day: 1 }
    }
}

/// The date before `d`.
pub open spec fn previous_day(d: CivilDate) -> CivilDate {
    if d.day > 1 {
        CivilDate { year: d.year, month: d.month, day: (d.day - 1) as u32 }
    } else if d.month > 1 {
        CivilDate {
            year: d.year,
            month: (d.month - 1) as u32,
            day: days_in_month(d.year as int, d.month - 1) as u32,
        }
    } else {
        CivilDate { year: (d.year - 1) as i32, month: 12, day: 31 }
    }
}

/// The days of the calendar before 1 January of a year, counted from 1 January of year 1.
pub open spec fn days_before_year(year: int) -> int {
    365 * (year - 1) + (year - 1) / 4 - (year - 1) / 100 + (year - 1) / 400
}

/// The days of a year before the first of a month.
pub open spec fn days_before_month(year: int, month: int) -> int
    decreases month,
{
    if month <= 1 {
        0
    } else {
        days_before_month(year, month - 1) + days_in_month(year, month - 1)
    }
}

/// The number of a date; 1 January of year 1 has the number one.
pub open spec fn day_number(d: CivilDate) -> int {
    days_before_year(d.year as int) + days_before_month(d.year as int, d.month as int) + d.day
}

/// The seconds from 1970-01-01T00:00:00Z to `t`, the fraction left out.
pub open spec fn epoch_second(t: UtcDateTime) -> int {
    (day_number(t.date) - 719_163) * 86_400 + t.second_of_day()
}

/// Is this an epoch second of a date that `chrono` represents?
pub open spec fn representable_second(s: int) -> bool {
    -8_334_601_228_800 <= s <= 8_210_266_876_799
}

/// The timestamp that many whole seconds after `t`, with the same fraction. There is exactly one
/// where it can be represented: see [`law_later_is_unique`].
pub open spec fn later(t: UtcDateTime, seconds: int) -> UtcDateTime {
    choose|at: UtcDateTime| #[trigger] is_later(at, t, seconds)
}

/// Is `at` a timestamp that many whole seconds after `t`, with the same fraction?
pub open spec fn is_later(at: UtcDateTime, t: UtcDateTime, seconds: int) -> bool {
    at.valid() && at.nanos == t.nanos && epoch_second(at) == epoch_second(t) + seconds
}

// ---------------------------------------------------------------------------
// Texts
// ---------------------------------------------------------------------------

/// A year: four digits, or a sign and at least four digits outside the years 0 to 9999.
pub open spec fn year_text(year: int) -> Seq<char> {
    if 0 <= year <= 9999 {
        decimal::four_digits(year)
    } else if year > 9999 {
        seq!['+'] + decimal::digits(year as nat)
    } else if year >= -9999 {
        seq!['-'] + decimal::four_digits(-year)
    } else {
        seq!['-'] + decimal::digits((-year) as nat)
    }
}

/// `YYYYMMDD`.
pub open spec fn compact_date_text(d: CivilDate) -> Seq<char> {
    year_text(d.year as int) + decimal::two_digits(d.month as int) + decimal::two_digits(
        d.day as int,
    )
}

/// `YYYY-MM-DD`.
pub open spec fn iso_date_text(d: CivilDate) -> Seq<char> {
    year_text(d.year as int) + seq!['-'] + decimal::two_digits(d.month as int) + seq!['-']
        + decimal::two_digits(d.day as int)
}

/// `YYYYMMDDTHHMMSSZ`.
pub open spec fn compact_utc_text(t: UtcDateTime) -> Seq<char> {
    compact_date_text(t.date) + seq!['T'] + decimal::two_digits(t.hour as int)
        + decimal::two_digits(t.minute as int) + decimal::two_digits(t.shown_second()) + seq!['Z']
}

/// `YYYY-MM-DDTHH:MM:SS`.
pub open spec fn iso_seconds_text(t: UtcDateTime) -> Seq<char> {
    iso_date_text(t.date) + seq!['T'] + decimal::two_digits(t.hour as int) + seq![':']
        + decimal::two_digits(t.minute as int) + seq![':'] + decimal::two_digits(t.shown_second())
}

/// `YYYY-MM-DDTHH:MM:SSZ`.
pub open spec fn zulu_text(t: UtcDateTime) -> Seq<char> {
    iso_seconds_text(t) + seq!['Z']
}

/// Three digits of a number below a thousand.
pub open spec fn three_digits(n: int) -> Seq<char> {
    seq![crate::decimal::digit_char(n / 100)] + decimal::two_digits(n % 100)
}

/// `YYYY-MM-DDTHH:MM:SS.mmmZ`, as the Basecamp API writes timestamps.
pub open spec fn millis_text(t: UtcDateTime) -> Seq<char> {
    iso_seconds_text(t) + seq!['.'] + three_digits(t.nanos as int % 1_000_000_000 / 1_000_000)
        + seq!['Z']
}

/// The fraction of a second after a point, in groups of three digits, as few as hold it.
pub open spec fn fraction_text(nanos: int) -> Seq<char> {
    if nanos == 0 {
        Seq::empty()
    } else if nanos % 1_000_000 == 0 {
        seq!['.'] + three_digits(nanos / 1_000_000)
    } else if nanos % 1_000 == 0 {
        seq!['.'] + three_digits(nanos / 1_000_000) + three_digits(nanos / 1_000 % 1_000)
    } else {
        seq!['.'] + three_digits(nanos / 1_000_000) + three_digits(nanos / 1_000 % 1_000)
            + three_digits(nanos % 1_000)
    }
}

/// `YYYY-MM-DDTHH:MM:SS+00:00`, with the fraction of the second where there is one.
pub open spec fn rfc3339_text(t: UtcDateTime) -> Seq<char> {
    iso_seconds_text(t) + fraction_text(t.nanos as int % 1_000_000_000) + seq![
        '+',
        '0',
        '0',
        ':',
        '0',
        '0',
    ]
}

/// Is `value` the text of a timestamp of a four-digit year: with whole seconds, as a payload
/// tells it, or with milliseconds, as Basecamp tells it?
pub open spec fn is_told_stamp(value: Seq<char>, t: UtcDateTime) -> bool {
    &&& t.valid()
    &&& t.date.four_digit_year()
    &&& {
        ||| t.nanos % 1_000_000_000 == 0 && value == zulu_text(t)
        ||| t.nanos % 1_000_000 == 0 && value == millis_text(t)
    }
}

/// Is `value` the text of a date of a four-digit year?
pub open spec fn is_told_date(value: Seq<char>, d: CivilDate) -> bool {
    d.valid() && d.four_digit_year() && value == iso_date_text(d)
}

/// Does `value` tell the date: as a bare date, or as the date of a timestamp?
pub open spec fn is_told_day(value: Seq<char>, d: CivilDate) -> bool {
    is_told_date(value, d) || exists|t: UtcDateTime|
        #[trigger] is_told_stamp(value, t) && t.date == d
}

// ---------------------------------------------------------------------------
// What chrono does
// ---------------------------------------------------------------------------

/// What `chrono::DateTime::parse_from_rfc3339` reads from a text, in UTC; `None` where it fails.
pub uninterp spec fn rfc3339_utc(text: Seq<char>) -> Option<UtcDateTime>;

/// What `chrono::NaiveDate::parse_from_str` reads from a text by a format; `None` where it fails.
pub uninterp spec fn parsed_date(text: Seq<char>, format: Seq<char>) -> Option<CivilDate>;

/// `chrono::DateTime::parse_from_rfc3339`, moved to UTC by `with_timezone`.
///
/// What it accepts is left to `chrono` (`rfc3339_utc`). What it reads is a timestamp whose local
/// year has four digits, so the UTC year is at most one off. It reads back what `to_rfc3339`
/// writes, and what `to_rfc3339_opts` writes with whole seconds or with milliseconds and a `Z`,
/// for the years 0 to 9999. A text of fewer characters than date, time of day and the separators
/// take is none.
#[verifier::external_body]
pub(crate) fn parse_rfc3339(text: &str) -> (r: Option<UtcDateTime>)
    ensures
        r == rfc3339_utc(text@),
        r matches Some(t) ==> t.valid() && -1 <= t.date.year <= 10_000,
        forall|t: UtcDateTime|
            #![trigger rfc3339_text(t)]
            t.valid() && t.date.four_digit_year() && text@ == rfc3339_text(t) ==> r == Some(t),
        forall|t: UtcDateTime| #[trigger] is_told_stamp(text@, t) ==> r == Some(t),
        text@.len() < 19 ==> r is None,
{
    chrono::DateTime::parse_from_rfc3339(text).ok().map(|parsed| {
        let t = parsed.with_timezone(&chrono::Utc);
        UtcDateTime {
            date: CivilDate { year: t.year(), month: t.month(), day: t.day() },
            hour: t.hour(),
            minute: t.minute(),
            second: t.second(),
            nanos: t.nanosecond(),
        }
    })
}

/// `chrono::NaiveDate::parse_from_str`.
///
/// What it accepts is left to `chrono` (`parsed_date`). By the format `%Y-%m-%d` it reads back
/// what that format writes, for the years 0 to 9999, and nothing where more follows; the empty
/// text is no date.
#[verifier::external_body]
pub(crate) fn parse_date_by(text: &str, format: &str) -> (r: Option<CivilDate>)
    ensures
        r == parsed_date(text@, format@),
        r matches Some(d) ==> d.valid(),
        forall|d: CivilDate|
            format@ == ISO_DATE@ && #[trigger] is_told_date(text@, d) ==> r == Some(d),
        forall|d: CivilDate|
            format@ == ISO_DATE@ && text@.len() > 10 && #[trigger] is_told_date(text@.take(10), d)
                ==> r is None,
        format@ == ISO_DATE@ && text@.len() == 0 ==> r is None,
{
    chrono::NaiveDate::parse_from_str(text, format).ok().map(
        |d| CivilDate { year: d.year(), month: d.month(), day: d.day() },
    )
}

/// `chrono::NaiveDate::format` with one of the two date formats of this library: the year as
/// `year_text`, month and day in two digits.
#[verifier::external_body]
pub(crate) fn format_date(d: CivilDate, format: &str) -> (r: String)
    requires
        d.valid(),
        format@ == COMPACT_DATE@ || format@ == ISO_DATE@,
    ensures
        format@ == COMPACT_DATE@ ==> r@ == compact_date_text(d),
        format@ == ISO_DATE@ ==> r@ == iso_date_text(d),
{
    chrono::NaiveDate::from_ymd_opt(d.year, d.month, d.day).unwrap().format(format).to_string()
}

/// `chrono::DateTime::<Utc>::format` with the compact UTC format: date and time in two-digit
/// fields, the second of a leap second as sixty.
#[verifier::external_body]
pub(crate) fn format_utc(t: UtcDateTime, format: &str) -> (r: String)
    requires
        t.valid(),
        format@ == COMPACT_UTC@,
    ensures
        r@ == compact_utc_text(t),
{
    chrono::NaiveDate::from_ymd_opt(t.date.year, t.date.month, t.date.day).unwrap()
        .and_hms_nano_opt(t.hour, t.minute, t.second, t.nanos).unwrap()
        .and_utc().format(format).to_string()
}

/// `chrono::DateTime::<Utc>::to_rfc3339_opts` with whole seconds and a `Z` for the offset; the
/// fraction of the second is cut off.
#[verifier::external_body]
pub(crate) fn to_zulu(t: UtcDateTime) -> (r: String)
    requires
        t.valid(),
    ensures
        r@ == zulu_text(t),
{
    chrono::NaiveDate::from_ymd_opt(t.date.year, t.date.month, t.date.day).unwrap()
        .and_hms_nano_opt(t.hour, t.minute, t.second, t.nanos).unwrap()
        .and_utc().to_rfc3339_opts(chrono::SecondsFormat::Secs, true)
}

/// `chrono::DateTime::<Utc>::to_rfc3339`: the fraction of the second in as few groups of three
/// digits as hold it, then the offset `+00:00`.
#[verifier::external_body]
pub(crate) fn to_rfc3339(t: UtcDateTime) -> (r: String)
    requires
        t.valid(),
    ensures
        r@ == rfc3339_text(t),
{
    chrono::NaiveDate::from_ymd_opt(t.date.year, t.date.month, t.date.day).unwrap()
        .and_hms_nano_opt(t.hour, t.minute, t.second, t.nanos).unwrap()
        .and_utc().to_rfc3339()
}

/// `chrono::NaiveDate + chrono::Duration` of one day. It panics past the last date.
#[verifier::external_body]
pub(crate) fn day_after(d: CivilDate) -> (r: CivilDate)
    requires
        d.valid(),
        !d.is_last(),
    ensures
        r == next_day(d),
{
    let next = chrono::NaiveDate::from_ymd_opt(d.year, d.month, d.day).unwrap()
        + chrono::Duration::days(1);
    CivilDate { year: next.year(), month: next.month(), day: next.day() }
}

/// `chrono::NaiveDate - chrono::Duration` of one day. It panics before the first date.
#[verifier::external_body]
pub(crate) fn day_before(d: CivilDate) -> (r: CivilDate)
    requires
        d.valid(),
        !d.is_first(),
    ensures
        r == previous_day(d),
{
    let previous = chrono::NaiveDate::from_ymd_opt(d.year, d.month, d.day).unwrap()
        - chrono::Duration::days(1);
    CivilDate { year: previous.year(), month: previous.month(), day: previous.day() }
}

/// `chrono::Utc::now`: some timestamp since 1970, never a leap second. (It panics where the
/// machine's clock stands before 1970. Which timestamp it is, the clock decides.)
#[verifier::external_body]
pub(crate) fn utc_now() -> (r: UtcDateTime)
    ensures
        r.valid(),
        r.nanos < 1_000_000_000,
        r.date.year >= 1970,
{
    let t = chrono::Utc::now();
    UtcDateTime {
        date: CivilDate { year: t.year(), month: t.month(), day: t.day() },
        hour: t.hour(),
        minute: t.minute(),
        second: t.second(),
        nanos: t.nanosecond(),
    }
}

/// `chrono::DateTime + chrono::Duration` of whole seconds, outside leap seconds: the timestamp
/// that many seconds later, with the same fraction. It panics where the sum is not
/// representable.
#[verifier::external_body]
pub(crate) fn plus_seconds(t: UtcDateTime, seconds: i64) -> (r: UtcDateTime)
    requires
        t.valid(),
        t.nanos < 1_000_000_000,
        representable_second(epoch_second(t) + seconds),
    ensures
        is_later(r, t, seconds as int),
{
    let sum = chrono::NaiveDate::from_ymd_opt(t.date.year, t.date.month, t.date.day).unwrap()
        .and_hms_nano_opt(t.hour, t.minute, t.second, t.nanos).unwrap()
        .and_utc() + chrono::Duration::seconds(seconds);
    UtcDateTime {
        date: CivilDate { year: sum.year(), month: sum.month(), day: sum.day() },
        hour: sum.hour(),
        minute: sum.minute(),
        second: sum.second(),
        nanos: sum.nanosecond(),
    }
}

/// `chrono::DateTime::signed_duration_since` and `chrono::Duration::num_seconds`: the time from
/// `earlier` to `later` in whole seconds, cut toward zero.
#[verifier::external_body]
pub(crate) fn seconds_between(later: UtcDateTime, earlier: UtcDateTime) -> (r: i64)
    requires
        later.valid(),
        earlier.valid(),
    ensures
        r == whole_seconds(later, earlier),
{
    let to = chrono::NaiveDate::from_ymd_opt(later.date.year, later.date.month, later.date.day)
        .unwrap().and_hms_nano_opt(later.hour, later.minute, later.second, later.nanos).unwrap();
    let from = chrono::NaiveDate::from_ymd_opt(
        earlier.date.year, earlier.date.month, earlier.date.day,
    ).unwrap().and_hms_nano_opt(
        earlier.hour, earlier.minute, earlier.second, earlier.nanos,
    ).unwrap();
    to.and_utc().signed_duration_since(from.and_utc()).num_seconds()
}

/// The leap second, if any, that lies between two times of the day and counts as elapsed.
pub open spec fn elapsed_leap(later: UtcDateTime, earlier: UtcDateTime) -> int {
    if later.second_of_day() > earlier.second_of_day() && earlier.nanos >= 1_000_000_000 {
        1
    } else if later.second_of_day() < earlier.second_of_day() && later.nanos >= 1_000_000_000 {
        -1
    } else {
        0
    }
}

/// The nanoseconds from `earlier` to `later`.
pub open spec fn elapsed_nanos(later: UtcDateTime, earlier: UtcDateTime) -> int {
    (epoch_second(later) - epoch_second(earlier) + elapsed_leap(later, earlier)) * 1_000_000_000
        + later.nanos - earlier.nanos
}

/// The time from `earlier` to `later` in whole seconds, cut toward zero.
pub open spec fn whole_seconds(later: UtcDateTime, earlier: UtcDateTime) -> int {
    let nanos = elapsed_nanos(later, earlier);
    if nanos >= 0 {
        nanos / 1_000_000_000
    } else {
        -((-nanos) / 1_000_000_000)
    }
}

// ---------------------------------------------------------------------------
// Comparing and counting
// ---------------------------------------------------------------------------

/// Is `a` before `b`?
pub fn is_before(a: &UtcDateTime, b: &UtcDateTime) -> (r: bool)
    requires
        a.valid(),
        b.valid(),
    ensures
        r == a.precedes(*b),
{
    if a.date.year != b.date.year {
        return a.date.year < b.date.year;
    }
    if a.date.month != b.date.month {
        return a.date.month < b.date.month;
    }
    if a.date.day != b.date.day {
        return a.date.day < b.date.day;
    }
    let sa: u32 = a.hour * 3600 + a.minute * 60 + a.second;
    let sb: u32 = b.hour * 3600 + b.minute * 60 + b.second;
    sa < sb || (sa == sb && a.nanos < b.nanos)
}

/// The number of days of a month.
pub fn month_length(year: i32, month: u32) -> (r: u32)
    ensures
        r == days_in_month(year as int, month as int),
        28 <= r <= 31,
{
    if month == 2 {
        if year % 4 == 0 && (year % 100 != 0 || year % 400 == 0) {
            29
        } else {
            28
        }
    } else if month == 4 || month == 6 || month == 9 || month == 11 {
        30
    } else {
        31
    }
}

fn month_offset(year: i32, month: u32) -> (r: i64)
    requires
        1 <= month <= 12,
    ensures
        r == days_before_month(year as int, month as int),
        0 <= r <= 31 * (month - 1),
{
    let mut m: u32 = 1;
    let mut days: i64 = 0;
    while m < month
        invariant
            1 <= m <= month <= 12,
            days == days_before_month(year as int, m as int),
            0 <= days <= 31 * (m - 1),
        decreases month - m,
    {
        days = days + month_length(year, m) as i64;
        m = m + 1;
    }
    days
}

proof fn lemma_day_of_year(d: CivilDate)
    requires
        d.valid(),
    ensures
        1 <= days_before_month(d.year as int, d.month as int) + d.day <= 366,
        !is_leap_year(d.year as int) ==> days_before_month(d.year as int, d.month as int) + d.day
            <= 365,
{
    reveal_with_fuel(days_before_month, 13);
}

proof fn lemma_mean_year(m: int, q4: int, q100: int, q400: int)
    requires
        4 * q4 <= m < 4 * q4 + 4,
        100 * q100 <= m < 100 * q100 + 100,
        400 * q400 <= m < 400 * q400 + 400,
    ensures
        146_097 * m - 699 <= 400 * (365 * m + q4 - q100 + q400) <= 146_097 * m + 396,
{
}

/// The years that can be represented start on days that can be.
proof fn lemma_days_before_year(year: int)
    requires
        -262143 <= year <= 262142,
    ensures
        days_before_year(year) >= -95_746_130,
        year == 262142 ==> days_before_year(year) == 95_745_034,
        year < 262142 ==> days_before_year(year) <= 95_744_669,
{
    let m = year - 1;
    lemma_mean_year(m, m / 4, m / 100, m / 400);
    if year == 262142 {
        assert(262141int / 4 == 65535 && 262141int / 100 == 2621 && 262141int / 400 == 655);
    }
    if year == -262143 {
        assert((-262144int) / 4 == -65536 && (-262144int) / 100 == -2622 && (-262144int) / 400
            == -656);
    }
}

/// The calendar repeats itself every 400 years.
proof fn lemma_cycles(year: int)
    ensures
        days_before_year(year + 400_000) == days_before_year(year) + 146_097_000,
{
    let m = year - 1;
    assert((m + 400_000) / 4 == m / 4 + 100_000);
    assert((m + 400_000) / 100 == m / 100 + 4_000);
    assert((m + 400_000) / 400 == m / 400 + 1_000);
}

/// The seconds from 1970-01-01T00:00:00Z to `t`, the fraction left out.
pub fn epoch_seconds(t: &UtcDateTime) -> (r: i64)
    requires
        t.valid(),
    ensures
        r == epoch_second(*t),
        representable_second(r as int),
{
    proof {
        lemma_day_of_year(t.date);
        lemma_days_before_year(t.date.year as int);
        lemma_cycles(t.date.year as int);
        assert(!is_leap_year(262142));
    }
    // A whole number of 400-year cycles on, every year is positive.
    let y: i64 = t.date.year as i64 + 399_999;
    let shifted: i64 = 365 * y + y / 4 - y / 100 + y / 400;
    assert(shifted == days_before_year(t.date.year + 400_000));
    let day_of_year: i64 = month_offset(t.date.year, t.date.month) + t.date.day as i64;
    let days: i64 = shifted - 146_097_000 + day_of_year;
    assert(days == day_number(t.date));
    let of_day: i64 = (t.hour * 3600 + t.minute * 60 + t.second) as i64;
    assert(0 <= of_day < 86_400);
    (days - 719_163) * 86_400 + of_day
}

/// Is the timestamp that many seconds after `t` one that can be represented?
pub fn is_representable_after(t: &UtcDateTime, seconds: i64) -> (r: bool)
    requires
        t.valid(),
    ensures
        r == representable_second(epoch_second(*t) + seconds),
{
    let sum: i128 = epoch_seconds(t) as i128 + seconds as i128;
    -8_334_601_228_800 <= sum && sum <= 8_210_266_876_799
}

/// The day after a date is a date of the calendar, and the day before that is the date again.
pub proof fn law_next_day_undone(d: CivilDate)
    requires
        d.valid(),
        !d.is_last(),
    ensures
        next_day(d).valid(),
        previous_day(next_day(d)) == d,
        day_number(next_day(d)) == day_number(d) + 1,
        d.precedes(next_day(d)),
{
    reveal_with_fuel(days_before_month, 14);
}

proof fn lemma_year_length(year: int)
    ensures
        days_before_year(year + 1) == days_before_year(year) + 365 + if is_leap_year(year) {
            1int
        } else {
            0int
        },
{
    let m = year - 1;
    assert(year / 4 == m / 4 + if year % 4 == 0 {
        1int
    } else {
        0int
    });
    assert(year / 100 == m / 100 + if year % 100 == 0 {
        1int
    } else {
        0int
    });
    assert(year / 400 == m / 400 + if year % 400 == 0 {
        1int
    } else {
        0int
    });
    if year % 400 == 0 {
        assert(year % 100 == 0 && year % 4 == 0);
    }
    if year % 100 == 0 {
        assert(year % 4 == 0);
    }
}

proof fn lemma_years_are_ordered(a: int, b: int)
    requires
        a <= b,
    ensures
        days_before_year(a) <= days_before_year(b),
    decreases b - a,
{
    if a < b {
        lemma_year_length(a);
        lemma_years_are_ordered(a + 1, b);
    }
}

proof fn lemma_months_are_ordered(year: int, a: int, b: int)
    requires
        1 <= a < b <= 12,
    ensures
        days_before_month(year, a) + days_in_month(year, a) <= days_before_month(year, b),
    decreases b - a,
{
    if a + 1 < b {
        lemma_months_are_ordered(year, a, b - 1);
    }
}

/// Dates are numbered in their order.
pub proof fn law_day_numbers_follow_the_calendar(a: CivilDate, b: CivilDate)
    requires
        a.valid(),
        b.valid(),
    ensures
        a.precedes(b) <==> day_number(a) < day_number(b),
        a == b <==> day_number(a) == day_number(b),
{
    lemma_precedes_is_numbered(a, b);
    lemma_precedes_is_numbered(b, a);
    assert(a == b || a.precedes(b) || b.precedes(a));
}

proof fn lemma_precedes_is_numbered(a: CivilDate, b: CivilDate)
    requires
        a.valid(),
        b.valid(),
    ensures
        a.precedes(b) ==> day_number(a) < day_number(b),
{
    lemma_day_of_year(a);
    lemma_day_of_year(b);
    if a.year < b.year {
        lemma_year_length(a.year as int);
        lemma_years_are_ordered(a.year + 1, b.year as int);
    } else if a.precedes(b) && a.month < b.month {
        lemma_months_are_ordered(a.year as int, a.month as int, b.month as int);
    }
}

/// There is one timestamp of a fraction in each second: a timestamp that many seconds later is
/// [`later`].
pub proof fn law_later_is_unique(at: UtcDateTime, t: UtcDateTime, seconds: int)
    requires
        is_later(at, t, seconds),
    ensures
        at == later(t, seconds),
{
    let other = later(t, seconds);
    assert(is_later(other, t, seconds));
    assert(0 <= at.second_of_day() < 86_400);
    assert(0 <= other.second_of_day() < 86_400);
    assert(day_number(at.date) == day_number(other.date));
    law_day_numbers_follow_the_calendar(at.date, other.date);
    assert(at.second_of_day() == other.second_of_day());
    assert(at.hour == other.hour && at.minute == other.minute && at.second == other.second);
}

/// The second of a timestamp can be represented, and is none before the epoch from 1970 on.
pub proof fn lemma_epoch_bounds(t: UtcDateTime)
    requires
        t.valid(),
    ensures
        representable_second(epoch_second(t)),
        t.date.year >= 1970 ==> epoch_second(t) >= 0,
{
    lemma_day_of_year(t.date);
    lemma_days_before_year(t.date.year as int);
    assert(!is_leap_year(262142));
    assert(0 <= t.second_of_day() < 86_400);
    if t.date.year >= 1970 {
        lemma_years_are_ordered(1970, t.date.year as int);
        assert(days_before_year(1970) == 719_162);
    }
}

/// The text of a date holds ten characters, none of them white space at an end.
pub proof fn lemma_told_date(value: Seq<char>, d: CivilDate)
    requires
        is_told_date(value, d),
    ensures
        value.len() == 10,
        text::trimmed(value) == value,
{
    assert(value[0] == decimal::digit_char(d.year as int / 100 / 10));
    assert(value[9] == decimal::digit_char(d.day as int % 10));
    text::lemma_trimmed_keeps(value);
}

/// The text of a timestamp starts with the text of its date, goes on after it, and has no white
/// space at an end.
pub proof fn lemma_told_stamp(value: Seq<char>, t: UtcDateTime)
    requires
        is_told_stamp(value, t),
    ensures
        value.len() >= 20,
        text::trimmed(value) == value,
        is_told_date(value.take(10), t.date),
{
    let date = iso_date_text(t.date);
    assert(is_told_date(date, t.date));
    lemma_told_date(date, t.date);
    assert(value.take(10) =~= date);
    assert(value[0] == date[0]);
    assert(date[0] == decimal::digit_char(t.date.year as int / 100 / 10));
    assert(value.last() == 'Z');
    text::lemma_trimmed_keeps(value);
}

/// Timestamps are ordered by their first field that differs, from the year down to the
/// nanosecond: one is before another exactly where that field is less, and of two different ones
/// either is before the other.
pub proof fn law_timestamps_are_ordered_field_by_field(a: UtcDateTime, b: UtcDateTime)
    requires
        a.valid(),
        b.valid(),
    ensures
        a.precedes(b) <==> if a.date.year != b.date.year {
            a.date.year < b.date.year
        } else if a.date.month != b.date.month {
            a.date.month < b.date.month
        } else if a.date.day != b.date.day {
            a.date.day < b.date.day
        } else if a.hour != b.hour {
            a.hour < b.hour
        } else if a.minute != b.minute {
            a.minute < b.minute
        } else if a.second != b.second {
            a.second < b.second
        } else {
            a.nanos < b.nanos
        },
        a.precedes(b) <==> epoch_second(a) < epoch_second(b) || (epoch_second(a) == epoch_second(b)
            && a.nanos < b.nanos),
{
    law_day_numbers_follow_the_calendar(a.date, b.date);
    assert(0 <= a.second_of_day() < 86_400);
    assert(0 <= b.second_of_day() < 86_400);
    let ma = a.minute * 60 + a.second;
    let mb = b.minute * 60 + b.second;
    assert(0 <= ma < 3600 && 0 <= mb < 3600);
}

/// A year has 365 days, or 366 where it can be divided by four and not by a hundred, or by four
/// hundred; its months have these days.
pub proof fn law_year_has_its_days(year: int)
    ensures
        days_before_month(year, 13) == if year % 400 == 0 || (year % 4 == 0 && year % 100 != 0) {
            366int
        } else {
            365int
        },
        days_before_year(year + 1) == days_before_year(year) + days_before_month(year, 13),
        days_in_month(year, 1) == 31 && days_in_month(year, 3) == 31 && days_in_month(year, 5) == 31
            && days_in_month(year, 7) == 31 && days_in_month(year, 8) == 31 && days_in_month(
            year,
            10,
        ) == 31 && days_in_month(year, 12) == 31,
        days_in_month(year, 4) == 30 && days_in_month(year, 6) == 30 && days_in_month(year, 9) == 30
            && days_in_month(year, 11) == 30,
{
    let f = days_in_month(year, 2);
    assert(days_before_month(year, 1) == 0);
    assert(days_before_month(year, 2) == 31);
    assert(days_before_month(year, 3) == 31 + f);
    assert(days_before_month(year, 4) == 62 + f);
    assert(days_before_month(year, 5) == 92 + f);
    assert(days_before_month(year, 6) == 123 + f);
    assert(days_before_month(year, 7) == 153 + f);
    assert(days_before_month(year, 8) == 184 + f);
    assert(days_before_month(year, 9) == 215 + f);
    assert(days_before_month(year, 10) == 245 + f);
    assert(days_before_month(year, 11) == 276 + f);
    assert(days_before_month(year, 12) == 306 + f);
    assert(days_before_month(year, 13) == 337 + f);
    lemma_leap_years(year);
    lemma_year_length(year);
}

proof fn lemma_leap_years(year: int)
    ensures
        is_leap_year(year) <==> year % 400 == 0 || (year % 4 == 0 && year % 100 != 0),
{
}

/// The day before a date is a date of the calendar, and the day after that is the date again.
pub proof fn law_previous_day_undone(d: CivilDate)
    requires
        d.valid(),
        !d.is_first(),
    ensures
        previous_day(d).valid(),
        next_day(previous_day(d)) == d,
        day_number(previous_day(d)) == day_number(d) - 1,
{
    let p = previous_day(d);
    assert(p.valid());
    assert(!p.is_last());
    law_next_day_undone(p);
}

} // verus!
