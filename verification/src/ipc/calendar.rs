//! Calendar values used by q temporal types: dates, points in time (UTC) and durations.
//!
//! Dates follow the proleptic Gregorian calendar and cover the years `-262143` to `262142`.
//! A date is held as its day number counted from 1970-01-01, a point in time as nanoseconds
//! counted from 1970-01-01T00:00:00Z and a duration as a signed number of nanoseconds whose
//! magnitude is at most `i64::MAX` milliseconds.

use chrono::{Datelike, NaiveDate};
use vstd::prelude::*;

verus! {

//%% Calendar arithmetic %%//vvvvvvvvvvvvvvvvvvvvvvvvv/

/// Whether `year` is a leap year of the proleptic Gregorian calendar.
pub open spec fn is_leap_year(year: int) -> bool {
    year % 4 == 0 && (year % 100 != 0 || year % 400 == 0)
}

/// Number of days of `month` (1 to 12) in `year`.
pub open spec fn days_in_month(year: int, month: int) -> int {
    if month == 2 {
        if is_leap_year(year) {
            29
        } else {
            28
        }
    } else if month == 4 || month == 6 || month == 9 || month == 11 {
        30
    } else {
        31
    }
}

/// Number of days between 1970-01-01 and January 1st of `year` (negative before 1970).
pub open spec fn days_before_year(year: int) -> int {
    365 * (year - 1970) + ((year - 1) / 4 - 492) - ((year - 1) / 100 - 19) + ((year - 1) / 400 - 4)
}

/// Number of days of `year` before the first day of `month` (1 to 12).
pub open spec fn days_before_month(year: int, month: int) -> int {
    let base: int = if month <= 1 {
        0
    } else if month == 2 {
        31
    } else if month == 3 {
        59
    } else if month == 4 {
        90
    } else if month == 5 {
        120
    } else if month == 6 {
        151
    } else if month == 7 {
        181
    } else if month == 8 {
        212
    } else if month == 9 {
        243
    } else if month == 10 {
        273
    } else if month == 11 {
        304
    } else {
        334
    };
    if month > 2 && is_leap_year(year) {
        base + 1
    } else {
        base
    }
}

/// Day number (days since 1970-01-01) of the date `year`-`month`-`day`.
pub open spec fn days_from_civil(year: int, month: int, day: int) -> int {
    days_before_year(year) + days_before_month(year, month) + day - 1
}

/// Smallest supported year.
pub const MIN_YEAR: i32 = -262143;

/// Largest supported year.
pub const MAX_YEAR: i32 = 262142;

/// Day number of the earliest supported date, -262143-01-01.
pub const MIN_DAYS: i32 = -96465292;

/// Day number of the latest supported date, 262142-12-31.
pub const MAX_DAYS: i32 = 95026236;

/// Whether `year`-`month`-`day` names a supported calendar date.
pub open spec fn valid_ymd(year: int, month: int, day: int) -> bool {
    &&& MIN_YEAR <= year <= MAX_YEAR
    &&& 1 <= month <= 12
    &&& 1 <= day <= days_in_month(year, month)
}

/// The number of days from one January 1st to the next.
pub proof fn lemma_days_before_next_year(year: int)
    ensures
        days_before_year(year + 1) == days_before_year(year) + if is_leap_year(year) {
            366int
        } else {
            365int
        },
{
    lemma_div_step(year, 4);
    lemma_div_step(year, 100);
    lemma_div_step(year, 400);
    if year % 400 == 0 {
        lemma_mod_of_multiple(year, 100, 4);
        lemma_mod_of_multiple(year, 4, 100);
    } else if year % 100 == 0 {
        lemma_mod_of_multiple(year, 4, 25);
    }
}

/// Stepping from `x - 1` to `x` raises `x / d` by one exactly when `d` divides `x`.
proof fn lemma_div_step(x: int, d: int)
    requires
        d > 0,
    ensures
        (x - 1) / d + (if x % d == 0 { 1int } else { 0int }) == x / d,
{
    let q = (x - 1) / d;
    let r = (x - 1) % d;
    vstd::arithmetic::div_mod::lemma_fundamental_div_mod(x - 1, d);
    assert(x - 1 == q * d + r && 0 <= r < d) by {
        vstd::arithmetic::mul::lemma_mul_is_commutative(d, q);
    }
    if r == d - 1 {
        assert(x == (q + 1) * d + 0) by {
            vstd::arithmetic::mul::lemma_mul_is_distributive_add_other_way(d, q, 1);
        }
        vstd::arithmetic::div_mod::lemma_fundamental_div_mod_converse(x, d, q + 1, 0);
    } else {
        vstd::arithmetic::div_mod::lemma_fundamental_div_mod_converse(x, d, q, r + 1);
    }
}

/// A multiple of `a * b` is a multiple of `a`.
proof fn lemma_mod_of_multiple(x: int, a: int, b: int)
    requires
        a > 0,
        b > 0,
        x % (a * b) == 0,
    ensures
        x % a == 0,
{
    assert(a * b > 0) by (nonlinear_arith)
        requires
            a > 0,
            b > 0,
    ;
    vstd::arithmetic::div_mod::lemma_fundamental_div_mod(x, a * b);
    let q = x / (a * b);
    assert(x == (q * b) * a + 0) by (nonlinear_arith)
        requires
            x == (a * b) * q + 0,
    ;
    vstd::arithmetic::div_mod::lemma_fundamental_div_mod_converse(x, a, q * b, 0);
}

/// The first day of a month follows the last day of the month before.
pub proof fn lemma_days_before_next_month(year: int, month: int)
    requires
        1 <= month < 12,
    ensures
        days_before_month(year, month + 1) == days_before_month(year, month) + days_in_month(year, month),
{
}

/// Day numbers of January 1st grow with the year.
pub proof fn lemma_days_before_year_monotonic(a: int, b: int)
    requires
        a <= b,
    ensures
        days_before_year(a) + 365 * (b - a) <= days_before_year(b),
        days_before_year(b) <= days_before_year(a) + 366 * (b - a),
    decreases b - a,
{
    if a < b {
        lemma_days_before_year_monotonic(a, b - 1);
        lemma_days_before_next_year(b - 1);
    }
}

/// A date lies between the first day of its year and the first day of the next year.
pub proof fn lemma_days_from_civil_in_year(year: int, month: int, day: int)
    requires
        1 <= month <= 12,
        1 <= day <= days_in_month(year, month),
    ensures
        days_before_year(year) <= days_from_civil(year, month, day) < days_before_year(year + 1),
{
    lemma_days_before_next_year(year);
}

/// Distinct valid dates have distinct day numbers.
pub proof fn lemma_days_from_civil_injective(y1: int, m1: int, d1: int, y2: int, m2: int, d2: int)
    requires
        1 <= m1 <= 12,
        1 <= d1 <= days_in_month(y1, m1),
        1 <= m2 <= 12,
        1 <= d2 <= days_in_month(y2, m2),
        days_from_civil(y1, m1, d1) == days_from_civil(y2, m2, d2),
    ensures
        y1 == y2 && m1 == m2 && d1 == d2,
{
    lemma_days_from_civil_in_year(y1, m1, d1);
    lemma_days_from_civil_in_year(y2, m2, d2);
    if y1 < y2 {
        lemma_days_before_year_monotonic(y1 + 1, y2);
    } else if y2 < y1 {
        lemma_days_before_year_monotonic(y2 + 1, y1);
    }
    assert(y1 == y2);
    if m1 < m2 {
        lemma_month_start_gap(y1, m1, m2);
    } else if m2 < m1 {
        lemma_month_start_gap(y1, m2, m1);
    }
}

/// The calendar date `(year, month, day)` whose day number is `days`.
pub open spec fn civil_of(days: int) -> (int, int, int) {
    choose|ymd: (int, int, int)|
        valid_ymd(ymd.0, ymd.1, ymd.2) && #[trigger] days_from_civil(ymd.0, ymd.1, ymd.2) == days
}

/// `civil_of` gives back the date of a day number.
pub proof fn lemma_civil_of(year: int, month: int, day: int)
    requires
        valid_ymd(year, month, day),
    ensures
        civil_of(days_from_civil(year, month, day)) == (year, month, day),
{
    let days = days_from_civil(year, month, day);
    let ymd = (year, month, day);
    assert(valid_ymd(ymd.0, ymd.1, ymd.2) && days_from_civil(ymd.0, ymd.1, ymd.2) == days);
    let c = civil_of(days);
    lemma_days_from_civil_injective(c.0, c.1, c.2, year, month, day);
}

/// A later month starts after the whole of an earlier month.
proof fn lemma_month_start_gap(year: int, a: int, b: int)
    requires
        1 <= a < b <= 12,
    ensures
        days_before_month(year, a) + days_in_month(year, a) <= days_before_month(year, b),
    decreases b - a,
{
    if a + 1 < b {
        lemma_month_start_gap(year, a, b - 1);
        lemma_days_before_next_month(year, b - 1);
    } else {
        lemma_days_before_next_month(year, a);
    }
}

/// Day numbers of the supported dates are those between `MIN_DAYS` and `MAX_DAYS`.
proof fn lemma_supported_range(year: int, month: int, day: int)
    requires
        valid_ymd(year, month, day),
    ensures
        MIN_DAYS <= days_from_civil(year, month, day) <= MAX_DAYS,
{
    lemma_days_from_civil_in_year(year, month, day);
    lemma_days_before_year_monotonic(MIN_YEAR as int, year);
    lemma_days_before_year_monotonic(year + 1, MAX_YEAR as int + 1);
    assert(days_before_year(MIN_YEAR as int) == MIN_DAYS);
    assert(days_before_year(MAX_YEAR as int + 1) == MAX_DAYS + 1);
}

proof fn lemma_floor_div_negative(a: int, b: int)
    requires
        b > 0,
        a < 0,
    ensures
        a / b == -((-a + b - 1) / b),
        (-a + b - 1) / b <= -a,
{
    let q = a / b;
    let r = a % b;
    vstd::arithmetic::div_mod::lemma_fundamental_div_mod(a, b);
    vstd::arithmetic::mul::lemma_mul_is_commutative(b, q);
    let n = -a + b - 1;
    assert(n == (-q) * b + (b - 1 - r)) by {
        vstd::arithmetic::mul::lemma_mul_unary_negation(q, b);
    }
    vstd::arithmetic::div_mod::lemma_fundamental_div_mod_converse(n, b, -q, b - 1 - r);
    assert(-q <= -a) by (nonlinear_arith)
        requires
            a == q * b + r,
            0 <= r < b,
            a < 0,
            b > 0,
    ;
}

/// chrono's `NaiveDate::from_ymd_opt` followed by `NaiveDate::to_epoch_days`: the date exists
/// exactly for a valid month and day of a year from `-262143` to `262142`, and its day number
/// counts the days of the proleptic Gregorian calendar from 1970-01-01.
#[verifier::external_body]
fn chrono_epoch_days(year: i32, month: u32, day: u32) -> (r: Option<i32>)
    ensures
        r is Some <==> valid_ymd(year as int, month as int, day as int),
        r matches Some(d) ==> d == days_from_civil(year as int, month as int, day as int),
{
    match NaiveDate::from_ymd_opt(year, month, day) {
        Some(date) => Some(date.to_epoch_days()),
        None => None,
    }
}

/// chrono's `NaiveDate::from_epoch_days` with the date's `year`, `month` and `day`: every day
/// number of a supported date names a date, and the date is the one whose day number it is.
#[verifier::external_body]
fn chrono_civil(days: i32) -> (r: (i32, u32, u32))
    requires
        MIN_DAYS <= days <= MAX_DAYS,
    ensures
        valid_ymd(r.0 as int, r.1 as int, r.2 as int),
        days_from_civil(r.0 as int, r.1 as int, r.2 as int) == days,
{
    let date = NaiveDate::from_epoch_days(days).unwrap();
    (date.year(), date.month(), date.day())
}

//%% Date %%//vvvvvvvvvvvvvvvvvvvvvvvvvvvvvvvvvvvvvvvvv/

/// A calendar date (UTC).
#[derive(Clone, Copy, Debug, PartialEq, Eq, Structural)]
pub struct Date {
    days: i32,
}

impl View for Date {
    type V = int;

    /// The day number of the date, counted from 1970-01-01.
    closed spec fn view(&self) -> int {
        self.days as int
    }
}

impl Date {
    #[verifier::type_invariant]
    spec fn inv(self) -> bool {
        MIN_DAYS <= self.days <= MAX_DAYS
    }

    /// The earliest supported date, -262143-01-01.
    pub fn min_value() -> (r: Date)
        ensures
            r@ == MIN_DAYS,
    {
        Date { days: MIN_DAYS }
    }

    /// The latest supported date, 262142-12-31.
    pub fn max_value() -> (r: Date)
        ensures
            r@ == MAX_DAYS,
    {
        Date { days: MAX_DAYS }
    }

    /// The date with the given day number, counted from 1970-01-01, if it is supported.
    pub fn from_days(days: i32) -> (r: Option<Date>)
        ensures
            r is Some <==> MIN_DAYS <= days <= MAX_DAYS,
            r matches Some(d) ==> d@ == days,
    {
        if MIN_DAYS <= days && days <= MAX_DAYS {
            Some(Date { days })
        } else {
            None
        }
    }

    /// The date `year`-`month`-`day`, if it exists and is supported.
    pub fn from_ymd_opt(year: i32, month: u32, day: u32) -> (r: Option<Date>)
        ensures
            r is Some <==> valid_ymd(year as int, month as int, day as int),
            r matches Some(d) ==> d@ == days_from_civil(year as int, month as int, day as int),
    {
        match chrono_epoch_days(year, month, day) {
            Some(days) => {
                proof {
                    lemma_supported_range(year as int, month as int, day as int);
                }
                Some(Date { days })
            },
            None => None,
        }
    }

    /// The day number of the date, counted from 1970-01-01.
    pub fn num_days_from_epoch(&self) -> (r: i32)
        ensures
            r == self@,
            MIN_DAYS <= r <= MAX_DAYS,
    {
        proof {
            use_type_invariant(self);
        }
        self.days
    }

    /// Year, month (1 to 12) and day of month of the date.
    pub fn ymd(&self) -> (r: (i32, u32, u32))
        ensures
            valid_ymd(r.0 as int, r.1 as int, r.2 as int),
            days_from_civil(r.0 as int, r.1 as int, r.2 as int) == self@,
            (r.0 as int, r.1 as int, r.2 as int) == civil_of(self@),
    {
        proof {
            use_type_invariant(self);
        }
        let r = chrono_civil(self.days);
        proof {
            lemma_civil_of(r.0 as int, r.1 as int, r.2 as int);
        }
        r
    }

    /// The year of the date.
    pub fn year(&self) -> (r: i32)
        ensures
            r == civil_of(self@).0,
    {
        let (y, m, d) = self.ymd();
        y
    }

    /// The month of the date counted from 0 (January) to 11 (December).
    pub fn month0(&self) -> (r: u32)
        ensures
            r + 1 == civil_of(self@).1,
    {
        let (y, m, d) = self.ymd();
        m - 1
    }

    /// The point in time at `hour`:`minute`:`second` and `nano` nanoseconds on this date.
    pub fn and_hms_nano_opt(&self, hour: u32, minute: u32, second: u32, nano: u32) -> (r: Option<
        DateTime,
    >)
        ensures
            r is Some <==> hour < 24 && minute < 60 && second < 60 && nano < 1_000_000_000,
            r matches Some(t) ==> t@ == self@ * NANOS_PER_DAY + hour * 3_600_000_000_000
                + minute * 60_000_000_000 + second * 1_000_000_000 + nano,
    {
        proof {
            use_type_invariant(self);
        }
        if hour >= 24 || minute >= 60 || second >= 60 || nano >= 1_000_000_000 {
            return None;
        }
        let nanos = self.days as i128 * 86_400_000_000_000 + hour as i128 * 3_600_000_000_000
            + minute as i128 * 60_000_000_000 + second as i128 * 1_000_000_000 + nano as i128;
        Some(DateTime { nanos })
    }

    /// The point in time at `hour`:`minute`:`second` and `milli` milliseconds on this date.
    pub fn and_hms_milli_opt(&self, hour: u32, minute: u32, second: u32, milli: u32) -> (r: Option<
        DateTime,
    >)
        ensures
            r is Some <==> hour < 24 && minute < 60 && second < 60 && milli < 1000,
            r matches Some(t) ==> t@ == self@ * NANOS_PER_DAY + hour * 3_600_000_000_000
                + minute * 60_000_000_000 + second * 1_000_000_000 + milli * 1_000_000,
    {
        if milli >= 1000 {
            return None;
        }
        self.and_hms_nano_opt(hour, minute, second, milli * 1_000_000)
    }
}

//%% DateTime %%//vvvvvvvvvvvvvvvvvvvvvvvvvvvvvvvvvvvv/

/// Nanoseconds in a day.
pub const NANOS_PER_DAY: i128 = 86_400_000_000_000;

/// Nanoseconds from 1970-01-01T00:00:00Z to the earliest supported point in time.
pub const MIN_DATETIME_NANOS: i128 = -8_334_601_228_800_000_000_000;

/// Nanoseconds from 1970-01-01T00:00:00Z to the latest supported point in time.
pub const MAX_DATETIME_NANOS: i128 = 8_210_266_876_799_999_999_999;

/// A point in time (UTC) with nanosecond precision.
#[derive(Clone, Copy, Debug, PartialEq, Eq, Structural)]
pub struct DateTime {
    nanos: i128,
}

impl View for DateTime {
    type V = int;

    /// Nanoseconds counted from 1970-01-01T00:00:00Z.
    closed spec fn view(&self) -> int {
        self.nanos as int
    }
}

impl DateTime {
    #[verifier::type_invariant]
    spec fn inv(self) -> bool {
        MIN_DATETIME_NANOS <= self.nanos <= MAX_DATETIME_NANOS
    }

    /// The point in time `nanos` nanoseconds after 1970-01-01T00:00:00Z, if it is supported.
    pub fn from_timestamp_nanos(nanos: i128) -> (r: Option<DateTime>)
        ensures
            r is Some <==> MIN_DATETIME_NANOS <= nanos <= MAX_DATETIME_NANOS,
            r matches Some(t) ==> t@ == nanos,
    {
        if MIN_DATETIME_NANOS <= nanos && nanos <= MAX_DATETIME_NANOS {
            Some(DateTime { nanos })
        } else {
            None
        }
    }

    /// The earliest supported point in time, -262143-01-01T00:00:00.
    pub fn min_value() -> (r: DateTime)
        ensures
            r@ == MIN_DATETIME_NANOS,
    {
        DateTime { nanos: MIN_DATETIME_NANOS }
    }

    /// The latest supported point in time, 262142-12-31T23:59:59.999999999.
    pub fn max_value() -> (r: DateTime)
        ensures
            r@ == MAX_DATETIME_NANOS,
    {
        DateTime { nanos: MAX_DATETIME_NANOS }
    }

    /// Nanoseconds counted from 1970-01-01T00:00:00Z.
    pub fn timestamp_nanos(&self) -> (r: i128)
        ensures
            r == self@,
            MIN_DATETIME_NANOS <= r <= MAX_DATETIME_NANOS,
    {
        proof {
            use_type_invariant(self);
        }
        self.nanos
    }

    /// The date of this point in time.
    pub fn date(&self) -> (r: Date)
        ensures
            r@ == self@ / (NANOS_PER_DAY as int),
    {
        proof {
            use_type_invariant(self);
        }
        let days = floor_div_i128(self.nanos, NANOS_PER_DAY);
        proof {
            assert(MIN_DAYS <= days <= MAX_DAYS) by (nonlinear_arith)
                requires
                    days == self.nanos / NANOS_PER_DAY,
                    MIN_DATETIME_NANOS <= self.nanos <= MAX_DATETIME_NANOS,
            ;
        }
        Date { days: days as i32 }
    }
}

/// `a / b` rounded toward negative infinity, for a positive `b`.
fn floor_div_i128(a: i128, b: i128) -> (r: i128)
    requires
        b > 0,
        -0x1_0000_0000_0000_0000_0000_0000 <= a <= 0x1_0000_0000_0000_0000_0000_0000,
        b <= 0x1_0000_0000_0000_0000_0000_0000,
    ensures
        r == a / b,
{
    if a >= 0 {
        assert(a as u128 / b as u128 == a / b);
        (a as u128 / b as u128) as i128
    } else {
        let n = (-a) as u128;
        let bu = b as u128;
        let q = (n + bu - 1) / bu;
        proof {
            assert(q as int == (-(a as int) + b as int - 1) / (b as int));
            lemma_floor_div_negative(a as int, b as int);
        }
        -(q as i128)
    }
}

/// `a / b` rounded toward zero, for a positive `b`, as Rust's integer division does.
pub open spec fn trunc_div(a: int, b: int) -> int {
    if a >= 0 {
        a / b
    } else {
        -((-a) / b)
    }
}

//%% Duration %%//vvvvvvvvvvvvvvvvvvvvvvvvvvvvvvvvvvvv/

/// Largest magnitude of a duration in nanoseconds: `i64::MAX` milliseconds.
pub const MAX_DURATION_NANOS: i128 = 9_223_372_036_854_775_807_000_000;

/// A signed span of time with nanosecond precision.
#[derive(Clone, Copy, Debug, PartialEq, Eq, Structural)]
pub struct Duration {
    nanos: i128,
}

impl View for Duration {
    type V = int;

    /// The length of the span in nanoseconds.
    closed spec fn view(&self) -> int {
        self.nanos as int
    }
}

/// Whether a span of `nanos` nanoseconds can be held by a `Duration`.
pub open spec fn duration_in_range(nanos: int) -> bool {
    -MAX_DURATION_NANOS <= nanos <= MAX_DURATION_NANOS
}

impl Duration {
    #[verifier::type_invariant]
    spec fn inv(self) -> bool {
        -MAX_DURATION_NANOS <= self.nanos <= MAX_DURATION_NANOS
    }

    /// A span of `nanos` nanoseconds.
    pub fn nanoseconds(nanos: i64) -> (r: Duration)
        ensures
            r@ == nanos,
    {
        Duration { nanos: nanos as i128 }
    }

    /// A span of `millis` milliseconds.
    pub fn milliseconds(millis: i64) -> (r: Duration)
        requires
            millis > i64::MIN,
        ensures
            r@ == millis * 1_000_000,
    {
        Duration { nanos: millis as i128 * 1_000_000 }
    }

    /// A span of `seconds` seconds.
    pub fn seconds(seconds: i64) -> (r: Duration)
        requires
            duration_in_range(seconds * 1_000_000_000),
        ensures
            r@ == seconds * 1_000_000_000,
    {
        Duration { nanos: seconds as i128 * 1_000_000_000 }
    }

    /// A span of `minutes` minutes.
    pub fn minutes(minutes: i64) -> (r: Duration)
        requires
            duration_in_range(minutes * 60_000_000_000),
        ensures
            r@ == minutes * 60_000_000_000,
    {
        Duration { nanos: minutes as i128 * 60_000_000_000 }
    }

    /// A span of `hours` hours.
    pub fn hours(hours: i64) -> (r: Duration)
        requires
            duration_in_range(hours * 3_600_000_000_000),
        ensures
            r@ == hours * 3_600_000_000_000,
    {
        Duration { nanos: hours as i128 * 3_600_000_000_000 }
    }

    /// A span of `days` days.
    pub fn days(days: i64) -> (r: Duration)
        requires
            duration_in_range(days * 86_400_000_000_000),
        ensures
            r@ == days * 86_400_000_000_000,
    {
        Duration { nanos: days as i128 * 86_400_000_000_000 }
    }

    /// The whole span in nanoseconds, if it fits in an `i64`.
    pub fn num_nanoseconds(&self) -> (r: Option<i64>)
        ensures
            r is Some <==> i64::MIN <= self@ <= i64::MAX,
            r matches Some(n) ==> n == self@,
    {
        if i64::MIN as i128 <= self.nanos && self.nanos <= i64::MAX as i128 {
            Some(self.nanos as i64)
        } else {
            None
        }
    }

    /// Whole milliseconds of the span, rounded toward zero.
    pub fn num_milliseconds(&self) -> (r: i64)
        ensures
            r == trunc_div(self@, 1_000_000),
    {
        self.trunc_units(1_000_000)
    }

    /// Whole seconds of the span, rounded toward zero.
    pub fn num_seconds(&self) -> (r: i64)
        ensures
            r == trunc_div(self@, 1_000_000_000),
    {
        self.trunc_units(1_000_000_000)
    }

    /// Whole minutes of the span, rounded toward zero.
    pub fn num_minutes(&self) -> (r: i64)
        ensures
            r == trunc_div(self@, 60_000_000_000),
    {
        self.trunc_units(60_000_000_000)
    }

    /// Whole hours of the span, rounded toward zero.
    pub fn num_hours(&self) -> (r: i64)
        ensures
            r == trunc_div(self@, 3_600_000_000_000),
    {
        self.trunc_units(3_600_000_000_000)
    }

    /// Whole days of the span, rounded toward zero.
    pub fn num_days(&self) -> (r: i64)
        ensures
            r == trunc_div(self@, 86_400_000_000_000),
    {
        self.trunc_units(86_400_000_000_000)
    }

    fn trunc_units(&self, unit: i128) -> (r: i64)
        requires
            1_000_000 <= unit <= 86_400_000_000_000,
        ensures
            r == trunc_div(self@, unit as int),
    {
        proof {
            use_type_invariant(self);
        }
        let magnitude: u128 = if self.nanos >= 0 {
            self.nanos as u128
        } else {
            (-self.nanos) as u128
        };
        let q = magnitude / (unit as u128);
        proof {
            assert(q <= i64::MAX) by (nonlinear_arith)
                requires
                    q == magnitude / (unit as u128),
                    magnitude <= MAX_DURATION_NANOS,
                    unit >= 1_000_000,
            ;
        }
        if self.nanos >= 0 {
            q as i64
        } else {
            -(q as i64)
        }
    }
}

} // verus!
