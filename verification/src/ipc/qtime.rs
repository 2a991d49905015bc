//! Conversions between calendar values and the integers by which q holds temporal values:
//! nanoseconds, months and days counted from the kdb+ epoch 2000.01.01.

use super::calendar::{is_leap_year, days_in_month, days_before_year, days_before_month, days_from_civil, MIN_YEAR, MAX_YEAR, MIN_DAYS, MAX_DAYS, valid_ymd, civil_of, lemma_civil_of, Date, NANOS_PER_DAY, MIN_DATETIME_NANOS, MAX_DATETIME_NANOS, DateTime, trunc_div, MAX_DURATION_NANOS, Duration, duration_in_range};
use crate::{qinf_base, qninf_base, qnull_base};
use vstd::prelude::*;

verus! {

/// 1 day in nano second.
pub const ONE_DAY_NANOS: i64 = 86400000000000;

/// 1 day in milli second.
pub const ONE_DAY_MILLIS: i64 = 86400000;

/// 2000.01.01 (kdb+ epoch) - 1970.01.01 in month.
pub const KDB_MONTH_OFFSET: i32 = 360;

/// 2000.01.01 (kdb+ epoch) - 1970.01.01 in day.
pub const KDB_DAY_OFFSET: i32 = 10957;

/// 2000.01.01 (kdb+ epoch) - 1970.01.01 in nanosecond.
pub const KDB_TIMESTAMP_OFFSET: i64 = 946684800000000000;

/// Nanoseconds since 1970-01-01 of the q null timestamp `0Np` (1707.09.22D00:12:43.145224192).
pub const QNULL_TIMESTAMP_NANOS: i128 = -8276687236854775808;

/// Nanoseconds since 1970-01-01 of the q infinite timestamp `0Wp` (2292.04.10D23:47:16.854775807).
pub const QINF_TIMESTAMP_NANOS: i128 = 10170056836854775807;

/// Day number of the date standing for the q negative infinite month `-0Wm`.
pub const QNINF_MONTH_DAYS: i32 = -96465261;

/// Day number of the date standing for the q infinite month `0Wm`.
pub const QINF_MONTH_DAYS: i32 = 95026206;

//%% Calendar value -> q integer %%//vvvvvvvvvvvvvvvv/

/// Whether `timestamp_to_q` is defined on a point in time: a point after `i64::MAX`
/// nanoseconds since 1970 and before `0Wp` has no nanosecond timestamp.
pub open spec fn timestamp_convertible(nanos: int) -> bool {
    !(i64::MAX < nanos < QINF_TIMESTAMP_NANOS)
}

/// The q timestamp (nanoseconds since 2000.01.01) of a point in time given in nanoseconds
/// since 1970-01-01; points outside the q range become null or infinities.
pub open spec fn q_timestamp_of(nanos: int) -> i64 {
    if nanos <= QNULL_TIMESTAMP_NANOS {
        qnull_base::J
    } else if nanos == QNULL_TIMESTAMP_NANOS + 1 {
        qninf_base::J
    } else if nanos >= QINF_TIMESTAMP_NANOS {
        qinf_base::J
    } else {
        (nanos - KDB_TIMESTAMP_OFFSET) as i64
    }
}

/// The q month (months since 2000.01) of a date given by its day number.
pub open spec fn q_month_of(days: int) -> i32 {
    if days == MIN_DAYS {
        qnull_base::I
    } else if days == QNINF_MONTH_DAYS {
        qninf_base::I
    } else if days >= QINF_MONTH_DAYS {
        qinf_base::I
    } else {
        ((civil_of(days).0 - 1970) * 12 + civil_of(days).1 - 1 - KDB_MONTH_OFFSET) as i32
    }
}

/// The q date (days since 2000.01.01) of a date given by its day number.
pub open spec fn q_date_of(days: int) -> i32 {
    if days == MIN_DAYS {
        qnull_base::I
    } else if days == MIN_DAYS + 1 {
        qninf_base::I
    } else if days == MAX_DAYS {
        qinf_base::I
    } else {
        (days - KDB_DAY_OFFSET) as i32
    }
}

pub(crate) fn datetime_to_q_timestamp(timestamp: DateTime) -> (r: i64)
    requires
        timestamp_convertible(timestamp@),
    ensures
        r == q_timestamp_of(timestamp@),
{
    let nanos = timestamp.timestamp_nanos();
    if nanos <= QNULL_TIMESTAMP_NANOS {
        // 0Np
        qnull_base::J
    } else if nanos == QNULL_TIMESTAMP_NANOS + 1 {
        // -0Wp
        qninf_base::J
    } else if nanos >= QINF_TIMESTAMP_NANOS {
        // 0Wp
        qinf_base::J
    } else {
        (nanos as i64) - KDB_TIMESTAMP_OFFSET
    }
}

pub(crate) fn date_to_q_month(month: Date) -> (r: i32)
    ensures
        r == q_month_of(month@),
{
    let days = month.num_days_from_epoch();
    if days == MIN_DAYS {
        // 0Nm
        qnull_base::I
    } else if days == QNINF_MONTH_DAYS {
        // -0Wm
        qninf_base::I
    } else if days >= QINF_MONTH_DAYS {
        // 0Wm
        qinf_base::I
    } else {
        let (year, month1, _) = month.ymd();
        (year - 1970) * 12 + (month1 as i32 - 1) - KDB_MONTH_OFFSET
    }
}

pub(crate) fn date_to_q_date(date: Date) -> (r: i32)
    ensures
        r == q_date_of(date@),
{
    let days = date.num_days_from_epoch();
    if days == MIN_DAYS {
        // 0Nd
        qnull_base::I
    } else if days == MIN_DAYS + 1 {
        // -0Wd
        qninf_base::I
    } else if days == MAX_DAYS {
        // 0Wd
        qinf_base::I
    } else {
        days - KDB_DAY_OFFSET
    }
}

//%% q integer -> calendar value %%//vvvvvvvvvvvvvvvv/

/// Nanoseconds since 1970-01-01 of the q timestamp `nanos`.
pub open spec fn datetime_of_q_timestamp(nanos: i64) -> int {
    nanos + KDB_TIMESTAMP_OFFSET
}

/// Whether `month_of_q` is defined on a q month: within the q range the month must name a
/// supported year.
pub open spec fn q_month_convertible(months: i32) -> bool {
    ||| months == qnull_base::I
    ||| months <= -3171072
    ||| months >= 3121728
    ||| 0 <= months <= 3121715
    ||| (months < 0 && months >= -3169716)
}

/// Day number of the first day of the q month `months`.
pub open spec fn month_of_q(months: i32) -> int {
    if months == qnull_base::I {
        MIN_DAYS as int
    } else if months <= -3171072 {
        QNINF_MONTH_DAYS as int
    } else if months >= 3121728 {
        QINF_MONTH_DAYS as int
    } else {
        days_from_civil(2000 + months / 12, months % 12 + 1, 1)
    }
}

/// Whether `date_of_q` is defined on a q date: it must name a supported date.
pub open spec fn q_date_convertible(days: i32) -> bool {
    ||| days == qnull_base::I
    ||| days <= -96476615
    ||| days >= 95015644
    ||| -96476249 <= days <= 95015279
}

/// Day number of the q date `days`.
pub open spec fn date_of_q(days: i32) -> int {
    if days == qnull_base::I {
        MIN_DAYS as int
    } else if days <= -96476615 {
        MIN_DAYS + 1
    } else if days >= 95015644 {
        MAX_DAYS as int
    } else {
        days + KDB_DAY_OFFSET
    }
}

pub(crate) fn q_timestamp_to_datetime(nanos: i64) -> (r: DateTime)
    ensures
        r@ == datetime_of_q_timestamp(nanos),
{
    match DateTime::from_timestamp_nanos(nanos as i128 + KDB_TIMESTAMP_OFFSET as i128) {
        Some(datetime) => datetime,
        None => DateTime::min_value(),
    }
}

pub(crate) fn q_month_to_date(months: i32) -> (r: Date)
    requires
        q_month_convertible(months),
    ensures
        r@ == month_of_q(months),
{
    if months == qnull_base::I {
        Date::min_value()
    } else if months <= -3171072 {
        match Date::from_days(QNINF_MONTH_DAYS) {
            Some(date) => date,
            None => Date::min_value(),
        }
    } else if months >= 3121728 {
        match Date::from_days(QINF_MONTH_DAYS) {
            Some(date) => date,
            None => Date::min_value(),
        }
    } else {
        let (year_offset, month): (i32, u32) = if months >= 0 {
            (months / 12, (months % 12) as u32)
        } else {
            let a: i32 = -months;
            let years: i32 = (a + 11) / 12;
            proof {
                assert(months / 12 == -years && months % 12 == 12 * years - a) by (nonlinear_arith)
                    requires
                        a == -months,
                        a > 0,
                        years == (a + 11) / 12,
                ;
            }
            (-years, (12 * years - a) as u32)
        };
        match Date::from_ymd_opt(2000 + year_offset, month + 1, 1) {
            Some(date) => date,
            None => Date::min_value(),
        }
    }
}

pub(crate) fn q_date_to_date(days: i32) -> (r: Date)
    requires
        q_date_convertible(days),
    ensures
        r@ == date_of_q(days),
{
    if days == qnull_base::I {
        Date::min_value()
    } else if days <= -96476615 {
        match Date::from_days(MIN_DAYS + 1) {
            Some(date) => date,
            None => Date::min_value(),
        }
    } else if days >= 95015644 {
        Date::max_value()
    } else {
        match Date::from_days(days + KDB_DAY_OFFSET) {
            Some(date) => date,
            None => Date::min_value(),
        }
    }
}

pub(crate) fn q_timespan_to_duration(nanos: i64) -> (r: Duration)
    ensures
        r@ == nanos,
{
    Duration::nanoseconds(nanos)
}

pub(crate) fn q_minute_to_duration(minutes: i32) -> (r: Duration)
    ensures
        r@ == minutes * 60_000_000_000,
{
    Duration::minutes(minutes as i64)
}

pub(crate) fn q_second_to_duration(seconds: i32) -> (r: Duration)
    ensures
        r@ == seconds * 1_000_000_000,
{
    Duration::seconds(seconds as i64)
}

pub(crate) fn q_time_to_duration(millis: i32) -> (r: Duration)
    ensures
        r@ == millis * 1_000_000,
{
    Duration::milliseconds(millis as i64)
}

} // verus!
