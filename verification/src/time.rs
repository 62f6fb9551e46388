use vstd::prelude::*;
use chrono::{Datelike, NaiveDate, NaiveDateTime, NaiveTime, Timelike};

verus! {

/// The date-and-time type of `chrono`, carried between the calendar and the
/// database without being looked into.
#[verifier::external_type_specification]
#[verifier::external_body]
pub struct ExCalendarMoment(chrono::NaiveDateTime);

/// A calendar day, numbered in the proleptic Gregorian calendar so that
/// 1 January of the year 1 is day 1.
#[derive(Clone, Copy, Debug, PartialEq, Eq, Structural)]
pub struct Day {
    pub number: i32,
}

/// A point in time without a zone: a day, the second within the day and the
/// nanosecond within the second. Timestamps are ordered by these three, the
/// day first.
#[derive(Clone, Copy, Debug, PartialEq, Eq, Structural)]
pub struct Timestamp {
    pub day: i32,
    pub second: u32,
    pub nano: u32,
}

/// Whether `second` and `nano` name a time of day. A nanosecond of a billion
/// or more stands for a leap second and may only follow the last second of
/// a minute.
pub open spec fn is_time_of_day(second: int, nano: int) -> bool {
    &&& 0 <= second < 86_400
    &&& 0 <= nano < 2_000_000_000
    &&& (nano >= 1_000_000_000 ==> second % 60 == 59)
}

/// Whether `chrono` has a date with this day number.
pub uninterp spec fn is_calendar_day(day: int) -> bool;

impl Timestamp {
    /// Chronological order, not strict.
    pub open spec fn at_or_before(self, other: Timestamp) -> bool {
        ||| self.day < other.day
        ||| (self.day == other.day && self.second < other.second)
        ||| (self.day == other.day && self.second == other.second && self.nano <= other.nano)
    }

    /// Whether the calendar can hold this timestamp.
    pub open spec fn on_calendar(self) -> bool {
        is_calendar_day(self.day as int) && is_time_of_day(self.second as int, self.nano as int)
    }

    /// Compares two timestamps chronologically.
    pub fn is_at_or_before(&self, other: &Timestamp) -> (r: bool)
        ensures
            r == self.at_or_before(*other),
    {
        if self.day != other.day {
            self.day < other.day
        } else if self.second != other.second {
            self.second < other.second
        } else {
            self.nano <= other.nano
        }
    }

    /// The day on which the timestamp falls.
    pub fn date(&self) -> (d: Day)
        ensures
            d.number == self.day,
    {
        Day { number: self.day }
    }

    /// Any two timestamps are comparable.
    pub proof fn order_is_total(self, other: Timestamp)
        ensures
            self.at_or_before(other) || other.at_or_before(self),
    {
    }

    /// The order is transitive.
    pub proof fn order_is_transitive(self, middle: Timestamp, last: Timestamp)
        requires
            self.at_or_before(middle),
            middle.at_or_before(last),
        ensures
            self.at_or_before(last),
    {
    }
}

/// `NaiveDate::from_num_days_from_ce_opt`, `NaiveTime::from_num_seconds_from_midnight_opt`
/// and `NaiveDateTime::new`: the calendar's value for a timestamp. There is
/// one exactly when the day number names a date of `chrono` and the second
/// and nanosecond name a time of day.
#[verifier::external_body]
pub(crate) fn calendar_moment(at: &Timestamp) -> (r: Option<NaiveDateTime>)
    ensures
        r is Some <==> (is_calendar_day(at.day as int) && is_time_of_day(
            at.second as int,
            at.nano as int,
        )),
{
    let date = NaiveDate::from_num_days_from_ce_opt(at.day)?;
    let time = NaiveTime::from_num_seconds_from_midnight_opt(at.second, at.nano)?;
    Some(NaiveDateTime::new(date, time))
}

/// `Datelike::num_days_from_ce`, `Timelike::num_seconds_from_midnight` and
/// `Timelike::nanosecond`: the three numbers of a calendar value.
#[verifier::external_body]
pub(crate) fn timestamp_of(moment: &NaiveDateTime) -> (at: Timestamp)
{
    Timestamp {
        day: moment.num_days_from_ce(),
        second: moment.num_seconds_from_midnight(),
        nano: moment.nanosecond(),
    }
}

} // verus!
