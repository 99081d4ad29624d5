//! The date and time of a commit, read from the log by chrono.

use chrono::Datelike;
use chrono::NaiveDateTime;
use chrono::Timelike;
use vstd::prelude::*;

verus! {

/// What `NaiveDateTime::parse_from_str` of chrono makes of a text under a
/// layout, in plain values. For a text that it reads: the day of the date,
/// counted as `num_days_from_ce` counts it (1 January of the year 1 is day
/// 1), and the second of the time as `num_seconds_from_midnight` counts it.
/// For a text that it refuses: the message of its error.
pub uninterp spec fn datetime_reading(text: Seq<char>, layout: Seq<char>) -> Result<
    (i32, u32),
    Seq<char>,
>;

/// A reading as the contracts speak of it: the message of a refusal as its
/// characters.
pub open spec fn reading_view(reading: Result<(i32, u32), String>) -> Result<
    (i32, u32),
    Seq<char>,
> {
    match reading {
        Ok(moment) => Ok(moment),
        Err(reason) => Err(reason@),
    }
}

/// Calls `NaiveDateTime::parse_from_str` of chrono on the text and the
/// layout. Trusted: the outcome is the one that `datetime_reading` names,
/// day and second for a text that was read, the error's message otherwise.
#[verifier::external_body]
fn read_datetime(text: &str, layout: &str) -> (reading: Result<(i32, u32), String>)
    ensures
        reading_view(reading) == datetime_reading(text@, layout@),
{
    match NaiveDateTime::parse_from_str(text, layout) {
        Ok(moment) => Ok(
            (moment.date().num_days_from_ce(), moment.time().num_seconds_from_midnight()),
        ),
        Err(fault) => Err(fault.to_string()),
    }
}

/// The layout of the date line of a log record: year, month, day, hour,
/// minute, second and a numeric offset from UTC.
pub const DATE_LAYOUT: &'static str = "%Y-%m-%d %H:%M:%S %z";

/// The date and time of a commit as the log wrote them, without the offset.
#[derive(Clone, Copy, Debug, PartialEq, Eq)]
pub struct Timestamp {
    /// The calendar day, counted from 1 January of the year 1 as day 1.
    pub day: i32,
    /// The second of that day, counted from midnight.
    pub second: u32,
}

/// The timestamp for a reading: day and second where the text was read,
/// the refusal otherwise.
pub open spec fn stamp_of_reading(reading: Result<(i32, u32), Seq<char>>) -> Result<
    Timestamp,
    Seq<char>,
> {
    match reading {
        Ok(moment) => Ok(Timestamp { day: moment.0, second: moment.1 }),
        Err(reason) => Err(reason),
    }
}

/// The timestamp that a date line writes, or the reason why it writes none.
pub open spec fn timestamp_of(text: Seq<char>) -> Result<Timestamp, Seq<char>> {
    stamp_of_reading(datetime_reading(text, DATE_LAYOUT@))
}

/// A read timestamp as the contracts speak of it: the message of a refusal
/// as its characters.
pub open spec fn stamp_view(stamp: Result<Timestamp, String>) -> Result<Timestamp, Seq<char>> {
    match stamp {
        Ok(t) => Ok(t),
        Err(reason) => Err(reason@),
    }
}

impl Timestamp {
    /// The timestamp for a date and time that were read as a day and a
    /// second, or the reason handed in.
    pub fn from_reading(reading: Result<(i32, u32), String>) -> (stamp: Result<Timestamp, String>)
        ensures
            stamp_view(stamp) == stamp_of_reading(reading_view(reading)),
    {
        match reading {
            Ok(moment) => Ok(Timestamp { day: moment.0, second: moment.1 }),
            Err(reason) => Err(reason),
        }
    }

    /// Reads the date line of a log record.
    pub fn parse(text: &str) -> (stamp: Result<Timestamp, String>)
        ensures
            stamp_view(stamp) == timestamp_of(text@),
    {
        Timestamp::from_reading(read_datetime(text, DATE_LAYOUT))
    }
}

} // verus!
