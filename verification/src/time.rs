//! Wall-clock times and instants.
//!
//! A log line's time is kept as it is written there: no zone, no conversion.

use chrono::{DateTime, Datelike, FixedOffset, Local, NaiveDate, NaiveDateTime, TimeZone, Timelike};
use vstd::prelude::*;

use crate::text::{decimal, padded};

verus! {

/// How a wall-clock time is written in the table: year to milliseconds.
pub const TIMESTAMP_FORMAT: &'static str = "%Y-%m-%d %H:%M:%S%.3f";

/// A wall-clock time without a zone.
#[derive(Clone, Copy, Debug, PartialEq, Eq, Structural)]
pub struct Timestamp {
    pub year: i32,
    pub month: u32,
    pub day: u32,
    pub hour: u32,
    pub minute: u32,
    pub second: u32,
    /// Nanoseconds; a leap second counts on from 1,000,000,000.
    pub nano: u32,
}

/// A moment: seconds since 1970-01-01 00:00:00 UTC, and nanoseconds.
#[derive(Clone, Copy, Debug, PartialEq, Eq, Structural)]
pub struct Instant {
    pub seconds: i64,
    pub nano: u32,
}

/// Whether a year has a 29th of February.
pub open spec fn leap_year(year: int) -> bool {
    year % 4 == 0 && (year % 100 != 0 || year % 400 == 0)
}

/// The days of a month.
pub open spec fn days_in_month(year: int, month: int) -> int {
    if month == 2 {
        if leap_year(year) {
            29
        } else {
            28
        }
    } else if month == 4 || month == 6 || month == 9 || month == 11 {
        30
    } else {
        31
    }
}

/// Whether the calendar has a date.
pub open spec fn date_exists(year: int, month: int, day: int) -> bool {
    &&& -262143 <= year <= 262142
    &&& 1 <= month <= 12
    &&& 1 <= day <= days_in_month(year, month)
}

/// Whether the clock shows a time; a leap second stands only behind second 59.
pub open spec fn time_exists(hour: int, minute: int, second: int, nano: int) -> bool {
    &&& hour < 24
    &&& minute < 60
    &&& second < 60
    &&& nano < 1_000_000_000 || (second == 59 && nano < 2_000_000_000)
}

/// The days from the first of January of the year 0 to that of `year`.
pub open spec fn days_before_year(year: int) -> int {
    365 * year + (year + 3) / 4 - (year + 99) / 100 + (year + 399) / 400
}

/// The days of a year in front of a month.
pub open spec fn days_before_month(year: int, month: int) -> int
    decreases month,
{
    if month <= 1 {
        0
    } else {
        days_before_month(year, month - 1) + days_in_month(year, month - 1)
    }
}

impl Timestamp {
    /// The date exists, and so does the time but for where a leap second stands.
    pub open spec fn wf(self) -> bool {
        &&& date_exists(self.year as int, self.month as int, self.day as int)
        &&& self.hour < 24
        &&& self.minute < 60
        &&& self.second < 60
        &&& self.nano < 2_000_000_000
    }

    /// The seconds from 1970-01-01 00:00:00 to this time by the same clock.
    pub open spec fn epoch_seconds(self) -> int {
        (days_before_year(self.year as int) + days_before_month(self.year as int, self.month as int)
            + self.day - 1 - 719528) * 86400 + self.hour * 3600 + self.minute * 60 + self.second
    }

    /// Whether some clock shows this time at `i`: no zone is a day away from UTC.
    pub open spec fn shows(self, i: Instant) -> bool {
        &&& self.wf()
        &&& -86400 < self.epoch_seconds() - i.seconds < 86400
        &&& self.nano == i.nano
    }
}

impl Timestamp {
    /// Tells whether the date and the time exist.
    pub fn is_real(&self) -> (r: bool)
        ensures
            r == self.wf(),
    {
        if self.year < -262143 || self.year > 262142 || self.month < 1 || self.month > 12 {
            return false;
        }
        let leap = self.year % 4 == 0 && (self.year % 100 != 0 || self.year % 400 == 0);
        let days: u32 = if self.month == 2 {
            if leap {
                29
            } else {
                28
            }
        } else if self.month == 4 || self.month == 6 || self.month == 9 || self.month == 11 {
            30
        } else {
            31
        };
        1 <= self.day && self.day <= days && self.hour < 24 && self.minute < 60 && self.second < 60
            && self.nano < 2_000_000_000
    }
}

impl Instant {
    /// Whether the moment lies well inside the calendar: some thousand years
    /// around those of four digits.
    pub open spec fn wf(self) -> bool {
        &&& -100_000_000_000 <= self.seconds <= 300_000_000_000
        &&& self.nano < 2_000_000_000
        &&& self.nano >= 1_000_000_000 ==> self.seconds % 60 == 59
    }
}

/// A year: four digits, or a sign and at least four.
pub open spec fn year_text(year: int) -> Seq<char> {
    if 0 <= year <= 9999 {
        padded(year as nat, 4)
    } else if year < 0 {
        seq!['-'] + digits_of_year((-year) as nat)
    } else {
        seq!['+'] + digits_of_year(year as nat)
    }
}

/// A number in at least four digits.
pub open spec fn digits_of_year(n: nat) -> Seq<char> {
    if n < 10_000 {
        padded(n, 4)
    } else {
        decimal(n)
    }
}

/// A time as [`TIMESTAMP_FORMAT`] writes it.
pub open spec fn wall_clock(ts: Timestamp) -> Seq<char> {
    year_text(ts.year as int) + seq!['-'] + padded(ts.month as nat, 2) + seq!['-'] + padded(
        ts.day as nat,
        2,
    ) + seq![' '] + padded(ts.hour as nat, 2) + seq![':'] + padded(ts.minute as nat, 2) + seq![':']
        + padded((ts.second + ts.nano / 1_000_000_000) as nat, 2) + seq!['.'] + padded(
        (ts.nano / 1_000_000 % 1000) as nat,
        3,
    )
}

/// The wall-clock time of a date and a time of day, where both exist.
pub open spec fn civil_time(
    year: i32,
    month: u32,
    day: u32,
    hour: u32,
    minute: u32,
    second: u32,
    nano: u32,
) -> Option<Timestamp> {
    if date_exists(year as int, month as int, day as int) && time_exists(
        hour as int,
        minute as int,
        second as int,
        nano as int,
    ) {
        Some(Timestamp { year, month, day, hour, minute, second, nano })
    } else {
        None
    }
}

/// The wall-clock time of a date and a time of day.
///
/// `NaiveDate::from_ymd_opt` and `NaiveDate::and_hms_nano_opt` refuse what the
/// calendar or the clock does not have, and keep every part of what they take.
#[verifier::external_body]
pub(crate) fn civil(
    year: i32,
    month: u32,
    day: u32,
    hour: u32,
    minute: u32,
    second: u32,
    nano: u32,
) -> (r: Option<Timestamp>)
    ensures
        r == civil_time(year, month, day, hour, minute, second, nano),
{
    let at = NaiveDate::from_ymd_opt(year, month, day)?.and_hms_nano_opt(hour, minute, second, nano)?;
    Some(Timestamp {
        year: at.year(),
        month: at.month(),
        day: at.day(),
        hour: at.hour(),
        minute: at.minute(),
        second: at.second(),
        nano: at.nanosecond(),
    })
}

/// The wall-clock time of this machine.
///
/// `Local::now` depends on the clock and on the machine's zone: nothing is
/// claimed of it but that its parts are those of a date and a time.
#[verifier::external_body]
fn local_now() -> (r: Timestamp)
    ensures
        r.wf(),
{
    let at = Local::now().naive_local();
    Timestamp {
        year: at.year(),
        month: at.month(),
        day: at.day(),
        hour: at.hour(),
        minute: at.minute(),
        second: at.second(),
        nano: at.nanosecond(),
    }
}

/// Whether asking this machine's clock for the time may have come to `ts`.
pub closed spec fn clock_says(ts: Timestamp) -> bool {
    call_ensures(local_now, (), ts)
}

/// The present wall-clock time, as this machine's clock says.
pub(crate) fn present_time() -> (r: Timestamp)
    ensures
        r.wf(),
        clock_says(r),
{
    local_now()
}

/// The moment at which a clock `offset` seconds east of UTC shows `ts`.
///
/// `FixedOffset::east_opt` refuses an offset of a day or more; for the others
/// `from_local_datetime` gives the one moment, the offset taken away from the
/// time.
#[verifier::external_body]
pub(crate) fn instant_at(ts: Timestamp, offset: i32) -> (r: Option<Instant>)
    requires
        ts.wf(),
        time_exists(ts.hour as int, ts.minute as int, ts.second as int, ts.nano as int),
        0 <= ts.year <= 9999,
    ensures
        r is Some <==> -86400 < offset < 86400,
        r matches Some(i) ==> i.seconds == ts.epoch_seconds() - offset && i.nano == ts.nano,
{
    let date = NaiveDate::from_ymd_opt(ts.year, ts.month, ts.day)?;
    let naive = date.and_hms_nano_opt(ts.hour, ts.minute, ts.second, ts.nano)?;
    let at = FixedOffset::east_opt(offset)?.from_local_datetime(&naive).single()?;
    Some(Instant { seconds: at.timestamp(), nano: at.timestamp_subsec_nanos() })
}

/// The wall-clock time of this machine at a moment.
///
/// `DateTime::with_timezone` and `naive_local` shift the moment by the offset of
/// the machine's zone, which is not known here; it is less than a day.
#[verifier::external_body]
fn local_at(i: Instant) -> (r: Timestamp)
    requires
        i.wf(),
    ensures
        r.shows(i),
{
    let at = DateTime::from_timestamp(i.seconds, i.nano).unwrap().with_timezone(&Local).naive_local();
    Timestamp {
        year: at.year(),
        month: at.month(),
        day: at.day(),
        hour: at.hour(),
        minute: at.minute(),
        second: at.second(),
        nano: at.nanosecond(),
    }
}

/// Whether asking this machine's clock for its time at `i` may have come to `ts`.
pub closed spec fn clock_shows(i: Instant, ts: Timestamp) -> bool {
    call_ensures(local_at, (i,), ts)
}

/// The wall-clock time at a moment, as this machine's clock shows it.
pub(crate) fn shown_time(i: Instant) -> (r: Timestamp)
    requires
        i.wf(),
    ensures
        r.shows(i),
        clock_shows(i, r),
{
    local_at(i)
}

/// The moment that `DateTime::parse_from_rfc3339` reads out of a text.
pub uninterp spec fn rfc3339_instant(raw: Seq<char>) -> Option<Instant>;

/// Reads a moment in RFC 3339.
///
/// `DateTime::parse_from_rfc3339` depends on the text alone. It takes a year of
/// four digits and an offset of less than a day, and a leap second only as
/// second 60.
#[verifier::external_body]
pub(crate) fn parse_rfc3339(raw: &str) -> (r: Option<Instant>)
    ensures
        r == rfc3339_instant(raw@),
        r matches Some(i) ==> i.wf(),
{
    let at = DateTime::parse_from_rfc3339(raw).ok()?;
    Some(Instant { seconds: at.timestamp(), nano: at.timestamp_subsec_nanos() })
}

/// Writes a time with chrono's formatter.
///
/// `NaiveDateTime::format` with [`TIMESTAMP_FORMAT`] writes the parts in order,
/// a leap second as second 60, and cuts the fraction to milliseconds.
#[verifier::external_body]
pub(crate) fn chrono_text(ts: &Timestamp) -> (r: String)
    requires
        ts.wf(),
    ensures
        r@ == wall_clock(*ts),
{
    let date = NaiveDate::from_ymd_opt(ts.year, ts.month, ts.day).unwrap();
    let naive = date.and_hms_opt(ts.hour, ts.minute, ts.second).unwrap();
    naive.with_nanosecond(ts.nano).unwrap().format(TIMESTAMP_FORMAT).to_string()
}

/// The time that `NaiveDateTime::parse_from_str` reads with [`TIMESTAMP_FORMAT`],
/// or what it says of a text that it cannot read.
pub uninterp spec fn chrono_time(raw: Seq<char>) -> Result<Timestamp, Seq<char>>;

/// What reading a time came to.
pub open spec fn time_view(r: Result<Timestamp, String>) -> Result<Timestamp, Seq<char>> {
    match r {
        Ok(ts) => Ok(ts),
        Err(e) => Err(e@),
    }
}

/// Whether what was written of a time in whole milliseconds with a year of four
/// digits is read as that time.
pub open spec fn reads_back(raw: Seq<char>, r: Result<Timestamp, Seq<char>>) -> bool {
    forall|ts: Timestamp|
        ts.wf() && 0 <= ts.year <= 9999 && ts.nano < 1_000_000_000 && ts.nano % 1_000_000 == 0
            && raw == #[trigger] wall_clock(ts) ==> r == Ok::<Timestamp, Seq<char>>(ts)
}

/// Reads a time with chrono's parser.
///
/// What `NaiveDateTime::parse_from_str` with [`TIMESTAMP_FORMAT`] gives, or the
/// text of its error, depends on the text alone. It reads back what the formatter
/// writes of a time in whole milliseconds with a year of four digits; what it
/// makes of other texts is left unsaid.
#[verifier::external_body]
pub(crate) fn parse_chrono(raw: &str) -> (r: Result<Timestamp, String>)
    ensures
        time_view(r) == chrono_time(raw@),
        r matches Ok(ts) ==> ts.wf(),
        reads_back(raw@, time_view(r)),
{
    let at = NaiveDateTime::parse_from_str(raw, TIMESTAMP_FORMAT).map_err(|e| e.to_string())?;
    Ok(Timestamp {
        year: at.year(),
        month: at.month(),
        day: at.day(),
        hour: at.hour(),
        minute: at.minute(),
        second: at.second(),
        nano: at.nanosecond(),
    })
}

impl Default for Timestamp {
    /// 1970-01-01 00:00:00.
    fn default() -> (r: Self)
        ensures
            r == (Timestamp { year: 1970, month: 1, day: 1, hour: 0, minute: 0, second: 0, nano: 0 }),
    {
        Timestamp { year: 1970, month: 1, day: 1, hour: 0, minute: 0, second: 0, nano: 0 }
    }
}

} // verus!
