//! Time zones of the log's clock.

use chrono::{NaiveDate, Offset, TimeZone, Timelike};
use vstd::prelude::*;
use vstd::string::*;

use crate::text::{padded, push_padded};
use crate::time::Timestamp;

verus! {

/// A zone of the time zone database.
#[verifier::external_type_specification]
#[verifier::external_body]
pub struct ExTz(chrono_tz::Tz);

/// The name of a zone, as `Tz::name` gives it.
pub uninterp spec fn tz_name(tz: chrono_tz::Tz) -> Seq<char>;

/// The offset of a zone, in seconds east of UTC, when its clock shows a time;
/// the earlier one where it shows it twice, none where it skips it.
pub uninterp spec fn zone_local_offset(zone: Seq<char>, ts: Timestamp) -> Option<i32>;

/// The offset of a zone, in seconds east of UTC, when it is this time in UTC.
pub uninterp spec fn zone_utc_offset(zone: Seq<char>, ts: Timestamp) -> i32;

/// The name of a zone.
///
/// `Tz::name` depends on the zone alone.
#[verifier::external_body]
pub(crate) fn zone_name(tz: &chrono_tz::Tz) -> (r: String)
    ensures
        r@ == tz_name(*tz),
{
    tz.name().to_owned()
}

/// The offset when the zone's clock shows a time.
///
/// `Tz::offset_from_local_datetime` goes by the database that the crate carries,
/// and no zone is a day away from UTC.
#[verifier::external_body]
fn local_offset(tz: &chrono_tz::Tz, ts: &Timestamp) -> (r: Option<i32>)
    requires
        ts.wf(),
    ensures
        r == zone_local_offset(tz_name(*tz), *ts),
        r matches Some(n) ==> -86400 < n < 86400,
{
    let date = NaiveDate::from_ymd_opt(ts.year, ts.month, ts.day).unwrap();
    let naive = date.and_hms_opt(ts.hour, ts.minute, ts.second).unwrap();
    let naive = naive.with_nanosecond(ts.nano).unwrap();
    let offset = tz.offset_from_local_datetime(&naive).earliest()?;
    Some(offset.fix().local_minus_utc())
}

/// The offset when it is a time in UTC.
///
/// `Tz::offset_from_utc_datetime` goes by the database that the crate carries,
/// and no zone is a day away from UTC.
#[verifier::external_body]
fn utc_offset(tz: &chrono_tz::Tz, ts: &Timestamp) -> (r: i32)
    requires
        ts.wf(),
    ensures
        r == zone_utc_offset(tz_name(*tz), *ts),
        -86400 < r < 86400,
{
    let date = NaiveDate::from_ymd_opt(ts.year, ts.month, ts.day).unwrap();
    let naive = date.and_hms_opt(ts.hour, ts.minute, ts.second).unwrap();
    let naive = naive.with_nanosecond(ts.nano).unwrap();
    tz.offset_from_utc_datetime(&naive).fix().local_minus_utc()
}

/// The offset that a wall-clock time is stored with: a time that a clock shows
/// twice is taken for the first one, and one that it skips goes by the offset at
/// that time in UTC.
pub open spec fn stored_offset(local: Option<i32>, utc: i32) -> i32 {
    match local {
        Some(offset) => offset,
        None => utc,
    }
}

/// The offset of a zone at a wall-clock time.
pub fn offset_at(tz: &chrono_tz::Tz, ts: &Timestamp) -> (r: i32)
    requires
        ts.wf(),
    ensures
        r == stored_offset(
            zone_local_offset(tz_name(*tz), *ts),
            zone_utc_offset(tz_name(*tz), *ts),
        ),
        -86400 < r < 86400,
{
    match local_offset(tz, ts) {
        Some(offset) => offset,
        None => utc_offset(tz, ts),
    }
}

/// An offset as `+08:00`; seconds are written only where there are some.
pub open spec fn offset_text(offset: int) -> Seq<char> {
    let n = if offset < 0 {
        -offset
    } else {
        offset
    };
    let minutes = (if offset < 0 {
        seq!['-']
    } else {
        seq!['+']
    }) + padded((n / 3600) as nat, 2) + seq![':'] + padded((n / 60 % 60) as nat, 2);
    if n % 60 == 0 {
        minutes
    } else {
        minutes + seq![':'] + padded((n % 60) as nat, 2)
    }
}

/// Appends an offset.
pub fn push_offset(out: &mut String, offset: i32)
    requires
        -86400 < offset < 86400,
    ensures
        final(out)@ == old(out)@ + offset_text(offset as int),
{
    let n: u64 = if offset < 0 {
        out.push('-');
        (-offset) as u64
    } else {
        out.push('+');
        offset as u64
    };
    push_padded(out, n / 3600, 2);
    out.push(':');
    push_padded(out, n / 60 % 60, 2);
    if n % 60 != 0 {
        out.push(':');
        push_padded(out, n % 60, 2);
    }
    proof {
        assert(out@ =~= old(out)@ + offset_text(offset as int));
    }
}

} // verus!
