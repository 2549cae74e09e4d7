//! The times that log lines carry.

use vstd::prelude::*;
use vstd::slice::slice_subrange;
use vstd::utf8::*;

use crate::time::{civil, civil_time, clock_says, clock_shows, days_before_month, instant_at};
use crate::time::{shown_time, Instant, Timestamp};

verus! {

/// Where the time of an event comes from.
pub enum When {
    /// The line shows this wall-clock time.
    Wall(Timestamp),
    /// The line names this moment; the machine's clock shows it in its own zone.
    At(Instant),
    /// The line has no time: the present one stands in.
    Now,
}

impl When {
    /// Whether an event may carry the time `ts`.
    pub open spec fn admits(self, ts: Timestamp) -> bool {
        match self {
            When::Wall(wall) => ts == wall,
            When::At(i) => ts.shows(i) && clock_shows(i, ts),
            When::Now => ts.wf() && clock_says(ts),
        }
    }
}

/// Whether a byte is a decimal digit.
pub open spec fn is_digit(b: u8) -> bool {
    '0' as u8 <= b <= '9' as u8
}

/// The number that a row of decimal digits stands for.
pub open spec fn number(b: Seq<u8>) -> Option<nat>
    decreases b.len(),
{
    if b.len() == 0 {
        Some(0)
    } else {
        match number(b.drop_last()) {
            Some(n) => if is_digit(b.last()) {
                Some((n * 10 + (b.last() - '0' as u8)) as nat)
            } else {
                None
            },
            None => None,
        }
    }
}

/// Ten to the `n`.
pub open spec fn pow10(n: nat) -> nat
    decreases n,
{
    if n == 0 {
        1
    } else {
        10 * pow10((n - 1) as nat)
    }
}

/// A number of `n` digits is less than ten to the `n`.
pub proof fn lemma_number_bound(b: Seq<u8>)
    ensures
        number(b) matches Some(n) ==> n < pow10(b.len()),
    decreases b.len(),
{
    if b.len() > 0 {
        lemma_number_bound(b.drop_last());
    }
}

/// A row of bytes is a number if and only if all of them are digits.
pub proof fn lemma_number_digits(b: Seq<u8>)
    ensures
        number(b) is Some <==> forall|i: int| 0 <= i < b.len() ==> is_digit(#[trigger] b[i]),
    decreases b.len(),
{
    if b.len() > 0 {
        let rest = b.drop_last();
        lemma_number_digits(rest);
        if number(b) is Some {
            assert forall|i: int| 0 <= i < b.len() implies is_digit(#[trigger] b[i]) by {
                if i < rest.len() {
                    assert(b[i] == rest[i]);
                }
            }
        }
        if forall|i: int| 0 <= i < b.len() ==> is_digit(#[trigger] b[i]) {
            assert forall|i: int| 0 <= i < rest.len() implies is_digit(#[trigger] rest[i]) by {
                assert(rest[i] == b[i]);
            }
            assert(is_digit(b[b.len() - 1]));
        }
    }
}

proof fn lemma_pow10_small()
    ensures
        pow10(0) == 1,
        pow10(1) == 10,
        pow10(2) == 100,
        pow10(3) == 1000,
        pow10(4) == 10_000,
        pow10(5) == 100_000,
        pow10(6) == 1_000_000,
        pow10(7) == 10_000_000,
        pow10(8) == 100_000_000,
        pow10(9) == 1_000_000_000,
{
    reveal_with_fuel(pow10, 10);
}

proof fn lemma_pow10_monotone(a: nat, b: nat)
    requires
        a <= b,
    ensures
        pow10(a) <= pow10(b),
    decreases b,
{
    if a < b {
        lemma_pow10_monotone(a, (b - 1) as nat);
    }
}

/// Reads a row of decimal digits; one byte that is none makes it void.
pub fn digits(bytes: &[u8]) -> (r: Option<u32>)
    requires
        bytes@.len() <= 9,
    ensures
        r is Some <==> number(bytes@) is Some,
        r matches Some(n) ==> number(bytes@) == Some(n as nat) && n < pow10(bytes@.len()),
{
    let mut value: u32 = 0;
    for i in 0..bytes.len()
        invariant
            bytes@.len() <= 9,
            number(bytes@.take(i as int)) == Some(value as nat),
    {
        proof {
            assert(bytes@.take(i + 1).drop_last() =~= bytes@.take(i as int));
            lemma_number_bound(bytes@.take(i as int));
            lemma_pow10_monotone(i as nat, 8);
            lemma_pow10_small();
        }
        let byte: u8 = bytes[i];
        if byte < '0' as u8 || byte > '9' as u8 {
            proof {
                lemma_number_digits(bytes@);
                assert(!is_digit(bytes@[i as int]));
            }
            return None;
        }
        value = value * 10 + (byte - '0' as u8) as u32;
    }
    proof {
        assert(bytes@.take(bytes@.len() as int) =~= bytes@);
        lemma_number_bound(bytes@);
    }
    Some(value)
}

/// The digits from `i` to `j`.
pub open spec fn field(b: Seq<u8>, i: int, j: int) -> Option<nat> {
    number(b.subrange(i, j))
}

fn read_field(b: &[u8], i: usize, j: usize) -> (r: Option<u32>)
    requires
        i <= j <= b@.len(),
        j - i == 2 || j - i == 4,
    ensures
        r is Some <==> field(b@, i as int, j as int) is Some,
        r matches Some(n) ==> {
            &&& field(b@, i as int, j as int) == Some(n as nat)
            &&& n < 10_000
            &&& j - i == 2 ==> n < 100
        },
{
    proof {
        lemma_pow10_small();
    }
    digits(slice_subrange(b, i, j))
}

/// A fraction of a second in nanoseconds: nothing, or `.` or `,` and one to nine
/// digits.
pub open spec fn fraction(b: Seq<u8>) -> Option<nat> {
    if b.len() == 0 {
        Some(0)
    } else if (b[0] == '.' as u8 || b[0] == ',' as u8) && 2 <= b.len() <= 10 {
        match number(b.skip(1)) {
            Some(n) => Some(n * pow10((10 - b.len()) as nat)),
            None => None,
        }
    } else {
        None
    }
}

fn read_fraction(b: &[u8]) -> (r: Option<u32>)
    ensures
        r is Some <==> fraction(b@) is Some,
        r matches Some(n) ==> fraction(b@) == Some(n as nat) && n < 1_000_000_000,
{
    if b.len() == 0 {
        return Some(0);
    }
    if (b[0] != '.' as u8 && b[0] != ',' as u8) || b.len() < 2 || b.len() > 10 {
        return None;
    }
    let mut value: u32 = match digits(slice_subrange(b, 1, b.len())) {
        Some(n) => n,
        None => {
            proof {
                assert(b@.subrange(1, b@.len() as int) =~= b@.skip(1));
            }
            return None;
        },
    };
    proof {
        assert(b@.subrange(1, b@.len() as int) =~= b@.skip(1));
        lemma_pow10_small();
    }
    let ghost n = value as nat;
    let mut width: usize = b.len() - 1;
    proof {
        assert(n * pow10(0) == n) by (nonlinear_arith)
            requires
                pow10(0) == 1,
        ;
    }
    while width < 9
        invariant
            1 <= b@.len() - 1 <= width <= 9,
            value < pow10(width as nat),
            value as nat == n * pow10((width - (b@.len() - 1)) as nat),
        decreases 9 - width,
    {
        proof {
            lemma_pow10_small();
            lemma_pow10_monotone(width as nat, 8);
            let k = (width - (b@.len() - 1)) as nat;
            assert(pow10(k + 1) == 10 * pow10(k));
            assert(n * (10 * pow10(k)) == (n * pow10(k)) * 10) by (nonlinear_arith);
            assert(pow10((width + 1) as nat) == 10 * pow10(width as nat));
        }
        value = value * 10;
        width = width + 1;
    }
    proof {
        lemma_pow10_small();
    }
    Some(value)
}

/// The time of a text `YYYY-MM-DD HH:MM:SS` with a blank or a `T` in the middle,
/// and a fraction that may follow.
pub open spec fn stamp(b: Seq<u8>) -> Option<Timestamp> {
    if b.len() < 19 || b[4] != '-' as u8 || b[7] != '-' as u8 || b[13] != ':' as u8 || b[16]
        != ':' as u8 || (b[10] != ' ' as u8 && b[10] != 'T' as u8) {
        None
    } else {
        match (
            field(b, 0, 4),
            field(b, 5, 7),
            field(b, 8, 10),
            field(b, 11, 13),
            field(b, 14, 16),
            field(b, 17, 19),
            fraction(b.skip(19)),
        ) {
            (Some(y), Some(mo), Some(d), Some(h), Some(mi), Some(s), Some(n)) => civil_time(
                y as i32,
                mo as u32,
                d as u32,
                h as u32,
                mi as u32,
                s as u32,
                n as u32,
            ),
            _ => None,
        }
    }
}

/// Reads the time of a log line. There is no zone in it, and none is applied.
pub fn parse_timestamp(raw: &str) -> (r: Option<Timestamp>)
    ensures
        r == stamp(encode_utf8(raw@)),
        r matches Some(ts) ==> ts.wf(),
{
    let b = raw.as_bytes();
    if b.len() < 19 || b[4] != '-' as u8 || b[7] != '-' as u8 || b[13] != ':' as u8 || b[16]
        != ':' as u8 || (b[10] != ' ' as u8 && b[10] != 'T' as u8) {
        return None;
    }
    let year: u32 = read_field(b, 0, 4)?;
    let month: u32 = read_field(b, 5, 7)?;
    let day: u32 = read_field(b, 8, 10)?;
    let hour: u32 = read_field(b, 11, 13)?;
    let minute: u32 = read_field(b, 14, 16)?;
    let second: u32 = read_field(b, 17, 19)?;
    proof {
        assert(b@.subrange(19, b@.len() as int) =~= b@.skip(19));
    }
    let nano: u32 = read_fraction(slice_subrange(b, 19, b.len()))?;
    civil(year as i32, month, day, hour, minute, second, nano)
}

/// The time of a text `YYYY/MM/DD - HH:MM:SS`.
pub open spec fn gin_stamp(b: Seq<u8>) -> Option<Timestamp> {
    if b.len() != 21 || b[4] != '/' as u8 || b[7] != '/' as u8 || b[10] != ' ' as u8 || b[11]
        != '-' as u8 || b[12] != ' ' as u8 || b[15] != ':' as u8 || b[18] != ':' as u8 {
        None
    } else {
        match (
            field(b, 0, 4),
            field(b, 5, 7),
            field(b, 8, 10),
            field(b, 13, 15),
            field(b, 16, 18),
            field(b, 19, 21),
        ) {
            (Some(y), Some(mo), Some(d), Some(h), Some(mi), Some(s)) => civil_time(
                y as i32,
                mo as u32,
                d as u32,
                h as u32,
                mi as u32,
                s as u32,
                0,
            ),
            _ => None,
        }
    }
}

/// Reads gin's time. It is the service's local time and is taken as it is.
pub fn parse_gin_timestamp(raw: &str) -> (r: Option<Timestamp>)
    ensures
        r == gin_stamp(encode_utf8(raw@)),
        r matches Some(ts) ==> ts.wf(),
{
    let b = raw.as_bytes();
    if b.len() != 21 || b[4] != '/' as u8 || b[7] != '/' as u8 || b[10] != ' ' as u8 || b[11]
        != '-' as u8 || b[12] != ' ' as u8 || b[15] != ':' as u8 || b[18] != ':' as u8 {
        return None;
    }
    let year: u32 = read_field(b, 0, 4)?;
    let month: u32 = read_field(b, 5, 7)?;
    let day: u32 = read_field(b, 8, 10)?;
    let hour: u32 = read_field(b, 13, 15)?;
    let minute: u32 = read_field(b, 16, 18)?;
    let second: u32 = read_field(b, 19, 21)?;
    civil(year as i32, month, day, hour, minute, second, 0)
}

/// Whether three bytes are these three characters.
pub open spec fn spells(b: Seq<u8>, x: char, y: char, z: char) -> bool {
    b.len() == 3 && b[0] == x as u8 && b[1] == y as u8 && b[2] == z as u8
}

/// The month of an English abbreviation.
pub open spec fn month_abbrev(b: Seq<u8>) -> Option<u32> {
    if spells(b, 'J', 'a', 'n') {
        Some(1)
    } else if spells(b, 'F', 'e', 'b') {
        Some(2)
    } else if spells(b, 'M', 'a', 'r') {
        Some(3)
    } else if spells(b, 'A', 'p', 'r') {
        Some(4)
    } else if spells(b, 'M', 'a', 'y') {
        Some(5)
    } else if spells(b, 'J', 'u', 'n') {
        Some(6)
    } else if spells(b, 'J', 'u', 'l') {
        Some(7)
    } else if spells(b, 'A', 'u', 'g') {
        Some(8)
    } else if spells(b, 'S', 'e', 'p') {
        Some(9)
    } else if spells(b, 'O', 'c', 't') {
        Some(10)
    } else if spells(b, 'N', 'o', 'v') {
        Some(11)
    } else if spells(b, 'D', 'e', 'c') {
        Some(12)
    } else {
        None
    }
}

fn is_spelled(b: &[u8], x: char, y: char, z: char) -> (r: bool)
    requires
        x as u32 <= 127,
        y as u32 <= 127,
        z as u32 <= 127,
    ensures
        r == spells(b@, x, y, z),
{
    b.len() == 3 && b[0] == x as u8 && b[1] == y as u8 && b[2] == z as u8
}

/// Reads the abbreviation of a month.
pub fn month_of_abbrev(raw: &[u8]) -> (r: Option<u32>)
    ensures
        r == month_abbrev(raw@),
{
    if is_spelled(raw, 'J', 'a', 'n') {
        Some(1)
    } else if is_spelled(raw, 'F', 'e', 'b') {
        Some(2)
    } else if is_spelled(raw, 'M', 'a', 'r') {
        Some(3)
    } else if is_spelled(raw, 'A', 'p', 'r') {
        Some(4)
    } else if is_spelled(raw, 'M', 'a', 'y') {
        Some(5)
    } else if is_spelled(raw, 'J', 'u', 'n') {
        Some(6)
    } else if is_spelled(raw, 'J', 'u', 'l') {
        Some(7)
    } else if is_spelled(raw, 'A', 'u', 'g') {
        Some(8)
    } else if is_spelled(raw, 'S', 'e', 'p') {
        Some(9)
    } else if is_spelled(raw, 'O', 'c', 't') {
        Some(10)
    } else if is_spelled(raw, 'N', 'o', 'v') {
        Some(11)
    } else if is_spelled(raw, 'D', 'e', 'c') {
        Some(12)
    } else {
        None
    }
}

/// An offset from UTC ` +HHMM` in seconds east.
pub open spec fn clf_offset(b: Seq<u8>) -> Option<int> {
    if b.len() != 6 || b[0] != ' ' as u8 || (b[1] != '+' as u8 && b[1] != '-' as u8) {
        None
    } else {
        match (field(b, 2, 4), field(b, 4, 6)) {
            (Some(h), Some(m)) => {
                let seconds = h * 3600 + m * 60;
                Some(if b[1] == '+' as u8 { seconds as int } else { -seconds })
            },
            _ => None,
        }
    }
}

/// The wall-clock part `DD/Mon/YYYY:HH:MM:SS` of a CLF time.
pub open spec fn clf_wall(b: Seq<u8>) -> Option<Timestamp> {
    if b.len() < 20 || b[2] != '/' as u8 || b[6] != '/' as u8 || b[11] != ':' as u8 || b[14]
        != ':' as u8 || b[17] != ':' as u8 {
        None
    } else {
        match (
            field(b, 0, 2),
            month_abbrev(b.subrange(3, 6)),
            field(b, 7, 11),
            field(b, 12, 14),
            field(b, 15, 17),
            field(b, 18, 20),
        ) {
            (Some(d), Some(mo), Some(y), Some(h), Some(mi), Some(s)) => civil_time(
                y as i32,
                mo,
                d as u32,
                h as u32,
                mi as u32,
                s as u32,
                0,
            ),
            _ => None,
        }
    }
}

/// What a CLF time names: a wall-clock time where it ends there, a moment where
/// an offset of less than a day follows.
pub open spec fn clf_stamp(b: Seq<u8>) -> Option<When> {
    match clf_wall(b) {
        None => None,
        Some(wall) => if b.len() == 20 {
            Some(When::Wall(wall))
        } else {
            match clf_offset(b.skip(20)) {
                Some(offset) => if -86400 < offset < 86400 {
                    Some(
                        When::At(
                            Instant { seconds: (wall.epoch_seconds() - offset) as i64, nano: 0 },
                        ),
                    )
                } else {
                    None
                },
                None => None,
            }
        },
    }
}

proof fn lemma_epoch_range(ts: Timestamp)
    requires
        ts.wf(),
        0 <= ts.year <= 9999,
    ensures
        -99_000_000_000 < ts.epoch_seconds() < 299_000_000_000,
{
    reveal_with_fuel(days_before_month, 13);
}

fn read_offset(b: &[u8]) -> (r: Option<i32>)
    ensures
        r is Some <==> clf_offset(b@) is Some,
        r matches Some(n) ==> clf_offset(b@) == Some(n as int),
{
    if b.len() != 6 || b[0] != ' ' as u8 {
        return None;
    }
    let sign: u8 = b[1];
    if sign != '+' as u8 && sign != '-' as u8 {
        return None;
    }
    let hours: u32 = read_field(b, 2, 4)?;
    let minutes: u32 = read_field(b, 4, 6)?;
    let seconds: i32 = (hours * 3600 + minutes * 60) as i32;
    if sign == '+' as u8 {
        Some(seconds)
    } else {
        Some(-seconds)
    }
}

/// Reads CLF's `07/Sep/2026:18:06:53 +0800`.
///
/// With an offset the moment is shown as this machine's wall-clock time; without
/// one the time is taken as it is.
pub fn parse_clf_timestamp(raw: &str) -> (r: Option<Timestamp>)
    ensures
        r is Some <==> clf_stamp(encode_utf8(raw@)) is Some,
        r matches Some(ts) ==> clf_stamp(encode_utf8(raw@))->0.admits(ts) && ts.wf(),
{
    let b = raw.as_bytes();
    if b.len() < 20 || b[2] != '/' as u8 || b[6] != '/' as u8 || b[11] != ':' as u8 || b[14]
        != ':' as u8 || b[17] != ':' as u8 {
        return None;
    }
    let day: u32 = read_field(b, 0, 2)?;
    let month: u32 = month_of_abbrev(slice_subrange(b, 3, 6))?;
    let year: u32 = read_field(b, 7, 11)?;
    let hour: u32 = read_field(b, 12, 14)?;
    let minute: u32 = read_field(b, 15, 17)?;
    let second: u32 = read_field(b, 18, 20)?;
    let wall = civil(year as i32, month, day, hour, minute, second, 0)?;
    if b.len() == 20 {
        return Some(wall);
    }
    proof {
        assert(b@.subrange(20, b@.len() as int) =~= b@.skip(20));
        lemma_epoch_range(wall);
    }
    let offset: i32 = read_offset(slice_subrange(b, 20, b.len()))?;
    let instant = instant_at(wall, offset)?;
    Some(shown_time(instant))
}

} // verus!
