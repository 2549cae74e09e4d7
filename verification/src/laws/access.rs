//! What the lines of access logs and their times are read as.

use vstd::prelude::*;
use vstd::utf8::*;

use crate::event::{Body, LogEvent};
use crate::laws::reading::{lemma_field, lemma_padded};
use crate::parser::access::{access_event, after_pair, gin_reads, level_of_status, nginx_reads};
use crate::parser::access::small_number;
use crate::parser::stamp::{clf_offset, clf_stamp, clf_wall, gin_stamp, month_abbrev};
use crate::parser::stamp::{month_of_abbrev, parse_clf_timestamp, parse_gin_timestamp};
use crate::parser::stamp::{pow10, When};
use crate::text::{is_space, lemma_last_scan_unique, lemma_scan_unique, padded};
use crate::text::{trimmed, trimmed_start, Stop};
use crate::time::{date_exists, days_before_month, days_before_year, Timestamp};
use crate::value::ValueView;

verus! {

/// The first three letters of the months, one behind the other.
pub open spec fn month_letters() -> Seq<char> {
    seq![
        'J', 'a', 'n', 'F', 'e', 'b', 'M', 'a', 'r', 'A', 'p', 'r', 'M', 'a', 'y', 'J', 'u', 'n',
        'J', 'u', 'l', 'A', 'u', 'g', 'S', 'e', 'p', 'O', 'c', 't', 'N', 'o', 'v', 'D', 'e', 'c',
    ]
}

/// The first three letters of a month.
pub open spec fn month_name(month: int) -> Seq<char> {
    month_letters().subrange(3 * month - 3, 3 * month)
}

proof fn lemma_month_bytes(month: int)
    requires
        1 <= month <= 12,
    ensures
        ({
            let b = encode_utf8(month_name(month));
            &&& is_ascii_chars(month_name(month))
            &&& b.len() == 3
            &&& b[0] == month_letters()[3 * month - 3] as u8
            &&& b[1] == month_letters()[3 * month - 2] as u8
            &&& b[2] == month_letters()[3 * month - 1] as u8
        }),
{
    let s = month_name(month);
    let l = month_letters();
    assert(forall|i: int| 0 <= i < 36 ==> (#[trigger] l[i] as u32) < 128);
    assert forall|i: int| 0 <= i < s.len() implies (#[trigger] s[i] as u32) < 128 by {
        assert(s[i] == l[3 * month - 3 + i]);
    }
    assert(is_ascii_chars(s));
    is_ascii_chars_encode_utf8(s);
    assert(s[0] == l[3 * month - 3] && s[1] == l[3 * month - 2] && s[2] == l[3 * month - 1]);
}

/// The English abbreviation of each month is read as that month, and nothing else is.
pub proof fn law_months_are_read_by_their_names(month: int, raw: &[u8], r: Option<u32>)
    requires
        1 <= month <= 12,
        call_ensures(month_of_abbrev, (raw,), r),
    ensures
        month_abbrev(encode_utf8(month_name(month))) == Some(month as u32),
        raw@ == encode_utf8(month_name(month)) ==> r == Some(month as u32),
        r == Some(month as u32) ==> raw@ == encode_utf8(month_name(month)),
        r matches Some(m) ==> 1 <= m <= 12,
{
    lemma_month_bytes(month);
    if r == Some(month as u32) {
        assert(raw@ =~= encode_utf8(month_name(month)));
    }
}

/// A time of an access log, without an offset.
pub open spec fn clf_text(ts: Timestamp) -> Seq<char> {
    padded(ts.day as nat, 2) + seq!['/'] + month_name(ts.month as int) + seq!['/'] + padded(
        ts.year as nat,
        4,
    ) + seq![':'] + padded(ts.hour as nat, 2) + seq![':'] + padded(ts.minute as nat, 2) + seq![':']
        + padded(ts.second as nat, 2)
}

/// An offset from UTC in hours and minutes.
pub open spec fn offset_words(east: bool, hours: nat, minutes: nat) -> Seq<char> {
    seq![
        ' ',
        if east {
            '+'
        } else {
            '-'
        },
    ] + padded(hours, 2) + padded(minutes, 2)
}

/// Whether a time can stand in an access log.
pub open spec fn is_logged(ts: Timestamp) -> bool {
    ts.wf() && 0 <= ts.year <= 9999 && ts.nano == 0
}

proof fn lemma_clf_text(ts: Timestamp, more: Seq<char>)
    requires
        is_logged(ts),
        is_ascii_chars(more),
    ensures
        clf_text(ts).len() == 20,
        is_ascii_chars(clf_text(ts) + more),
        clf_wall(encode_utf8(clf_text(ts) + more)) == Some(ts),
        encode_utf8(clf_text(ts) + more).skip(20) == encode_utf8(more),
        forall|i: int| 0 <= i < 20 ==> #[trigger] clf_text(ts)[i] != ']',
{
    let t = clf_text(ts);
    let s = t + more;
    reveal_with_fuel(pow10, 5);
    lemma_padded(ts.day as nat, 2);
    lemma_padded(ts.year as nat, 4);
    lemma_padded(ts.hour as nat, 2);
    lemma_padded(ts.minute as nat, 2);
    lemma_padded(ts.second as nat, 2);
    lemma_month_bytes(ts.month as int);
    assert(t.len() == 20);
    assert(s.subrange(0, 2) =~= padded(ts.day as nat, 2));
    assert(s.subrange(3, 6) =~= month_name(ts.month as int));
    assert(s.subrange(7, 11) =~= padded(ts.year as nat, 4));
    assert(s.subrange(12, 14) =~= padded(ts.hour as nat, 2));
    assert(s.subrange(15, 17) =~= padded(ts.minute as nat, 2));
    assert(s.subrange(18, 20) =~= padded(ts.second as nat, 2));
    assert forall|i: int| 0 <= i < t.len() implies (#[trigger] t[i] as u32) < 128 && t[i] != ']' by {
        if i < 2 {
            assert(t[i] == padded(ts.day as nat, 2)[i]);
        } else if 3 <= i < 6 {
            let j = 3 * ts.month - 3 + i - 3;
            assert(t[i] == month_name(ts.month as int)[i - 3]);
            assert(t[i] == month_letters()[j]);
        } else if 7 <= i < 11 {
            assert(t[i] == padded(ts.year as nat, 4)[i - 7]);
        } else if 12 <= i < 14 {
            assert(t[i] == padded(ts.hour as nat, 2)[i - 12]);
        } else if 15 <= i < 17 {
            assert(t[i] == padded(ts.minute as nat, 2)[i - 15]);
        } else if 18 <= i {
            assert(t[i] == padded(ts.second as nat, 2)[i - 18]);
        }
    }
    assert forall|i: int| 0 <= i < s.len() implies (#[trigger] s[i] as u32) < 128 by {
        if i < 20 {
            assert(s[i] == t[i]);
        } else {
            assert(s[i] == more[i - 20]);
        }
    }
    assert(is_ascii_chars(s));
    is_ascii_chars_encode_utf8(s);
    is_ascii_chars_encode_utf8(more);
    lemma_field(s, 0, ts.day as nat, 2);
    lemma_field(s, 7, ts.year as nat, 4);
    lemma_field(s, 12, ts.hour as nat, 2);
    lemma_field(s, 15, ts.minute as nat, 2);
    lemma_field(s, 18, ts.second as nat, 2);
    let b = encode_utf8(s);
    assert(s[2] == '/' && s[6] == '/' && s[11] == ':' && s[14] == ':' && s[17] == ':');
    is_ascii_chars_encode_utf8(month_name(ts.month as int));
    assert(b.subrange(3, 6) =~= encode_utf8(month_name(ts.month as int))) by {
        assert forall|i: int| 0 <= i < 3 implies b.subrange(3, 6)[i] == encode_utf8(
            month_name(ts.month as int),
        )[i] by {
            assert(s[3 + i] == month_name(ts.month as int)[i]);
        }
    }
    assert(month_abbrev(b.subrange(3, 6)) == Some(ts.month));
    assert(b.skip(20) =~= encode_utf8(more)) by {
        assert forall|i: int| 0 <= i < more.len() implies b.skip(20)[i] == encode_utf8(more)[i] by {
            assert(s[20 + i] == more[i]);
        }
    }
}

proof fn lemma_offset_words(east: bool, hours: nat, minutes: nat)
    requires
        hours < 100,
        minutes < 100,
    ensures
        is_ascii_chars(offset_words(east, hours, minutes)),
        clf_offset(encode_utf8(offset_words(east, hours, minutes))) == Some(
            if east {
                (hours * 3600 + minutes * 60) as int
            } else {
                -(hours * 3600 + minutes * 60)
            },
        ),
        forall|i: int|
            0 <= i < offset_words(east, hours, minutes).len() ==> #[trigger] offset_words(
                east,
                hours,
                minutes,
            )[i] != ']',
{
    let s = offset_words(east, hours, minutes);
    reveal_with_fuel(pow10, 5);
    lemma_padded(hours, 2);
    lemma_padded(minutes, 2);
    assert(s.len() == 6);
    assert(s.subrange(2, 4) =~= padded(hours, 2));
    assert(s.subrange(4, 6) =~= padded(minutes, 2));
    assert forall|i: int| 0 <= i < s.len() implies (#[trigger] s[i] as u32) < 128 && s[i] != ']' by {
        if 2 <= i < 4 {
            assert(s[i] == padded(hours, 2)[i - 2]);
        } else if 4 <= i {
            assert(s[i] == padded(minutes, 2)[i - 4]);
        }
    }
    assert(is_ascii_chars(s));
    is_ascii_chars_encode_utf8(s);
    lemma_field(s, 2, hours, 2);
    lemma_field(s, 4, minutes, 2);
    let b = encode_utf8(s);
    assert(b[0] == s[0] as u8 && b[1] == s[1] as u8);
}

/// The time of an access log is the one that is written: each time that is put together
/// of its parts is read back as that time, and with an offset behind it as the moment
/// that lies that far from it.
pub proof fn law_access_times_are_read_back(ts: Timestamp, east: bool, hours: nat, minutes: nat)
    requires
        is_logged(ts),
        hours < 24,
        minutes < 60,
    ensures
        clf_stamp(encode_utf8(clf_text(ts))) == Some(When::Wall(ts)),
        match clf_stamp(encode_utf8(clf_text(ts) + offset_words(east, hours, minutes))) {
            Some(When::At(i)) => i.nano == 0 && i.seconds == ts.epoch_seconds() - (if east {
                (hours * 3600 + minutes * 60) as int
            } else {
                -(hours * 3600 + minutes * 60)
            }),
            _ => false,
        },
{
    let none = Seq::<char>::empty();
    assert(clf_text(ts) + none =~= clf_text(ts));
    assert(is_ascii_chars(none));
    lemma_clf_text(ts, none);
    is_ascii_chars_encode_utf8(clf_text(ts));
    lemma_offset_words(east, hours, minutes);
    lemma_clf_text(ts, offset_words(east, hours, minutes));
    is_ascii_chars_encode_utf8(clf_text(ts) + offset_words(east, hours, minutes));
    lemma_epoch(ts);
}

proof fn lemma_epoch(ts: Timestamp)
    requires
        is_logged(ts),
    ensures
        -99_000_000_000 < ts.epoch_seconds() < 299_000_000_000,
{
    reveal_with_fuel(days_before_month, 13);
}

/// What is read of a time in an access log is what the line says: without an offset just
/// that time.
pub proof fn law_access_times_are_taken_as_they_are(ts: Timestamp, raw: &str, r: Option<Timestamp>)
    requires
        is_logged(ts),
        raw@ == clf_text(ts),
        call_ensures(parse_clf_timestamp, (raw,), r),
    ensures
        r == Some(ts),
{
    law_access_times_are_read_back(ts, true, 0, 0);
}

/// The last day of a month.
pub open spec fn last_day(year: int, month: int) -> int {
    if month == 4 || month == 6 || month == 9 || month == 11 {
        30
    } else if month != 2 {
        31
    } else if year % 400 == 0 || (year % 4 == 0 && year % 100 != 0) {
        29
    } else {
        28
    }
}

/// A date exists if and only if its month has such a day.
pub proof fn law_months_have_their_days(year: int, month: int, day: int)
    requires
        0 <= year <= 9999,
    ensures
        date_exists(year, month, day) <==> 1 <= month <= 12 && 1 <= day <= last_day(year, month),
{
}

/// Times are counted in seconds from the start of 1970: a second more is one more, and
/// from the end of a day, a month or a year on the next one goes on.
pub proof fn law_seconds_are_counted(ts: Timestamp)
    requires
        is_logged(ts),
    ensures
        (Timestamp { year: 1970, month: 1, day: 1, hour: 0, minute: 0, second: 0, nano: 0 }).epoch_seconds()
            == 0,
        ts.epoch_seconds() == (Timestamp { hour: 0, minute: 0, second: 0, ..ts }).epoch_seconds()
            + ts.hour * 3600 + ts.minute * 60 + ts.second,
        ts.day < last_day(ts.year as int, ts.month as int) ==> (Timestamp {
            day: (ts.day + 1) as u32,
            ..ts
        }).epoch_seconds() == ts.epoch_seconds() + 86400,
        ts.day == last_day(ts.year as int, ts.month as int) && ts.month < 12 ==> (Timestamp {
            month: (ts.month + 1) as u32,
            day: 1,
            ..ts
        }).epoch_seconds() == ts.epoch_seconds() + 86400,
        ts.day == 31 && ts.month == 12 ==> (Timestamp {
            year: (ts.year + 1) as i32,
            month: 1,
            day: 1,
            ..ts
        }).epoch_seconds() == ts.epoch_seconds() + 86400,
{
    reveal_with_fuel(days_before_month, 13);
    let y = ts.year as int;
    assert(days_before_year(y + 1) == days_before_year(y) + if y % 400 == 0 || (y % 4 == 0 && y
        % 100 != 0) {
        366int
    } else {
        365
    });
}

/// Whether a level is that of a status: server errors, client errors, and all the rest.
pub open spec fn is_level_of(level: Seq<char>, status: int) -> bool {
    &&& 500 <= status < 600 ==> level == "ERROR"@
    &&& 400 <= status < 500 ==> level == "WARN"@
    &&& status < 400 || status >= 600 ==> level == "INFO"@
}

/// The level of a request is that of its status.
pub proof fn law_statuses_have_levels(status: u16, r: &'static str)
    requires
        call_ensures(level_of_status, (status,), r),
    ensures
        is_level_of(r@, status as int),
{
}

/// What an event of an access log is: the whole line as its message, the level of the
/// status, who wrote it, and nothing else.
pub open spec fn is_request_event(
    body: Body,
    logger: Seq<char>,
    status: int,
    line: Seq<char>,
) -> bool {
    &&& body.message == line
    &&& body.logger == logger
    &&& is_level_of(body.level, status)
    &&& body.trace_id.len() == 0 && body.span_id.len() == 0 && body.thread.len() == 0
    &&& body.fields == Map::<Seq<char>, ValueView>::empty()
}

/// The event of a request has the time that it is given.
pub proof fn law_requests_become_events(
    ts: Timestamp,
    logger: &str,
    status: u16,
    line: &str,
    r: LogEvent,
)
    requires
        call_ensures(access_event, (ts, logger, status, line), r),
    ensures
        r.timestamp == ts,
        is_request_event(r.body(), logger@, status as int, line@),
{
}

proof fn lemma_status(status: nat)
    requires
        100 <= status <= 999,
    ensures
        padded(status, 3).len() == 3,
        small_number(padded(status, 3)) == Some(status),
        forall|i: int| 0 <= i < 3 ==> '0' <= #[trigger] padded(status, 3)[i] <= '9',
{
    let s = padded(status, 3);
    reveal_with_fuel(pow10, 5);
    lemma_padded(status, 3);
    assert forall|i: int| 0 <= i < s.len() implies (#[trigger] s[i] as u32) < 128 by {
        assert('0' <= s[i] <= '9');
    }
    assert(is_ascii_chars(s));
    assert(s.subrange(0, 3) =~= s);
    lemma_field(s, 0, status, 3);
    is_ascii_chars_encode_utf8(s);
    assert(encode_utf8(s).subrange(0, 3) =~= encode_utf8(s));
    assert('0' <= s[0] <= '9');
}

proof fn lemma_between_blanks(s: Seq<char>)
    requires
        s.len() > 0,
        !is_space(s[0]),
        !is_space(s.last()),
    ensures
        trimmed(seq![' '] + s + seq![' ']) == s,
{
    let all = seq![' '] + s + seq![' '];
    lemma_scan_unique(all, Stop::NonSpace, 1);
    let a = all.skip(1);
    assert(a =~= s + seq![' ']);
    assert(a[s.len() - 1] == s.last());
    lemma_last_scan_unique(a, Stop::NonSpace, s.len() - 1);
    assert(a.take(s.len() as int) =~= s);
}

/// A time as gin writes it.
pub open spec fn gin_text(ts: Timestamp) -> Seq<char> {
    padded(ts.year as nat, 4) + seq!['/'] + padded(ts.month as nat, 2) + seq!['/'] + padded(
        ts.day as nat,
        2,
    ) + seq![' ', '-', ' '] + padded(ts.hour as nat, 2) + seq![':'] + padded(ts.minute as nat, 2)
        + seq![':'] + padded(ts.second as nat, 2)
}

proof fn lemma_gin_text(ts: Timestamp)
    requires
        is_logged(ts),
    ensures
        gin_text(ts).len() == 21,
        gin_stamp(encode_utf8(gin_text(ts))) == Some(ts),
        !is_space(gin_text(ts)[0]),
        !is_space(gin_text(ts).last()),
        forall|i: int| 0 <= i < 21 ==> #[trigger] gin_text(ts)[i] != '|',
{
    let s = gin_text(ts);
    reveal_with_fuel(pow10, 5);
    lemma_padded(ts.day as nat, 2);
    lemma_padded(ts.month as nat, 2);
    lemma_padded(ts.year as nat, 4);
    lemma_padded(ts.hour as nat, 2);
    lemma_padded(ts.minute as nat, 2);
    lemma_padded(ts.second as nat, 2);
    assert(s.len() == 21);
    assert(s.subrange(0, 4) =~= padded(ts.year as nat, 4));
    assert(s.subrange(5, 7) =~= padded(ts.month as nat, 2));
    assert(s.subrange(8, 10) =~= padded(ts.day as nat, 2));
    assert(s.subrange(13, 15) =~= padded(ts.hour as nat, 2));
    assert(s.subrange(16, 18) =~= padded(ts.minute as nat, 2));
    assert(s.subrange(19, 21) =~= padded(ts.second as nat, 2));
    assert forall|i: int| 0 <= i < s.len() implies (#[trigger] s[i] as u32) < 128 && s[i] != '|' by {
        if i < 4 {
            assert(s[i] == padded(ts.year as nat, 4)[i]);
        } else if 5 <= i < 7 {
            assert(s[i] == padded(ts.month as nat, 2)[i - 5]);
        } else if 8 <= i < 10 {
            assert(s[i] == padded(ts.day as nat, 2)[i - 8]);
        } else if 13 <= i < 15 {
            assert(s[i] == padded(ts.hour as nat, 2)[i - 13]);
        } else if 16 <= i < 18 {
            assert(s[i] == padded(ts.minute as nat, 2)[i - 16]);
        } else if 19 <= i {
            assert(s[i] == padded(ts.second as nat, 2)[i - 19]);
        }
    }
    assert(is_ascii_chars(s));
    is_ascii_chars_encode_utf8(s);
    lemma_field(s, 0, ts.year as nat, 4);
    lemma_field(s, 5, ts.month as nat, 2);
    lemma_field(s, 8, ts.day as nat, 2);
    lemma_field(s, 13, ts.hour as nat, 2);
    lemma_field(s, 16, ts.minute as nat, 2);
    lemma_field(s, 19, ts.second as nat, 2);
    assert(s[4] == '/' && s[7] == '/' && s[10] == ' ' && s[11] == '-' && s[12] == ' ' && s[15]
        == ':' && s[18] == ':');
    assert(s[0] == padded(ts.year as nat, 4)[0]);
    assert(s[20] == padded(ts.second as nat, 2)[1]);
}

/// A line of gin's access log.
pub open spec fn gin_line(ts: Timestamp, status: nat, more: Seq<char>) -> Seq<char> {
    seq!['[', 'G', 'I', 'N', ']', ' '] + gin_text(ts) + seq![' ', '|', ' '] + padded(status, 3)
        + seq![' ', '|'] + more
}

/// Each line of gin's access log is read: its time is the one in front, its level that of
/// the status, whatever follows.
pub proof fn law_gin_lines_are_read(ts: Timestamp, status: nat, more: Seq<char>)
    requires
        is_logged(ts),
        100 <= status <= 999,
    ensures
        match gin_reads(gin_line(ts, status, more)) {
            Some((When::Wall(at), body)) => at == ts && is_request_event(
                body,
                "gin"@,
                status as int,
                gin_line(ts, status, more),
            ),
            _ => false,
        },
{
    let line = gin_line(ts, status, more);
    let time = seq![' '] + gin_text(ts) + seq![' '];
    let code = seq![' '] + padded(status, 3) + seq![' '];
    let tail = code + seq!['|'] + more;
    lemma_gin_text(ts);
    lemma_status(status);
    reveal_strlit("[GIN]");
    assert("[GIN]"@ =~= seq!['[', 'G', 'I', 'N', ']']);
    let rest = time + seq!['|'] + tail;
    assert(line.skip(5) =~= rest);
    assert(line.take(5) =~= "[GIN]"@);
    assert("[GIN]"@.is_prefix_of(line));
    assert forall|i: int| 0 <= i < time.len() implies !Stop::Char('|').hit(#[trigger] rest[i]) by {
        assert(rest[i] == time[i]);
        if 0 < i < time.len() - 1 {
            assert(time[i] == gin_text(ts)[i - 1]);
        }
    }
    assert(rest[time.len() as int] == '|');
    lemma_scan_unique(rest, Stop::Char('|'), time.len() as int);
    assert(rest.take(time.len() as int) =~= time);
    assert(rest.skip(time.len() as int + 1) =~= tail);
    lemma_between_blanks(gin_text(ts));
    assert forall|i: int| 0 <= i < code.len() implies !Stop::Char('|').hit(#[trigger] tail[i]) by {
        assert(tail[i] == code[i]);
        if 0 < i < 4 {
            assert(code[i] == padded(status, 3)[i - 1]);
        }
    }
    assert(tail[code.len() as int] == '|');
    lemma_scan_unique(tail, Stop::Char('|'), code.len() as int);
    assert(tail.take(code.len() as int) =~= code);
    assert('0' <= padded(status, 3)[0] <= '9' && '0' <= padded(status, 3)[2] <= '9');
    lemma_between_blanks(padded(status, 3));
}

/// The time of gin's access log is read as it is written.
pub proof fn law_gin_times_are_read_back(ts: Timestamp, raw: &str, r: Option<Timestamp>)
    requires
        is_logged(ts),
        raw@ == gin_text(ts),
        call_ensures(parse_gin_timestamp, (raw,), r),
    ensures
        r == Some(ts),
{
    lemma_gin_text(ts);
}

/// Whether no bracket that opens stands behind a blank.
pub open spec fn no_bracket(s: Seq<char>) -> bool {
    forall|i: int| 0 <= i < s.len() - 1 ==> !(#[trigger] s[i] == ' ' && s[i + 1] == '[')
}

proof fn lemma_after_pair(front: Seq<char>, rest: Seq<char>)
    requires
        no_bracket(front),
    ensures
        after_pair(front + seq![' ', '['] + rest, ' ', '[') == Some(rest),
    decreases front.len(),
{
    let s = front + seq![' ', '['] + rest;
    if front.len() == 0 {
        assert(s.skip(2) =~= rest);
    } else {
        let f = front.drop_first();
        assert forall|i: int| 0 <= i < f.len() - 1 implies !(#[trigger] f[i] == ' ' && f[i + 1]
            == '[') by {
            assert(f[i] == front[i + 1]);
        }
        lemma_after_pair(f, rest);
        assert(s.drop_first() =~= f + seq![' ', '['] + rest);
        assert(s[0] == front[0]);
        if front.len() > 1 {
            assert(s[1] == front[1]);
        } else {
            assert(s[1] == ' ');
        }
    }
}

/// A line of nginx's access log; `time` stands in its brackets.
pub open spec fn nginx_line(
    front: Seq<char>,
    time: Seq<char>,
    request: Seq<char>,
    status: nat,
    more: Seq<char>,
) -> Seq<char> {
    front + seq![' ', '['] + time + seq![']', ' ', '"'] + request + seq!['"', ' '] + padded(
        status,
        3,
    ) + seq![' '] + more
}

proof fn lemma_nginx(
    front: Seq<char>,
    time: Seq<char>,
    request: Seq<char>,
    status: nat,
    more: Seq<char>,
)
    requires
        no_bracket(front),
        forall|i: int| 0 <= i < time.len() ==> #[trigger] time[i] != ']',
        forall|i: int| 0 <= i < request.len() ==> #[trigger] request[i] != '"',
        100 <= status <= 999,
        clf_stamp(encode_utf8(time)) is Some,
    ensures
        ({
            let line = nginx_line(front, time, request, status, more);
            match nginx_reads(line) {
                Some((when, body)) => Some(when) == clf_stamp(encode_utf8(time))
                    && is_request_event(body, "nginx"@, status as int, line),
                None => false,
            }
        }),
{
    let line = nginx_line(front, time, request, status, more);
    let code = padded(status, 3);
    let tail = code + seq![' '] + more;
    let quoted_part = seq!['"'] + request + seq!['"', ' '] + tail;
    let rest = seq![' '] + quoted_part;
    let from = time + seq![']'] + rest;
    lemma_status(status);
    assert(line =~= front + seq![' ', '['] + from);
    lemma_after_pair(front, from);
    assert forall|i: int| 0 <= i < time.len() implies !Stop::Char(']').hit(#[trigger] from[i]) by {
        assert(from[i] == time[i]);
    }
    assert(from[time.len() as int] == ']');
    lemma_scan_unique(from, Stop::Char(']'), time.len() as int);
    assert(from.take(time.len() as int) =~= time);
    assert(from.skip(time.len() as int + 1) =~= rest);
    lemma_scan_unique(rest, Stop::NonSpace, 1);
    assert(trimmed_start(rest) =~= quoted_part);
    let inner = quoted_part.skip(1);
    assert(inner =~= request + seq!['"', ' '] + tail);
    assert forall|i: int| 0 <= i < request.len() implies !Stop::Char('"').hit(#[trigger] inner[i]) by {
        assert(inner[i] == request[i]);
    }
    assert(inner[request.len() as int] == '"');
    lemma_scan_unique(inner, Stop::Char('"'), request.len() as int);
    let after = inner.skip(request.len() as int + 1);
    assert(after =~= seq![' '] + tail);
    assert('0' <= code[0] <= '9');
    assert(after[1] == code[0]);
    lemma_scan_unique(after, Stop::NonSpace, 1);
    assert(trimmed_start(after) =~= tail);
    assert forall|i: int| 0 <= i < 3 implies !Stop::Char(' ').hit(#[trigger] tail[i]) by {
        assert(tail[i] == code[i]);
    }
    assert(tail[3] == ' ');
    lemma_scan_unique(tail, Stop::Char(' '), 3);
    assert(tail.take(3) =~= code);
}

/// Each line of nginx's access log is read, whatever stands before its time, in its
/// request and behind its status: its time is the one in brackets, with an offset the
/// moment that is meant, and its level that of the status.
pub proof fn law_nginx_lines_are_read(
    front: Seq<char>,
    ts: Timestamp,
    east: bool,
    hours: nat,
    minutes: nat,
    request: Seq<char>,
    status: nat,
    more: Seq<char>,
)
    requires
        no_bracket(front),
        is_logged(ts),
        hours < 24,
        minutes < 60,
        forall|i: int| 0 <= i < request.len() ==> #[trigger] request[i] != '"',
        100 <= status <= 999,
    ensures
        ({
            let line = nginx_line(front, clf_text(ts), request, status, more);
            match nginx_reads(line) {
                Some((When::Wall(at), body)) => at == ts && is_request_event(
                    body,
                    "nginx"@,
                    status as int,
                    line,
                ),
                _ => false,
            }
        }),
        ({
            let time = clf_text(ts) + offset_words(east, hours, minutes);
            let line = nginx_line(front, time, request, status, more);
            match nginx_reads(line) {
                Some((When::At(i), body)) => {
                    &&& i.nano == 0
                    &&& i.seconds == ts.epoch_seconds() - (if east {
                        (hours * 3600 + minutes * 60) as int
                    } else {
                        -(hours * 3600 + minutes * 60)
                    })
                    &&& is_request_event(body, "nginx"@, status as int, line)
                },
                _ => false,
            }
        }),
{
    let none = Seq::<char>::empty();
    assert(is_ascii_chars(none));
    lemma_clf_text(ts, none);
    law_access_times_are_read_back(ts, east, hours, minutes);
    lemma_offset_words(east, hours, minutes);
    let time = clf_text(ts) + offset_words(east, hours, minutes);
    assert forall|i: int| 0 <= i < time.len() implies #[trigger] time[i] != ']' by {
        if i < 20 {
            assert(time[i] == clf_text(ts)[i]);
        } else {
            assert(time[i] == offset_words(east, hours, minutes)[i - 20]);
        }
    }
    lemma_nginx(front, clf_text(ts), request, status, more);
    lemma_nginx(front, time, request, status, more);
}

/// A line is read as gin's only if it starts as gin's do, and as nginx's only if a time
/// stands in brackets in it.
pub proof fn law_other_lines_are_no_requests(line: Seq<char>)
    ensures
        gin_reads(line) is Some ==> line.len() > 5 && line.take(5) == seq!['[', 'G', 'I', 'N', ']'],
        no_bracket(line) ==> nginx_reads(line) is None,
{
    reveal_strlit("[GIN]");
    assert("[GIN]"@ =~= seq!['[', 'G', 'I', 'N', ']']);
    if "[GIN]"@.is_prefix_of(line) {
        assert(line.take(5) =~= "[GIN]"@);
        if line.len() == 5 {
            assert(line.skip(5) =~= Seq::<char>::empty());
        }
    }
    if no_bracket(line) {
        lemma_no_pair(line);
    }
}

proof fn lemma_no_pair(s: Seq<char>)
    requires
        no_bracket(s),
    ensures
        after_pair(s, ' ', '[') is None,
    decreases s.len(),
{
    if s.len() >= 2 {
        let f = s.drop_first();
        assert forall|i: int| 0 <= i < f.len() - 1 implies !(#[trigger] f[i] == ' ' && f[i + 1]
            == '[') by {
            assert(f[i] == s[i + 1]);
        }
        lemma_no_pair(f);
        assert(!(s[0] == ' ' && s[1] == '['));
    }
}

} // verus!
