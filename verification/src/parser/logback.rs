//! The Java format, read by hand.
//!
//! `2026-09-07 11:04:08.914 [TID:xxx] [SpanID:xxx] [thread] INFO  c.a.c.Foo -text`
//!
//! The three brackets may be missing, the milliseconds may stand behind a comma,
//! and the level may stand in brackets.

use vstd::prelude::*;
use vstd::utf8::*;

use crate::event::{Body, LogEvent};
use crate::parser::api::Parser;
use crate::parser::ids::{normal_id, normalize_span_id, normalize_trace_id};
use crate::parser::stamp::{field, is_digit, lemma_number_digits, parse_timestamp, stamp, When};
use crate::text::{ascii_cut, break_at, first_split, is_space, is_whitespace, lemma_scan, pair_view};
use crate::text::{scan, split_first, split_once, strip_prefix, stripped, trim, trim_start, trimmed};
use crate::text::{trimmed_start, Stop};
use crate::time::present_time;

verus! {

/// How many digits a row of bytes starts with.
pub open spec fn digit_run(b: Seq<u8>) -> nat
    decreases b.len(),
{
    if b.len() == 0 || !is_digit(b[0]) {
        0
    } else {
        1 + digit_run(b.skip(1))
    }
}

/// Whether a row of bytes starts with `dddd-dd-dd dd:dd:dd`, a blank or a `T` in
/// the middle.
pub open spec fn starts_as_stamp(b: Seq<u8>) -> bool {
    &&& b.len() >= 19
    &&& field(b, 0, 4) is Some
    &&& b[4] == '-' as u8
    &&& field(b, 5, 7) is Some
    &&& b[7] == '-' as u8
    &&& field(b, 8, 10) is Some
    &&& b[10] == ' ' as u8 || b[10] == 'T' as u8
    &&& field(b, 11, 13) is Some
    &&& b[13] == ':' as u8
    &&& field(b, 14, 16) is Some
    &&& b[16] == ':' as u8
    &&& field(b, 17, 19) is Some
}

/// The bytes that a time takes at the start of a line: its first 19, and a
/// fraction where a `.` or `,` follows; that one needs one to nine digits.
pub open spec fn stamp_len(b: Seq<u8>) -> Option<int> {
    if !starts_as_stamp(b) {
        None
    } else if b.len() > 19 && (b[19] == '.' as u8 || b[19] == ',' as u8) {
        let run = digit_run(b.skip(20));
        if 1 <= run <= 9 {
            Some((20 + run) as int)
        } else {
            None
        }
    } else {
        Some(19)
    }
}

/// What stands in the brackets at the start of `s`, and what follows them and
/// the white space behind them.
pub open spec fn bracket(s: Seq<char>) -> Option<(Seq<char>, Seq<char>)> {
    if s.len() > 0 && s[0] == '[' {
        match first_split(s.skip(1), ']') {
            Some((body, rest)) => Some((body, trimmed_start(rest))),
            None => None,
        }
    } else {
        None
    }
}

/// `s` without `c` where it starts with it.
pub open spec fn without(s: Seq<char>, c: char) -> Seq<char> {
    if s.len() > 0 && s[0] == c {
        s.skip(1)
    } else {
        s
    }
}

/// Whether `s` starts with white space.
pub open spec fn spaced(s: Seq<char>) -> bool {
    s.len() > 0 && is_space(s[0])
}

/// Level, logger and message: upper-case letters that may stand in brackets,
/// white space, a word, white space, a dash that may be missing, and one more
/// white space that may be missing.
pub open spec fn level_and_rest(s: Seq<char>) -> Option<(Seq<char>, Seq<char>, Seq<char>)> {
    let open = without(s, '[');
    let upper = scan(open, Stop::NonUpper);
    let after = without(open.skip(upper), ']');
    let word = trimmed_start(after);
    let end = scan(word, Stop::Space);
    if upper == 0 || !spaced(after) || end == 0 {
        None
    } else {
        let text = without(trimmed_start(word.skip(end)), '-');
        Some((open.take(upper), word.take(end), if spaced(text) { text.skip(1) } else { text }))
    }
}

/// The parts of a line.
pub struct Head {
    pub timestamp: Seq<char>,
    pub trace_id: Seq<char>,
    pub span_id: Seq<char>,
    pub thread: Seq<char>,
    pub level: Seq<char>,
    pub logger: Seq<char>,
    pub message: Seq<char>,
}

/// What follows `tag` in the brackets at the start of `s`, and what follows the
/// brackets. Where there are none with that tag, nothing is taken.
pub open spec fn tagged(s: Seq<char>, tag: Seq<char>) -> (Seq<char>, Seq<char>) {
    match bracket(s) {
        Some((body, next)) => match stripped(body, tag) {
            Some(value) => (value, next),
            None => (Seq::empty(), s),
        },
        None => (Seq::empty(), s),
    }
}

/// Thread, level, logger and message. Brackets are the thread's where a level
/// follows them, else the level's.
pub open spec fn thread_and_rest(s: Seq<char>) -> Option<
    (Seq<char>, (Seq<char>, Seq<char>, Seq<char>)),
> {
    let plain = match level_and_rest(s) {
        Some(tail) => Some((Seq::empty(), tail)),
        None => None,
    };
    match bracket(s) {
        Some((body, next)) => match level_and_rest(next) {
            Some(tail) => Some((body, tail)),
            None => plain,
        },
        None => plain,
    }
}

/// The parts of a line in the format.
pub open spec fn head(line: Seq<char>) -> Option<Head> {
    match stamp_len(encode_utf8(line)) {
        None => None,
        Some(n) => {
            let after = line.skip(n);
            let (trace_id, s1) = tagged(trimmed_start(after), "TID:"@);
            let (span_id, s2) = tagged(s1, "SpanID:"@);
            match thread_and_rest(s2) {
                Some((thread, (level, logger, message))) => if spaced(after) {
                    Some(
                        Head {
                            timestamp: line.take(n),
                            trace_id,
                            span_id,
                            thread,
                            level,
                            logger,
                            message,
                        },
                    )
                } else {
                    None
                },
                None => None,
            }
        },
    }
}

/// When a line with the time `raw` was written.
pub open spec fn when_of(raw: Seq<char>) -> When {
    match stamp(encode_utf8(raw)) {
        Some(ts) => When::Wall(ts),
        None => When::Now,
    }
}

/// What a line in the format says.
pub open spec fn logback_reads(line: Seq<char>) -> Option<(When, Body)> {
    match head(line) {
        Some(h) => Some(
            (
                when_of(h.timestamp),
                Body {
                    level: trimmed(h.level),
                    trace_id: normal_id(h.trace_id, 32),
                    span_id: normal_id(h.span_id, 16),
                    thread: trimmed(h.thread),
                    logger: trimmed(h.logger),
                    message: h.message,
                    ..Body::blank()
                },
            ),
        ),
        None => None,
    }
}

/// The slices of a line that its parts are.
struct LogbackHead<'a> {
    timestamp: &'a str,
    trace_id: &'a str,
    span_id: &'a str,
    thread: &'a str,
    level: &'a str,
    logger: &'a str,
    message: &'a str,
}

impl<'a> LogbackHead<'a> {
    spec fn view(&self) -> Head {
        Head {
            timestamp: self.timestamp@,
            trace_id: self.trace_id@,
            span_id: self.span_id@,
            thread: self.thread@,
            level: self.level@,
            logger: self.logger@,
            message: self.message@,
        }
    }
}

fn all_digits(b: &[u8], i: usize, j: usize) -> (r: bool)
    requires
        i <= j <= b@.len(),
    ensures
        r == (field(b@, i as int, j as int) is Some),
{
    proof {
        lemma_number_digits(b@.subrange(i as int, j as int));
    }
    for k in i..j
        invariant
            i <= j <= b@.len(),
            forall|m: int| i <= m < k ==> is_digit(#[trigger] b@[m]),
            field(b@, i as int, j as int) is Some <==> forall|m: int|
                0 <= m < b@.subrange(i as int, j as int).len() ==> is_digit(
                    #[trigger] b@.subrange(i as int, j as int)[m],
                ),
    {
        if b[k] < '0' as u8 || b[k] > '9' as u8 {
            proof {
                assert(!is_digit(b@.subrange(i as int, j as int)[k - i]));
            }
            return false;
        }
    }
    proof {
        assert forall|m: int| 0 <= m < b@.subrange(i as int, j as int).len() implies is_digit(
            #[trigger] b@.subrange(i as int, j as int)[m],
        ) by {
            assert(is_digit(b@[i + m]));
        }
    }
    true
}

/// The bytes that a time takes at the start of a line.
pub fn logback_timestamp_len(bytes: &[u8]) -> (r: Option<usize>)
    ensures
        r is Some <==> stamp_len(bytes@) is Some,
        r matches Some(n) ==> {
            &&& stamp_len(bytes@) == Some(n as int)
            &&& n <= bytes@.len()
            &&& forall|i: int| 0 <= i < n ==> #[trigger] bytes@[i] < 128
        },
{
    if bytes.len() < 19 {
        return None;
    }
    let shape = all_digits(bytes, 0, 4) && bytes[4] == '-' as u8 && all_digits(bytes, 5, 7)
        && bytes[7] == '-' as u8 && all_digits(bytes, 8, 10) && (bytes[10] == ' ' as u8 || bytes[10]
        == 'T' as u8) && all_digits(bytes, 11, 13) && bytes[13] == ':' as u8 && all_digits(
        bytes,
        14,
        16,
    ) && bytes[16] == ':' as u8 && all_digits(bytes, 17, 19);
    if !shape {
        return None;
    }
    proof {
        lemma_field_ascii(bytes@, 0, 4);
        lemma_field_ascii(bytes@, 5, 7);
        lemma_field_ascii(bytes@, 8, 10);
        lemma_field_ascii(bytes@, 11, 13);
        lemma_field_ascii(bytes@, 14, 16);
        lemma_field_ascii(bytes@, 17, 19);
        assert forall|i: int| 0 <= i < 19 implies #[trigger] bytes@[i] < 128 by {}
    }
    if bytes.len() > 19 && (bytes[19] == '.' as u8 || bytes[19] == ',' as u8) {
        let mut end: usize = 20;
        proof {
            assert(bytes@.skip(20).skip(0) =~= bytes@.skip(20));
        }
        while end < bytes.len() && '0' as u8 <= bytes[end] && bytes[end] <= '9' as u8
            invariant
                20 <= end <= bytes@.len(),
                forall|i: int| 0 <= i < end ==> #[trigger] bytes@[i] < 128,
                digit_run(bytes@.skip(20)) == (end - 20) + digit_run(bytes@.skip(end as int)),
            decreases bytes@.len() - end,
        {
            proof {
                assert(bytes@.skip(end as int).skip(1) =~= bytes@.skip(end + 1));
            }
            end = end + 1;
        }
        proof {
            assert(digit_run(bytes@.skip(end as int)) == 0);
        }
        if end == 20 || end > 29 {
            return None;
        }
        return Some(end);
    }
    Some(19)
}

proof fn lemma_field_ascii(b: Seq<u8>, i: int, j: int)
    requires
        0 <= i <= j <= b.len(),
        field(b, i, j) is Some,
    ensures
        forall|k: int| i <= k < j ==> #[trigger] b[k] < 128,
{
    let s = b.subrange(i, j);
    lemma_number_digits(s);
    assert forall|k: int| i <= k < j implies #[trigger] b[k] < 128 by {
        assert(is_digit(s[k - i]));
    }
}

fn without_char<'a>(s: &'a str, c: char) -> (r: &'a str)
    ensures
        r@ == without(s@, c),
{
    match split_first(s) {
        Some((first, rest)) => if first == c {
            rest
        } else {
            s
        },
        None => s,
    }
}

fn starts_spaced(s: &str) -> (r: bool)
    ensures
        r == spaced(s@),
{
    match split_first(s) {
        Some((first, _)) => is_whitespace(first),
        None => false,
    }
}

/// Takes the brackets at the start of a text.
pub fn logback_bracket<'a>(raw: &'a str) -> (r: Option<(&'a str, &'a str)>)
    ensures
        pair_view(r) == bracket(raw@),
{
    match split_first(raw) {
        Some((first, inner)) => if first == '[' {
            match split_once(inner, ']') {
                Some((body, rest)) => Some((body, trim_start(rest))),
                None => None,
            }
        } else {
            None
        },
        None => None,
    }
}

/// The characters of three texts.
pub open spec fn triple_view(r: Option<(&str, &str, &str)>) -> Option<
    (Seq<char>, Seq<char>, Seq<char>),
> {
    match r {
        Some((a, b, c)) => Some((a@, b@, c@)),
        None => None,
    }
}

/// Takes level, logger and message.
pub fn logback_level_and_rest<'a>(raw: &'a str) -> (r: Option<(&'a str, &'a str, &'a str)>)
    ensures
        triple_view(r) == level_and_rest(raw@),
{
    let open = without_char(raw, '[');
    let (level, after) = break_at(open, Stop::NonUpper);
    proof {
        lemma_scan(open@, Stop::NonUpper);
    }
    if level.is_empty() {
        return None;
    }
    let after = without_char(after, ']');
    if !starts_spaced(after) {
        return None;
    }
    let word = trim_start(after);
    let (logger, rest) = break_at(word, Stop::Space);
    proof {
        lemma_scan(word@, Stop::Space);
    }
    if logger.is_empty() {
        return None;
    }
    let text = without_char(trim_start(rest), '-');
    let message = match split_first(text) {
        Some((first, rest)) => if is_whitespace(first) {
            rest
        } else {
            text
        },
        None => text,
    };
    Some((level, logger, message))
}

fn take_tagged<'a>(s: &'a str, tag: &str) -> (r: (&'a str, &'a str))
    ensures
        (r.0@, r.1@) == tagged(s@, tag@),
{
    if let Some((body, next)) = logback_bracket(s) {
        if let Some(value) = strip_prefix(body, tag) {
            return (value, next);
        }
    }
    proof {
        reveal_strlit("");
        assert(""@ =~= Seq::<char>::empty());
    }
    ("", s)
}

fn take_thread<'a>(s: &'a str) -> (r: Option<(&'a str, (&'a str, &'a str, &'a str))>)
    ensures
        (match r {
            Some((thread, (level, logger, message))) => Some(
                (thread@, (level@, logger@, message@)),
            ),
            None => None,
        }) == thread_and_rest(s@),
{
    if let Some((body, next)) = logback_bracket(s) {
        if let Some(tail) = logback_level_and_rest(next) {
            return Some((body, tail));
        }
    }
    proof {
        reveal_strlit("");
        assert(""@ =~= Seq::<char>::empty());
    }
    match logback_level_and_rest(s) {
        Some(tail) => Some(("", tail)),
        None => None,
    }
}

/// Cuts a line into its parts.
fn parse_logback_head<'a>(line: &'a str) -> (r: Option<LogbackHead<'a>>)
    ensures
        (match r {
            Some(h) => Some(h@),
            None => None,
        }) == head(line@),
{
    let end: usize = logback_timestamp_len(line.as_bytes())?;
    let (timestamp, after) = ascii_cut(line, end);
    if !starts_spaced(after) {
        return None;
    }
    let (trace_id, rest) = take_tagged(trim_start(after), "TID:");
    let (span_id, rest) = take_tagged(rest, "SpanID:");
    let (thread, (level, logger, message)) = take_thread(rest)?;
    Some(LogbackHead { timestamp, trace_id, span_id, thread, level, logger, message })
}

/// Reads the Java format.
pub struct LogbackParser;

impl Parser for LogbackParser {
    open spec fn reads(&self, line: Seq<char>) -> Option<(When, Body)> {
        logback_reads(line)
    }

    fn parse(&self, line: &str) -> (r: Option<LogEvent>) {
        let head = parse_logback_head(line)?;
        let mut event = LogEvent::default();
        event.timestamp = match parse_timestamp(head.timestamp) {
            Some(ts) => ts,
            None => present_time(),
        };
        event.level = trim(head.level).to_owned();
        event.trace_id = normalize_trace_id(head.trace_id);
        event.span_id = normalize_span_id(head.span_id);
        event.thread = trim(head.thread).to_owned();
        event.logger = trim(head.logger).to_owned();
        event.message = head.message.to_owned();
        Some(event)
    }
}

} // verus!
