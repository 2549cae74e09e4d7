//! Access logs: gin's and nginx's.
//!
//! The status code becomes a level, and the whole line is kept as the message.

use vstd::prelude::*;
use vstd::utf8::*;

use crate::event::{Body, LogEvent};
use crate::parser::api::Parser;
use crate::parser::stamp::{clf_stamp, gin_stamp, is_digit, lemma_number_digits, number};
use crate::parser::stamp::{parse_clf_timestamp, parse_gin_timestamp, When};
use crate::text::{break_at, first_split, pair_view, scan, split_first, split_once, strip_prefix};
use crate::text::{opt_view, stripped, trim, trim_start, trimmed, trimmed_start, Stop};
use crate::time::Timestamp;

verus! {

/// The number of at most 65535 that a text is: decimal digits, a `+` in front of
/// them or not.
pub open spec fn small_number(s: Seq<char>) -> Option<nat> {
    let d = if s.len() > 0 && s[0] == '+' {
        s.skip(1)
    } else {
        s
    };
    match number(encode_utf8(d)) {
        Some(n) => if d.len() > 0 && n <= 65535 {
            Some(n)
        } else {
            None
        },
        None => None,
    }
}

/// More digits do not make a number smaller.
proof fn lemma_number_grows(b: Seq<u8>, k: int)
    requires
        0 <= k <= b.len(),
        number(b) is Some,
    ensures
        number(b.take(k)) is Some,
        number(b.take(k))->0 <= number(b)->0,
    decreases b.len() - k,
{
    if k == b.len() {
        assert(b.take(k) =~= b);
    } else {
        lemma_number_grows(b, k + 1);
        assert(b.take(k + 1).drop_last() =~= b.take(k));
    }
}

/// Reads a number of at most 65535.
pub fn parse_u16(s: &str) -> (r: Option<u16>)
    ensures
        r is Some <==> small_number(s@) is Some,
        r matches Some(n) ==> small_number(s@) == Some(n as nat),
{
    let d = match split_first(s) {
        Some((first, rest)) => if first == '+' {
            rest
        } else {
            s
        },
        None => s,
    };
    if d.is_empty() {
        return None;
    }
    let b = d.as_bytes();
    let mut value: u32 = 0;
    for i in 0..b.len()
        invariant
            b@ == encode_utf8(d@),
            small_number(s@) == (match number(b@) {
                Some(n) => if n <= 65535 {
                    Some(n)
                } else {
                    None
                },
                None => None,
            }),
            value <= 65535,
            number(b@.take(i as int)) == Some(value as nat),
    {
        proof {
            assert(b@.take(i + 1).drop_last() =~= b@.take(i as int));
        }
        if b[i] < '0' as u8 || b[i] > '9' as u8 {
            proof {
                lemma_number_digits(b@);
                assert(!is_digit(b@[i as int]));
            }
            return None;
        }
        value = value * 10 + (b[i] - '0' as u8) as u32;
        if value > 65535 {
            proof {
                if number(b@) is Some {
                    lemma_number_grows(b@, i + 1);
                }
            }
            return None;
        }
    }
    proof {
        assert(b@.take(b@.len() as int) =~= b@);
    }
    Some(value as u16)
}

/// The level of a status code: 5xx, 4xx, and all the rest.
pub open spec fn status_level(status: int) -> Seq<char> {
    if 500 <= status <= 599 {
        "ERROR"@
    } else if 400 <= status <= 499 {
        "WARN"@
    } else {
        "INFO"@
    }
}

/// The level of a status code: access logs have none of their own.
pub fn level_of_status(status: u16) -> (r: &'static str)
    ensures
        r@ == status_level(status as int),
{
    if 500 <= status && status <= 599 {
        "ERROR"
    } else if 400 <= status && status <= 499 {
        "WARN"
    } else {
        "INFO"
    }
}

/// What an access log's line says beside its time.
pub open spec fn access_body(logger: Seq<char>, status: int, line: Seq<char>) -> Body {
    Body { level: status_level(status), logger, message: line, ..Body::blank() }
}

/// The event of an access log's line; the line is its message, as it is.
pub fn access_event(timestamp: Timestamp, logger: &str, status: u16, line: &str) -> (r: LogEvent)
    requires
        timestamp.wf(),
    ensures
        r.wf(),
        r.timestamp == timestamp,
        r.body() == access_body(logger@, status as int, line@),
{
    let mut event = LogEvent::default();
    event.timestamp = timestamp;
    event.level = level_of_status(status).to_owned();
    event.logger = logger.to_owned();
    event.message = line.to_owned();
    event
}

/// What a line of gin's says.
pub open spec fn gin_reads(line: Seq<char>) -> Option<(When, Body)> {
    match stripped(line, "[GIN]"@) {
        None => None,
        Some(rest) => match first_split(rest, '|') {
            None => None,
            Some((time, tail)) => match (
                gin_stamp(encode_utf8(trimmed(time))),
                small_number(trimmed(tail.take(scan(tail, Stop::Char('|'))))),
            ) {
                (Some(ts), Some(status)) => Some(
                    (When::Wall(ts), access_body("gin"@, status as int, line)),
                ),
                _ => None,
            },
        },
    }
}

/// Reads gin's access log:
/// `[GIN] 2026/09/07 - 10:07:01 | 200 | 40.601us | 172.16.250.3 | POST "/extra_text"`
///
/// Coloured output and the routes that gin prints when it starts are not read.
pub struct GinParser;

impl Parser for GinParser {
    open spec fn reads(&self, line: Seq<char>) -> Option<(When, Body)> {
        gin_reads(line)
    }

    fn parse(&self, line: &str) -> (r: Option<LogEvent>) {
        let rest = strip_prefix(line, "[GIN]")?;
        let (time, tail) = split_once(rest, '|')?;
        let timestamp = parse_gin_timestamp(trim(time))?;
        let (status, _) = break_at(tail, Stop::Char('|'));
        let status: u16 = parse_u16(trim(status))?;
        Some(access_event(timestamp, "gin", status, line))
    }
}

/// What follows the first `a` that a `b` follows.
pub open spec fn after_pair(s: Seq<char>, a: char, b: char) -> Option<Seq<char>>
    decreases s.len(),
{
    if s.len() < 2 {
        None
    } else if s[0] == a && s[1] == b {
        Some(s.skip(2))
    } else {
        after_pair(s.drop_first(), a, b)
    }
}

fn find_pair<'a>(s: &'a str, a: char, b: char) -> (r: Option<&'a str>)
    ensures
        opt_view(r) == after_pair(s@, a, b),
{
    let mut cur = s;
    loop
        invariant
            after_pair(cur@, a, b) == after_pair(s@, a, b),
        decreases cur@.len(),
    {
        match split_first(cur) {
            None => {
                return None;
            },
            Some((first, rest)) => {
                match split_first(rest) {
                    None => {
                        return None;
                    },
                    Some((second, tail)) => {
                        proof {
                            assert(cur@.skip(2) =~= rest@.drop_first());
                        }
                        if first == a && second == b {
                            return Some(tail);
                        }
                    },
                }
                cur = rest;
            },
        }
    }
}

/// What stands in the quotes at the start of `s`, and what follows them.
pub open spec fn quoted(s: Seq<char>) -> Option<(Seq<char>, Seq<char>)> {
    if s.len() > 0 && s[0] == '"' {
        first_split(s.skip(1), '"')
    } else {
        None
    }
}

/// Takes the quotes at the start of a text. There is no escape: nginx does not
/// write a bare quote.
pub fn take_quoted<'a>(raw: &'a str) -> (r: Option<(&'a str, &'a str)>)
    ensures
        pair_view(r) == quoted(raw@),
{
    match split_first(raw) {
        Some((first, rest)) => if first == '"' {
            split_once(rest, '"')
        } else {
            None
        },
        None => None,
    }
}

/// What a line of nginx's says.
pub open spec fn nginx_reads(line: Seq<char>) -> Option<(When, Body)> {
    match after_pair(line, ' ', '[') {
        None => None,
        Some(from) => match first_split(from, ']') {
            None => None,
            Some((time, rest)) => match (
                clf_stamp(encode_utf8(time)),
                quoted(trimmed_start(rest)),
            ) {
                (Some(when), Some((request, tail))) => {
                    let tail = trimmed_start(tail);
                    match small_number(tail.take(scan(tail, Stop::Char(' ')))) {
                        Some(status) => Some((when, access_body("nginx"@, status as int, line))),
                        None => None,
                    }
                },
                _ => None,
            },
        },
    }
}

/// Reads nginx's combined access log:
/// `127.0.0.6 - - [07/Sep/2026:18:06:53 +0800] "GET / HTTP/1.1" 200 601 "-" "kube-probe/1.28+"`
///
/// Only the time and the status are looked at strictly; what stands around them
/// differs from site to site.
pub struct NginxParser;

impl Parser for NginxParser {
    open spec fn reads(&self, line: Seq<char>) -> Option<(When, Body)> {
        nginx_reads(line)
    }

    fn parse(&self, line: &str) -> (r: Option<LogEvent>) {
        let from = find_pair(line, ' ', '[')?;
        let (time, rest) = split_once(from, ']')?;
        let timestamp = parse_clf_timestamp(time)?;
        let (_, tail) = take_quoted(trim_start(rest))?;
        let (status, _) = break_at(trim_start(tail), Stop::Char(' '));
        let status: u16 = parse_u16(status)?;
        Some(access_event(timestamp, "nginx", status, line))
    }
}

} // verus!
