//! Lines that are written of events are read again.

use vstd::prelude::*;
use vstd::utf8::*;

use crate::event::{left_aligned, LogEvent};
use crate::laws::reading::{law_ids_have_one_writing, law_times_are_read_back, lemma_trimmed};
use crate::laws::reading::{lemma_field, lemma_padded, lemma_wall_clock, whole_millis};
use crate::parser::api::outcome;
use crate::parser::ids::{all_hex, is_hex, normal_id};
use crate::parser::logback::{bracket, digit_run, head, level_and_rest, logback_reads, spaced, Head, without};
use crate::parser::logback::{stamp_len, tagged, thread_and_rest};
use crate::parser::stamp::{field, is_digit, lemma_number_bound, lemma_number_digits};
use crate::parser::stamp::{number, pow10, stamp, When};
use crate::text::{blanks, is_space, lemma_ascii_prefix, lemma_encode_add, lemma_last_scan, padded};
use crate::text::{lemma_last_scan_unique, lemma_scan, lemma_scan_unique, scan, stripped, trimmed};
use crate::text::{trimmed_start, Stop};
use crate::time::{wall_clock, Timestamp};
use crate::value::ValueView;

verus! {

/// Whether a text has no closing bracket in it.
pub open spec fn unclosed(s: Seq<char>) -> bool {
    forall|i: int| 0 <= i < s.len() ==> #[trigger] s[i] != ']'
}

/// Whether a text has no white space in it.
pub open spec fn unspaced(s: Seq<char>) -> bool {
    forall|i: int| 0 <= i < s.len() ==> !is_space(#[trigger] s[i])
}

/// Whether a text has but upper-case letters in it.
pub open spec fn upper(s: Seq<char>) -> bool {
    forall|i: int| 0 <= i < s.len() ==> 'A' <= #[trigger] s[i] <= 'Z'
}

proof fn lemma_pow10_add(a: nat, b: nat)
    ensures
        pow10(a) * pow10(b) == pow10(a + b),
        pow10(b) > 0,
    decreases a, b,
{
    if a > 0 {
        let c = (a - 1) as nat;
        lemma_pow10_add(c, b);
        assert((a + b - 1) as nat == c + b);
        let (x, y) = (pow10(c), pow10(b));
        assert(pow10(a) == 10 * x);
        assert(pow10(a + b) == 10 * pow10(c + b));
        assert((10 * x) * y == 10 * (x * y)) by (nonlinear_arith);
    } else {
        assert(pow10(0) == 1);
        if b > 0 {
            lemma_pow10_add(0, (b - 1) as nat);
        }
    }
}

/// What is read of a time has a year of four digits and no leap second.
proof fn lemma_stamp_range(b: Seq<u8>)
    ensures
        stamp(b) matches Some(ts) ==> ts.wf() && 0 <= ts.year <= 9999 && ts.nano < 1_000_000_000,
{
    if stamp(b) is Some {
        reveal_with_fuel(pow10, 10);
        lemma_number_bound(b.subrange(0, 4));
        let f = b.skip(19);
        if f.len() > 0 {
            let n = f.skip(1);
            lemma_number_bound(n);
            let more = pow10((10 - f.len()) as nat);
            let most = pow10(n.len());
            lemma_pow10_add(n.len(), (10 - f.len()) as nat);
            assert(more > 0) by {
                lemma_pow10_add(0, (10 - f.len()) as nat);
            }
            let v = number(n)->0;
            assert(v * more < most * more) by (nonlinear_arith)
                requires
                    v < most,
                    more > 0,
            ;
        }
    }
}

/// The time at the start of a line is found where white space follows it.
proof fn lemma_stamp_len(ts: Timestamp, rest: Seq<char>)
    requires
        ts.wf(),
        0 <= ts.year <= 9999,
        ts.nano < 1_000_000_000,
        rest.len() > 0,
        rest[0] == ' ',
    ensures
        stamp_len(encode_utf8(wall_clock(ts) + rest)) == Some(23int),
{
    let s = wall_clock(ts);
    let a = encode_utf8(s);
    let b = encode_utf8(s + rest);
    lemma_wall_clock(ts);
    lemma_encode_add(s, rest);
    assert(rest =~= seq![' '] + rest.skip(1));
    lemma_encode_add(seq![' '], rest.skip(1));
    assert(is_ascii_chars(seq![' ']));
    is_ascii_chars_encode_utf8(seq![' ']);
    assert(b[23] == ' ' as u8);
    assert(b.subrange(0, 4) =~= a.subrange(0, 4));
    assert(b.subrange(5, 7) =~= a.subrange(5, 7));
    assert(b.subrange(8, 10) =~= a.subrange(8, 10));
    assert(b.subrange(11, 13) =~= a.subrange(11, 13));
    assert(b.subrange(14, 16) =~= a.subrange(14, 16));
    assert(b.subrange(17, 19) =~= a.subrange(17, 19));
    let millis = a.subrange(20, 23);
    lemma_number_digits(millis);
    assert(is_digit(millis[0]) && is_digit(millis[1]) && is_digit(millis[2]));
    let f = b.skip(20);
    assert(f[0] == millis[0] && f[1] == millis[1] && f[2] == millis[2] && f[3] == ' ' as u8);
    assert(f.skip(1).skip(1).skip(1)[0] == f[3]);
    assert(f.skip(1).skip(1)[0] == f[2]);
    reveal_with_fuel(digit_run, 5);
    assert(digit_run(f) == 3);
}

proof fn lemma_trim_blanks(n: nat, s: Seq<char>)
    requires
        s.len() > 0,
        !is_space(s[0]),
    ensures
        trimmed_start(blanks(n) + s) == s,
{
    lemma_scan_unique(blanks(n) + s, Stop::NonSpace, n as int);
    assert((blanks(n) + s).skip(n as int) =~= s);
}

/// What stands in brackets is found.
proof fn lemma_bracket(body: Seq<char>, rest: Seq<char>)
    requires
        unclosed(body),
        rest.len() > 0,
        !is_space(rest[0]),
    ensures
        bracket(seq!['['] + body + seq![']', ' '] + rest) == Some((body, rest)),
{
    let s = seq!['['] + body + seq![']', ' '] + rest;
    let inner = s.skip(1);
    assert(inner =~= body + seq![']', ' '] + rest);
    lemma_scan_unique(inner, Stop::Char(']'), body.len() as int);
    assert(inner.take(body.len() as int) =~= body);
    assert(inner.skip(body.len() as int + 1) =~= blanks(1) + rest);
    lemma_trim_blanks(1, rest);
}

/// What stands behind a tag in brackets is found.
proof fn lemma_tagged(tag: Seq<char>, value: Seq<char>, rest: Seq<char>)
    requires
        unclosed(tag),
        unclosed(value),
        rest.len() > 0,
        !is_space(rest[0]),
    ensures
        tagged(seq!['['] + tag + value + seq![']', ' '] + rest, tag) == (value, rest),
{
    let body = tag + value;
    lemma_bracket(body, rest);
    assert(seq!['['] + tag + value + seq![']', ' '] + rest =~= seq!['['] + body + seq![']', ' ']
        + rest);
    assert(body.skip(tag.len() as int) =~= value);
    assert(tag.is_prefix_of(body));
}

/// Aligning puts blanks behind.
proof fn lemma_left_aligned(s: Seq<char>, width: int)
    ensures
        exists|n: nat| left_aligned(s, width) == s + #[trigger] blanks(n),
    decreases width - s.len(),
{
    if s.len() >= width {
        assert(s + blanks(0) =~= s);
    } else {
        lemma_left_aligned(s.push(' '), width);
        let n = choose|n: nat| left_aligned(s.push(' '), width) == s.push(' ') + #[trigger] blanks(n);
        assert(s.push(' ') + blanks(n) =~= s + blanks(n + 1));
    }
}

proof fn lemma_level_and_rest(level: Seq<char>, logger: Seq<char>, message: Seq<char>)
    requires
        upper(level),
        level.len() > 0,
        unspaced(logger),
        logger.len() > 0,
        !spaced(message),
    ensures
        level_and_rest(left_aligned(level, 5) + seq![' '] + logger + seq![' ', '-'] + message)
            == Some((level, logger, message)),
{
    lemma_left_aligned(level, 5);
    let n = choose|n: nat| left_aligned(level, 5) == level + #[trigger] blanks(n);
    let tail = seq![' ', '-'] + message;
    let word = logger + tail;
    let after = blanks(n + 1) + word;
    let s = left_aligned(level, 5) + seq![' '] + logger + seq![' ', '-'] + message;
    assert(s =~= level + after);
    assert(s[0] == level[0]);
    assert('A' <= level[0] <= 'Z');
    assert forall|i: int| 0 <= i < level.len() implies !Stop::NonUpper.hit(#[trigger] s[i]) by {
        assert(s[i] == level[i]);
    }
    assert(s[level.len() as int] == ' ');
    lemma_scan_unique(s, Stop::NonUpper, level.len() as int);
    assert(s.skip(level.len() as int) =~= after);
    assert(s.take(level.len() as int) =~= level);
    assert(after[0] == ' ');
    assert(word[0] == logger[0]);
    assert(!is_space(logger[0]));
    lemma_trim_blanks(n + 1, word);
    assert forall|i: int| 0 <= i < logger.len() implies !Stop::Space.hit(#[trigger] word[i]) by {
        assert(word[i] == logger[i]);
    }
    assert(word[logger.len() as int] == ' ');
    lemma_scan_unique(word, Stop::Space, logger.len() as int);
    assert(word.take(logger.len() as int) =~= logger);
    assert(word.skip(logger.len() as int) =~= tail);
    let dash = seq!['-'] + message;
    assert(tail =~= blanks(1) + dash);
    lemma_trim_blanks(1, dash);
    assert(dash.skip(1) =~= message);
}

/// What has no white space in it stays as it is when it is trimmed.
proof fn lemma_unspaced(s: Seq<char>)
    requires
        unspaced(s),
    ensures
        trimmed(s) == s,
{
    lemma_scan_unique(s, Stop::NonSpace, 0);
    assert(s.skip(0) =~= s);
    lemma_last_scan_unique(s, Stop::NonSpace, s.len() - 1);
    assert(s.take(s.len() as int) =~= s);
}

/// Trimming closes no bracket.
proof fn lemma_trim_unclosed(s: Seq<char>)
    requires
        unclosed(s),
    ensures
        unclosed(trimmed(s)),
{
    let a = trimmed_start(s);
    lemma_scan(s, Stop::NonSpace);
    lemma_last_scan(a, Stop::NonSpace);
    assert forall|i: int| 0 <= i < trimmed(s).len() implies #[trigger] trimmed(s)[i] != ']' by {
        assert(trimmed(s)[i] == s[i + scan(s, Stop::NonSpace)]);
    }
}

/// Neither does bringing an id into the writing that is stored.
proof fn lemma_id_unclosed(raw: Seq<char>, width: int)
    requires
        unclosed(raw),
    ensures
        unclosed(normal_id(raw, width)),
{
    let id = trimmed(raw);
    let n = normal_id(raw, width);
    lemma_trim_unclosed(raw);
    assert forall|i: int| 0 <= i < n.len() implies #[trigger] n[i] != ']' by {
        if n != id && all_hex(id) {
            if id.len() == 16 && width == 32 {
                if i >= 16 {
                    assert(is_hex(id[i - 16]));
                }
            } else {
                assert(is_hex(id[i]));
            }
        }
    }
}

proof fn lemma_bracket_unclosed(s: Seq<char>)
    ensures
        bracket(s) matches Some((body, _)) ==> unclosed(body),
{
    lemma_scan(s.skip(1), Stop::Char(']'));
}

proof fn lemma_tagged_unclosed(s: Seq<char>, tag: Seq<char>)
    ensures
        unclosed(tagged(s, tag).0),
{
    lemma_bracket_unclosed(s);
    if let Some((body, _)) = bracket(s) {
        if let Some(value) = stripped(body, tag) {
            assert forall|i: int| 0 <= i < value.len() implies #[trigger] value[i] != ']' by {
                assert(value[i] == body[i + tag.len()]);
            }
        }
    }
}

proof fn lemma_level_shape(s: Seq<char>)
    ensures
        level_and_rest(s) matches Some((level, logger, _)) ==> {
            &&& upper(level)
            &&& level.len() > 0
            &&& unspaced(logger)
            &&& logger.len() > 0
        },
{
    if let Some((level, logger, _)) = level_and_rest(s) {
        let open = if s[0] == '[' {
            s.skip(1)
        } else {
            s
        };
        lemma_scan(open, Stop::NonUpper);
        let n = scan(open, Stop::NonUpper);
        assert forall|i: int| 0 <= i < level.len() implies 'A' <= #[trigger] level[i] <= 'Z' by {
            assert(!Stop::NonUpper.hit(open[i]));
        }
        let rest = open.skip(n);
        let after = if rest.len() > 0 && rest[0] == ']' {
            rest.skip(1)
        } else {
            rest
        };
        let word = trimmed_start(after);
        lemma_scan(word, Stop::Space);
        assert forall|i: int| 0 <= i < logger.len() implies !is_space(#[trigger] logger[i]) by {
            assert(!Stop::Space.hit(word[i]));
        }
    }
}

/// What is read of a line can stand in a line again.
proof fn lemma_head_shape(line: Seq<char>)
    ensures
        head(line) matches Some(h) ==> {
            &&& unclosed(h.trace_id)
            &&& unclosed(h.span_id)
            &&& unclosed(h.thread)
            &&& upper(h.level)
            &&& h.level.len() > 0
            &&& unspaced(h.logger)
            &&& h.logger.len() > 0
        },
{
    if let Some(n) = stamp_len(encode_utf8(line)) {
        let s0 = trimmed_start(line.skip(n));
        let s1 = tagged(s0, "TID:"@).1;
        let s2 = tagged(s1, "SpanID:"@).1;
        lemma_tagged_unclosed(s0, "TID:"@);
        lemma_tagged_unclosed(s1, "SpanID:"@);
        lemma_bracket_unclosed(s2);
        lemma_level_shape(s2);
        if let Some((_, next)) = bracket(s2) {
            lemma_level_shape(next);
        }
    }
}

/// The line behind its time.
spec fn behind_time(
    trace: Seq<char>,
    span: Seq<char>,
    thread: Seq<char>,
    level: Seq<char>,
    logger: Seq<char>,
    message: Seq<char>,
) -> Seq<char> {
    let tail = left_aligned(level, 5) + seq![' '] + logger + seq![' ', '-'] + message;
    let s2 = seq!['['] + thread + seq![']', ' '] + tail;
    let s1 = seq!['['] + "SpanID:"@ + span + seq![']', ' '] + s2;
    seq!['['] + "TID:"@ + trace + seq![']', ' '] + s1
}

proof fn lemma_text_line(event: &LogEvent)
    ensures
        event.text_line() == wall_clock(event.timestamp) + (seq![' '] + behind_time(
            event.trace_id@,
            event.span_id@,
            event.thread@,
            event.level@,
            event.logger@,
            event.message@,
        )),
{
    reveal_strlit(" [TID:");
    reveal_strlit("TID:");
    reveal_strlit("] [SpanID:");
    reveal_strlit("SpanID:");
    reveal_strlit("] [");
    reveal_strlit("] ");
    reveal_strlit(" ");
    reveal_strlit(" -");
    assert(" [TID:"@ =~= seq![' ', '['] + "TID:"@);
    assert("] [SpanID:"@ =~= seq![']', ' ', '['] + "SpanID:"@);
    assert("] ["@ =~= seq![']', ' ', '[']);
    assert("] "@ =~= seq![']', ' ']);
    assert(" "@ =~= seq![' ']);
    assert(" -"@ =~= seq![' ', '-']);
    assert(event.text_line() =~= wall_clock(event.timestamp) + (seq![' '] + behind_time(
        event.trace_id@,
        event.span_id@,
        event.thread@,
        event.level@,
        event.logger@,
        event.message@,
    )));
}

/// The parts of a line that is put together of parts.
proof fn lemma_head(
    ts: Timestamp,
    trace: Seq<char>,
    span: Seq<char>,
    thread: Seq<char>,
    level: Seq<char>,
    logger: Seq<char>,
    message: Seq<char>,
)
    requires
        ts.wf(),
        0 <= ts.year <= 9999,
        ts.nano < 1_000_000_000,
        unclosed(trace),
        unclosed(span),
        unclosed(thread),
        upper(level),
        level.len() > 0,
        unspaced(logger),
        logger.len() > 0,
        !spaced(message),
    ensures
        head(
            wall_clock(ts) + (seq![' '] + behind_time(
                trace,
                span,
                thread,
                level,
                logger,
                message,
            )),
        ) == Some(
            Head {
                timestamp: wall_clock(ts),
                trace_id: trace,
                span_id: span,
                thread,
                level,
                logger,
                message,
            },
        ),
{
    let tail = left_aligned(level, 5) + seq![' '] + logger + seq![' ', '-'] + message;
    let s2 = seq!['['] + thread + seq![']', ' '] + tail;
    let s1 = seq!['['] + "SpanID:"@ + span + seq![']', ' '] + s2;
    let s0 = behind_time(trace, span, thread, level, logger, message);
    let rest = seq![' '] + s0;
    let text = wall_clock(ts) + rest;
    assert(s0 == seq!['['] + "TID:"@ + trace + seq![']', ' '] + s1);
    assert(s0[0] == '[' && s1[0] == '[' && s2[0] == '[');
    reveal_strlit("TID:");
    reveal_strlit("SpanID:");
    lemma_stamp_len(ts, rest);
    lemma_wall_clock(ts);
    assert(text.skip(23) =~= rest);
    assert(text.take(23) =~= wall_clock(ts));
    assert(rest =~= blanks(1) + s0);
    lemma_trim_blanks(1, s0);
    lemma_tagged("TID:"@, trace, s1);
    lemma_tagged("SpanID:"@, span, s2);
    lemma_left_aligned(level, 5);
    assert(tail[0] == level[0]);
    assert('A' <= level[0] <= 'Z');
    lemma_bracket(thread, tail);
    lemma_level_and_rest(level, logger, message);
}

/// A line that is written of an event for people to read is read as that event
/// again, its time cut to milliseconds. The event is one that was read of a line,
/// and its message does not begin with white space, the first of which is taken for
/// what parts it from the dash. A present time that stands in for one that the line
/// does not have must have a year of four digits and be no leap second.
pub proof fn law_text_lines_are_read_back(line: Seq<char>, event: LogEvent)
    requires
        outcome(logback_reads(line), Some(event)),
        !spaced(event.message@),
        logback_reads(line) matches Some((When::Now, _)) ==> 0 <= event.timestamp.year <= 9999
            && event.timestamp.nano < 1_000_000_000,
    ensures
        logback_reads(event.text_line()) == Some(
            (When::Wall(whole_millis(event.timestamp)), event.body()),
        ),
{
    let h = head(line)->0;
    let ts = event.timestamp;
    let (trace, span, thread) = (event.trace_id@, event.span_id@, event.thread@);
    let (level, logger, message) = (event.level@, event.logger@, event.message@);
    if let Some((_, body)) = logback_reads(line) {
        assert(event.body() == body);
    }
    lemma_stamp_range(encode_utf8(h.timestamp));
    lemma_head_shape(line);
    lemma_id_unclosed(h.trace_id, 32);
    lemma_id_unclosed(h.span_id, 16);
    lemma_trim_unclosed(h.thread);
    assert forall|i: int| 0 <= i < h.level.len() implies !is_space(#[trigger] h.level[i]) by {
        assert('A' <= h.level[i] <= 'Z');
    }
    lemma_unspaced(h.level);
    lemma_unspaced(h.logger);

    lemma_text_line(&event);
    lemma_head(ts, trace, span, thread, level, logger, message);
    law_times_are_read_back(ts);
    law_ids_have_one_writing(h.trace_id, 32);
    law_ids_have_one_writing(h.span_id, 16);
    lemma_trimmed(h.thread);
}

/// A time as the Java format has it: a blank or a `T` in the middle, and a fraction of
/// `width` digits behind `point`, or none where there is no point.
pub open spec fn java_time(
    ts: Timestamp,
    middle: char,
    point: Option<char>,
    width: nat,
    fraction: nat,
) -> Seq<char> {
    padded(ts.year as nat, 4) + seq!['-'] + padded(ts.month as nat, 2) + seq!['-'] + padded(
        ts.day as nat,
        2,
    ) + seq![middle] + padded(ts.hour as nat, 2) + seq![':'] + padded(ts.minute as nat, 2)
        + seq![':'] + padded(ts.second as nat, 2) + match point {
        Some(c) => seq![c] + padded(fraction, width),
        None => Seq::empty(),
    }
}

/// Whether a time can be written so, and what it is then: the fraction counts as what it
/// is of a second.
pub open spec fn is_java_time(
    ts: Timestamp,
    middle: char,
    point: Option<char>,
    width: nat,
    fraction: nat,
) -> bool {
    &&& ts.wf() && 0 <= ts.year <= 9999
    &&& middle == ' ' || middle == 'T'
    &&& match point {
        Some(c) => {
            &&& c == '.' || c == ','
            &&& 1 <= width <= 9
            &&& fraction < pow10(width)
            &&& ts.nano == fraction * pow10((9 - width) as nat)
            &&& ts.nano < 1_000_000_000
        },
        None => ts.nano == 0,
    }
}

proof fn lemma_digit_run(b: Seq<u8>, n: nat)
    requires
        n < b.len(),
        forall|i: int| 0 <= i < n ==> is_digit(#[trigger] b[i]),
        !is_digit(b[n as int]),
    ensures
        digit_run(b) == n,
    decreases n,
{
    if n > 0 {
        let c = b.skip(1);
        assert forall|i: int| 0 <= i < n - 1 implies is_digit(#[trigger] c[i]) by {
            assert(c[i] == b[i + 1]);
        }
        assert(is_digit(b[0]));
        lemma_digit_run(c, (n - 1) as nat);
    }
}

proof fn lemma_digits(n: nat, width: nat)
    ensures
        padded(n, width).len() == width,
        forall|i: int| 0 <= i < width ==> '0' <= #[trigger] padded(n, width)[i] <= '9',
{
    lemma_padded(n, width);
}

proof fn lemma_java_chars(
    ts: Timestamp,
    middle: char,
    point: Option<char>,
    width: nat,
    fraction: nat,
)
    requires
        is_java_time(ts, middle, point, width, fraction),
    ensures
        ({
            let s = java_time(ts, middle, point, width, fraction);
            &&& s.len() == match point {
                Some(_) => 20 + width as int,
                None => 19,
            }
            &&& is_ascii_chars(s)
            &&& s.subrange(0, 4) == padded(ts.year as nat, 4)
            &&& s[4] == '-'
            &&& s.subrange(5, 7) == padded(ts.month as nat, 2)
            &&& s[7] == '-'
            &&& s.subrange(8, 10) == padded(ts.day as nat, 2)
            &&& s[10] == middle
            &&& s.subrange(11, 13) == padded(ts.hour as nat, 2)
            &&& s[13] == ':'
            &&& s.subrange(14, 16) == padded(ts.minute as nat, 2)
            &&& s[16] == ':'
            &&& s.subrange(17, 19) == padded(ts.second as nat, 2)
            &&& point matches Some(c) ==> s[19] == c && s.subrange(20, 20 + width as int) == padded(
                fraction,
                width,
            )
        }),
{
    let s = java_time(ts, middle, point, width, fraction);
    lemma_digits(ts.year as nat, 4);
    lemma_digits(ts.month as nat, 2);
    lemma_digits(ts.day as nat, 2);
    lemma_digits(ts.hour as nat, 2);
    lemma_digits(ts.minute as nat, 2);
    lemma_digits(ts.second as nat, 2);
    lemma_digits(fraction, width);
    assert(s.subrange(0, 4) =~= padded(ts.year as nat, 4));
    assert(s.subrange(5, 7) =~= padded(ts.month as nat, 2));
    assert(s.subrange(8, 10) =~= padded(ts.day as nat, 2));
    assert(s.subrange(11, 13) =~= padded(ts.hour as nat, 2));
    assert(s.subrange(14, 16) =~= padded(ts.minute as nat, 2));
    assert(s.subrange(17, 19) =~= padded(ts.second as nat, 2));
    if point is Some {
        assert(s.subrange(20, 20 + width as int) =~= padded(fraction, width));
    }
    assert forall|i: int| 0 <= i < s.len() implies (#[trigger] s[i] as u32) < 128 by {
        if i < 4 {
            assert(s[i] == padded(ts.year as nat, 4)[i]);
        } else if 5 <= i < 7 {
            assert(s[i] == padded(ts.month as nat, 2)[i - 5]);
        } else if 8 <= i < 10 {
            assert(s[i] == padded(ts.day as nat, 2)[i - 8]);
        } else if 11 <= i < 13 {
            assert(s[i] == padded(ts.hour as nat, 2)[i - 11]);
        } else if 14 <= i < 16 {
            assert(s[i] == padded(ts.minute as nat, 2)[i - 14]);
        } else if 17 <= i < 19 {
            assert(s[i] == padded(ts.second as nat, 2)[i - 17]);
        } else if 20 <= i {
            assert(s[i] == padded(fraction, width)[i - 20]);
        }
    }
}

/// What the bytes of a time are.
spec fn has_fields(b: Seq<u8>, ts: Timestamp, middle: char) -> bool {
    &&& b.len() >= 19
    &&& field(b, 0, 4) == Some(ts.year as nat)
    &&& b[4] == '-' as u8
    &&& field(b, 5, 7) == Some(ts.month as nat)
    &&& b[7] == '-' as u8
    &&& field(b, 8, 10) == Some(ts.day as nat)
    &&& b[10] == middle as u8
    &&& field(b, 11, 13) == Some(ts.hour as nat)
    &&& b[13] == ':' as u8
    &&& field(b, 14, 16) == Some(ts.minute as nat)
    &&& b[16] == ':' as u8
    &&& field(b, 17, 19) == Some(ts.second as nat)
}

proof fn lemma_java_fields(
    ts: Timestamp,
    middle: char,
    point: Option<char>,
    width: nat,
    fraction: nat,
)
    requires
        is_java_time(ts, middle, point, width, fraction),
    ensures
        ({
            let s = java_time(ts, middle, point, width, fraction);
            let b = encode_utf8(s);
            &&& b.len() == s.len()
            &&& has_fields(b, ts, middle)
            &&& point matches Some(c) ==> b[19] == c as u8 && field(b, 20, 20 + width as int)
                == Some(fraction)
        }),
{
    let s = java_time(ts, middle, point, width, fraction);
    lemma_java_chars(ts, middle, point, width, fraction);
    is_ascii_chars_encode_utf8(s);
    reveal_with_fuel(pow10, 5);
    lemma_field(s, 0, ts.year as nat, 4);
    lemma_field(s, 5, ts.month as nat, 2);
    lemma_field(s, 8, ts.day as nat, 2);
    lemma_field(s, 11, ts.hour as nat, 2);
    lemma_field(s, 14, ts.minute as nat, 2);
    lemma_field(s, 17, ts.second as nat, 2);
    if point is Some {
        lemma_field(s, 20, fraction, width);
    }
}

proof fn lemma_java_time(
    ts: Timestamp,
    middle: char,
    point: Option<char>,
    width: nat,
    fraction: nat,
    rest: Seq<char>,
)
    requires
        is_java_time(ts, middle, point, width, fraction),
        rest.len() > 0,
        rest[0] == ' ',
    ensures
        ({
            let s = java_time(ts, middle, point, width, fraction);
            &&& stamp(encode_utf8(s)) == Some(ts)
            &&& stamp_len(encode_utf8(s + rest)) == Some(s.len() as int)
        }),
{
    let s = java_time(ts, middle, point, width, fraction);
    lemma_java_chars(ts, middle, point, width, fraction);
    lemma_java_fields(ts, middle, point, width, fraction);
    let n = s.len() as int;
    let a = encode_utf8(s);
    let f = a.skip(19);
    if let Some(c) = point {
        assert(f.skip(1) =~= a.subrange(20, 20 + width as int));
        assert(f[0] == a[19]);
        assert((10 - f.len()) as nat == (9 - width) as nat);
    } else {
        assert(f =~= Seq::<u8>::empty());
    }
    let b = encode_utf8(s + rest);
    lemma_encode_add(s, rest);
    assert(rest =~= seq![' '] + rest.skip(1));
    lemma_encode_add(seq![' '], rest.skip(1));
    assert(is_ascii_chars(seq![' ']));
    is_ascii_chars_encode_utf8(seq![' ']);
    assert(b[n] == ' ' as u8);
    assert(b.subrange(0, 4) =~= a.subrange(0, 4));
    assert(b.subrange(5, 7) =~= a.subrange(5, 7));
    assert(b.subrange(8, 10) =~= a.subrange(8, 10));
    assert(b.subrange(11, 13) =~= a.subrange(11, 13));
    assert(b.subrange(14, 16) =~= a.subrange(14, 16));
    assert(b.subrange(17, 19) =~= a.subrange(17, 19));
    if point is Some {
        let digits = a.subrange(20, 20 + width as int);
        lemma_number_digits(digits);
        let tail = b.skip(20);
        assert forall|i: int| 0 <= i < width implies is_digit(#[trigger] tail[i]) by {
            assert(tail[i] == digits[i]);
        }
        assert(tail[width as int] == b[n]);
        lemma_digit_run(tail, width);
    }
}

/// A time of the Java format is read as that time.
pub proof fn lemma_time_is_read(
    ts: Timestamp,
    middle: char,
    point: Option<char>,
    width: nat,
    fraction: nat,
)
    requires
        is_java_time(ts, middle, point, width, fraction),
    ensures
        stamp(encode_utf8(java_time(ts, middle, point, width, fraction))) == Some(ts),
{
    lemma_java_time(ts, middle, point, width, fraction, seq![' ']);
}

/// A part in brackets, behind its tag, where there is one.
pub open spec fn in_brackets(tag: Seq<char>, part: Option<Seq<char>>) -> Seq<char> {
    match part {
        Some(part) => seq!['['] + tag + part + seq![']', ' '],
        None => Seq::empty(),
    }
}

/// Whether a part can stand in brackets, if it is there.
pub open spec fn fits_brackets(part: Option<Seq<char>>) -> bool {
    part matches Some(part) ==> unclosed(part)
}

/// A line of the Java format. All three brackets may be missing, the level may stand in
/// brackets, and a blank may follow the dash.
pub open spec fn java_line(
    time: Seq<char>,
    trace: Option<Seq<char>>,
    span: Option<Seq<char>>,
    thread: Option<Seq<char>>,
    level: Seq<char>,
    boxed: bool,
    logger: Seq<char>,
    gap: bool,
    message: Seq<char>,
) -> Seq<char> {
    time + seq![' '] + (in_brackets(seq!['T', 'I', 'D', ':'], trace) + (in_brackets(
        seq!['S', 'p', 'a', 'n', 'I', 'D', ':'],
        span,
    ) + (in_brackets(Seq::empty(), thread) + ((if boxed {
        seq!['['] + level + seq![']']
    } else {
        level
    }) + seq![' '] + logger + (if gap {
        seq![' ', '-', ' ']
    } else {
        seq![' ', '-']
    }) + message))))
}

proof fn lemma_level_shown(
    level: Seq<char>,
    boxed: bool,
    logger: Seq<char>,
    gap: bool,
    message: Seq<char>,
)
    requires
        upper(level),
        level.len() > 0,
        unspaced(logger),
        logger.len() > 0,
        gap || !spaced(message),
    ensures
        ({
            let s = (if boxed {
                seq!['['] + level + seq![']']
            } else {
                level
            }) + seq![' '] + logger + (if gap {
                seq![' ', '-', ' ']
            } else {
                seq![' ', '-']
            }) + message;
            &&& level_and_rest(s) == Some((level, logger, message))
            &&& s.len() > 0
            &&& !is_space(s[0])
            &&& s[0] == if boxed {
                '['
            } else {
                level[0]
            }
        }),
{
    let dash = (if gap {
        seq![' ', '-', ' ']
    } else {
        seq![' ', '-']
    });
    let s = (if boxed {
        seq!['['] + level + seq![']']
    } else {
        level
    }) + seq![' '] + logger + dash + message;
    let word = logger + dash + message;
    let open = if boxed {
        s.skip(1)
    } else {
        s
    };
    let after = seq![' '] + word;
    let behind = if boxed {
        seq![']'] + after
    } else {
        after
    };
    assert('A' <= level[0] <= 'Z');
    assert(s[0] == if boxed {
        '['
    } else {
        level[0]
    });
    assert(open =~= level + behind);
    assert forall|i: int| 0 <= i < level.len() implies !Stop::NonUpper.hit(#[trigger] open[i]) by {
        assert(open[i] == level[i]);
    }
    assert(open[level.len() as int] == behind[0]);
    lemma_scan_unique(open, Stop::NonUpper, level.len() as int);
    assert(open.take(level.len() as int) =~= level);
    assert(open.skip(level.len() as int) =~= behind);
    if boxed {
        assert(behind.skip(1) =~= after);
    }
    assert(after[0] == ' ');
    assert(!is_space(logger[0]));
    assert(word[0] == logger[0]);
    assert(after =~= blanks(1) + word);
    lemma_trim_blanks(1, word);
    assert forall|i: int| 0 <= i < logger.len() implies !Stop::Space.hit(#[trigger] word[i]) by {
        assert(word[i] == logger[i]);
    }
    assert(word[logger.len() as int] == ' ');
    lemma_scan_unique(word, Stop::Space, logger.len() as int);
    assert(word.take(logger.len() as int) =~= logger);
    let tail = word.skip(logger.len() as int);
    let text = if gap {
        seq![' '] + message
    } else {
        message
    };
    assert(tail =~= blanks(1) + (seq!['-'] + text));
    lemma_trim_blanks(1, seq!['-'] + text);
    assert((seq!['-'] + text).skip(1) =~= text);
    if gap {
        assert(text.skip(1) =~= message);
    }
}

/// Brackets with another tag, or none at all, are left where they are.
proof fn lemma_untagged(s: Seq<char>, tag: Seq<char>)
    requires
        bracket(s) matches Some((body, _)) ==> !tag.is_prefix_of(body),
    ensures
        tagged(s, tag) == (Seq::<char>::empty(), s),
{
}

/// What stands in the first brackets of a text that starts with some, or that there are
/// none where it starts otherwise.
proof fn lemma_next_bracket(
    tag: Seq<char>,
    part: Option<Seq<char>>,
    rest: Seq<char>,
)
    requires
        unclosed(tag),
        fits_brackets(part),
        rest.len() > 0,
        !is_space(rest[0]),
    ensures
        part matches Some(part) ==> bracket(in_brackets(tag, Some(part)) + rest) == Some(
            (tag + part, rest),
        ),
        part is None ==> in_brackets(tag, part) + rest == rest,
        (in_brackets(tag, part) + rest).len() > 0,
        !is_space((in_brackets(tag, part) + rest)[0]),
{
    match part {
        Some(p) => {
            let body = tag + p;
            lemma_bracket(body, rest);
            assert(in_brackets(tag, part) + rest =~= seq!['['] + body + seq![']', ' '] + rest);
        },
        None => {
            assert(in_brackets(tag, part) + rest =~= rest);
        },
    }
}

/// Each line of the Java format is read as the parts that it is put together of: the
/// time, the two ids in the writing that is stored, the thread, the level, the logger and
/// the message, each of the brackets missing or not, the level in brackets or not, a blank
/// behind the dash or not.
pub proof fn law_java_lines_are_read(
    ts: Timestamp,
    middle: char,
    point: Option<char>,
    width: nat,
    fraction: nat,
    trace: Option<Seq<char>>,
    span: Option<Seq<char>>,
    thread: Option<Seq<char>>,
    level: Seq<char>,
    boxed: bool,
    logger: Seq<char>,
    gap: bool,
    message: Seq<char>,
)
    requires
        is_java_time(ts, middle, point, width, fraction),
        fits_brackets(trace) && fits_brackets(span) && fits_brackets(thread),
        thread matches Some(t) ==> !seq!['T', 'I', 'D', ':'].is_prefix_of(t) && !seq![
            'S',
            'p',
            'a',
            'n',
            'I',
            'D',
            ':',
        ].is_prefix_of(t),
        upper(level) && level.len() > 0,
        unspaced(logger) && logger.len() > 0,
        boxed && thread is None ==> !('A' <= logger[0] <= 'Z') && logger[0] != '[',
        gap || !spaced(message),
    ensures
        ({
            let time = java_time(ts, middle, point, width, fraction);
            let line = java_line(time, trace, span, thread, level, boxed, logger, gap, message);
            match logback_reads(line) {
                Some((When::Wall(at), body)) => {
                    &&& at == ts
                    &&& body.message == message
                    &&& body.level == level
                    &&& body.logger == logger
                    &&& body.thread == match thread {
                        Some(t) => trimmed(t),
                        None => Seq::empty(),
                    }
                    &&& body.trace_id == match trace {
                        Some(id) => normal_id(id, 32),
                        None => Seq::empty(),
                    }
                    &&& body.span_id == match span {
                        Some(id) => normal_id(id, 16),
                        None => Seq::empty(),
                    }
                    &&& body.file.len() == 0 && body.host.len() == 0
                    &&& body.fields == Map::<Seq<char>, ValueView>::empty()
                },
                _ => false,
            }
        }),
{
    let time = java_time(ts, middle, point, width, fraction);
    let line = java_line(time, trace, span, thread, level, boxed, logger, gap, message);
    let none = Seq::<char>::empty();
    let tail = shown(level, boxed, logger, gap, message);
    let s2 = in_brackets(none, thread) + tail;
    let s1 = in_brackets(seq!['S', 'p', 'a', 'n', 'I', 'D', ':'], span) + s2;
    let s0 = in_brackets(seq!['T', 'I', 'D', ':'], trace) + s1;
    let rest = seq![' '] + s0;
    assert(line =~= time + rest);
    lemma_java_time(ts, middle, point, width, fraction, rest);
    assert(line.skip(time.len() as int) =~= rest);
    assert(line.take(time.len() as int) =~= time);
    lemma_level_shown(level, boxed, logger, gap, message);
    lemma_threads(thread, level, boxed, logger, gap, message);
    lemma_tags(trace, span, s2);
    assert(rest =~= blanks(1) + s0);
    lemma_trim_blanks(1, s0);
    lemma_unspaced(logger);
    assert forall|i: int| 0 <= i < level.len() implies !is_space(#[trigger] level[i]) by {
        assert('A' <= level[i] <= 'Z');
    }
    lemma_unspaced(level);
    lemma_unspaced(none);
    lemma_blank_id(32);
    lemma_blank_id(16);
}

/// A part that may be missing.
spec fn or_none(part: Option<Seq<char>>) -> Seq<char> {
    match part {
        Some(part) => part,
        None => Seq::empty(),
    }
}

/// Level, logger and message of a line.
spec fn shown(
    level: Seq<char>,
    boxed: bool,
    logger: Seq<char>,
    gap: bool,
    message: Seq<char>,
) -> Seq<char> {
    (if boxed {
        seq!['['] + level + seq![']']
    } else {
        level
    }) + seq![' '] + logger + (if gap {
        seq![' ', '-', ' ']
    } else {
        seq![' ', '-']
    }) + message
}

/// The thread is found, or that there is none; its brackets have no tag.
proof fn lemma_threads(
    thread: Option<Seq<char>>,
    level: Seq<char>,
    boxed: bool,
    logger: Seq<char>,
    gap: bool,
    message: Seq<char>,
)
    requires
        fits_brackets(thread),
        thread matches Some(t) ==> !seq!['T', 'I', 'D', ':'].is_prefix_of(t) && !seq![
            'S',
            'p',
            'a',
            'n',
            'I',
            'D',
            ':',
        ].is_prefix_of(t),
        upper(level) && level.len() > 0,
        unspaced(logger) && logger.len() > 0,
        boxed && thread is None ==> !('A' <= logger[0] <= 'Z') && logger[0] != '[',
        gap || !spaced(message),
    ensures
        ({
            let s = in_brackets(Seq::empty(), thread) + shown(level, boxed, logger, gap, message);
            &&& s.len() > 0
            &&& !is_space(s[0])
            &&& thread_and_rest(s) == Some((or_none(thread), (level, logger, message)))
            &&& bracket(s) matches Some((body, _)) ==> !seq!['T', 'I', 'D', ':'].is_prefix_of(body)
                && !seq!['S', 'p', 'a', 'n', 'I', 'D', ':'].is_prefix_of(body)
        }),
{
    let none = Seq::<char>::empty();
    let tail = shown(level, boxed, logger, gap, message);
    lemma_level_shown(level, boxed, logger, gap, message);
    lemma_boxed_level(level, boxed, logger, gap, message);
    lemma_next_bracket(none, thread, tail);
    if let Some(t) = thread {
        assert(none + t =~= t);
    }
}

/// The two ids are found, or that there are none.
proof fn lemma_tags(trace: Option<Seq<char>>, span: Option<Seq<char>>, s2: Seq<char>)
    requires
        fits_brackets(trace) && fits_brackets(span),
        s2.len() > 0,
        !is_space(s2[0]),
        bracket(s2) matches Some((body, _)) ==> !seq!['T', 'I', 'D', ':'].is_prefix_of(body)
            && !seq!['S', 'p', 'a', 'n', 'I', 'D', ':'].is_prefix_of(body),
    ensures
        ({
            let s1 = in_brackets(seq!['S', 'p', 'a', 'n', 'I', 'D', ':'], span) + s2;
            let s0 = in_brackets(seq!['T', 'I', 'D', ':'], trace) + s1;
            &&& tagged(s0, "TID:"@) == (or_none(trace), s1)
            &&& tagged(s1, "SpanID:"@) == (or_none(span), s2)
            &&& s0.len() > 0
            &&& !is_space(s0[0])
        }),
{
    let tid = seq!['T', 'I', 'D', ':'];
    let sid = seq!['S', 'p', 'a', 'n', 'I', 'D', ':'];
    let s1 = in_brackets(sid, span) + s2;
    let s0 = in_brackets(tid, trace) + s1;
    reveal_strlit("TID:");
    reveal_strlit("SpanID:");
    assert("TID:"@ =~= tid);
    assert("SpanID:"@ =~= sid);
    lemma_next_bracket(sid, span, s2);
    lemma_next_bracket(tid, trace, s1);
    if let Some(id) = trace {
        assert((tid + id).skip(4) =~= id);
        assert(tid.is_prefix_of(tid + id));
    } else {
        if let Some(id) = span {
            assert((sid + id)[0] == 'S');
            lemma_not_prefix(tid, sid + id);
        }
        lemma_untagged(s0, tid);
    }
    if let Some(id) = span {
        assert((sid + id).skip(7) =~= id);
        assert(sid.is_prefix_of(sid + id));
    } else {
        lemma_untagged(s1, sid);
    }
}

proof fn lemma_blank_id(width: int)
    ensures
        normal_id(Seq::empty(), width) == Seq::<char>::empty(),
{
    lemma_unspaced(Seq::empty());
}

proof fn lemma_not_prefix(a: Seq<char>, b: Seq<char>)
    requires
        a.len() > 0,
        b.len() > 0,
        a[0] != b[0],
    ensures
        !a.is_prefix_of(b),
{
    if a.is_prefix_of(b) {
        assert(b.take(a.len() as int)[0] == b[0]);
        assert(a[0] == b[0]);
    }
}

/// Brackets around a level are not those of a thread, and of no tag.
proof fn lemma_boxed_level(
    level: Seq<char>,
    boxed: bool,
    logger: Seq<char>,
    gap: bool,
    message: Seq<char>,
)
    requires
        upper(level),
        level.len() > 0,
        unspaced(logger),
        logger.len() > 0,
    ensures
        ({
            let more = logger + (if gap {
                seq![' ', '-', ' ']
            } else {
                seq![' ', '-']
            }) + message;
            let s = (if boxed {
                seq!['['] + level + seq![']']
            } else {
                level
            }) + seq![' '] + more;
            let t = (if boxed {
                seq!['['] + level + seq![']']
            } else {
                level
            }) + seq![' '] + logger + (if gap {
                seq![' ', '-', ' ']
            } else {
                seq![' ', '-']
            }) + message;
            &&& s == t
            &&& boxed ==> bracket(s) == Some((level, more))
            &&& !boxed ==> bracket(s) is None
            &&& !('A' <= logger[0] <= 'Z') && logger[0] != '[' ==> level_and_rest(more) is None
            &&& !seq!['T', 'I', 'D', ':'].is_prefix_of(level)
            &&& !seq!['S', 'p', 'a', 'n', 'I', 'D', ':'].is_prefix_of(level)
        }),
{
    let dash = if gap {
        seq![' ', '-', ' ']
    } else {
        seq![' ', '-']
    };
    let more = logger + dash + message;
    let s = (if boxed {
        seq!['['] + level + seq![']']
    } else {
        level
    }) + seq![' '] + more;
    assert(s =~= (if boxed {
        seq!['['] + level + seq![']']
    } else {
        level
    }) + seq![' '] + logger + dash + message);
    assert(!is_space(logger[0]));
    assert(more[0] == logger[0]);
    assert('A' <= level[0] <= 'Z');
    assert forall|i: int| 0 <= i < level.len() implies #[trigger] level[i] != ']' by {
        assert('A' <= level[i] <= 'Z');
    }
    if boxed {
        lemma_bracket(level, more);
        assert(s =~= seq!['['] + level + seq![']', ' '] + more);
    } else {
        assert(s[0] == level[0]);
    }
    if !('A' <= logger[0] <= 'Z') && logger[0] != '[' {
        lemma_scan_unique(more, Stop::NonUpper, 0);
    }
    let tid = seq!['T', 'I', 'D', ':'];
    let sid = seq!['S', 'p', 'a', 'n', 'I', 'D', ':'];
    if tid.is_prefix_of(level) {
        assert(level.take(4)[3] == level[3]);
        assert(tid[3] == ':');
        assert('A' <= level[3] <= 'Z');
    }
    if sid.is_prefix_of(level) {
        assert(level.take(7)[1] == level[1]);
        assert(sid[1] == 'p');
        assert('A' <= level[1] <= 'Z');
    }
}

/// A line that does not start with a digit, as those of a stack trace, is not read.
pub proof fn law_other_lines_are_not_read(line: Seq<char>)
    requires
        line.len() == 0 || !('0' <= line[0] <= '9'),
    ensures
        logback_reads(line) is None,
{
    let b = encode_utf8(line);
    if stamp_len(b) is Some {
        lemma_number_digits(b.subrange(0, 4));
        assert(is_digit(b.subrange(0, 4)[0]));
        assert(b[0] < 128);
        lemma_ascii_prefix(line, 1);
        let one = line.take(1);
        is_ascii_chars_encode_utf8(one);
        assert(encode_utf8(one)[0] == b[0]);
        assert(one[0] == line[0]);
        assert(line[0] as u8 == b[0]);
        assert((line[0] as u32) < 128);
    }
}

/// Whether a time of the Java format stands at the start of a line and is `n` characters long,
/// with a blank behind it.
pub open spec fn starts_with_time(line: Seq<char>, n: int) -> bool {
    &&& 19 <= n < line.len()
    &&& forall|i: int|
        0 <= i < 19 && i != 4 && i != 7 && i != 10 && i != 13 && i != 16 ==> '0'
            <= #[trigger] line[i] <= '9'
    &&& line[4] == '-' && line[7] == '-' && line[13] == ':' && line[16] == ':'
    &&& line[10] == ' ' || line[10] == 'T'
    &&& n > 19 ==> {
        &&& line[19] == '.' || line[19] == ','
        &&& 21 <= n <= 29
        &&& forall|i: int| 20 <= i < n ==> '0' <= #[trigger] line[i] <= '9'
    }
    &&& is_space(line[n])
}

/// Only a line that starts with a time, a fraction of one to nine digits behind it or none and
/// then a blank, and that has a level of capital letters and a logger is read.
pub proof fn law_lines_that_are_read_have_all_parts(line: Seq<char>)
    ensures
        logback_reads(line) matches Some((_, body)) ==> {
            &&& exists|n: int| #[trigger] starts_with_time(line, n)
            &&& body.level.len() > 0 && upper(body.level)
            &&& body.logger.len() > 0 && unspaced(body.logger)
        },
{
    if logback_reads(line) is Some {
        let h = head(line)->0;
        lemma_head_shape(line);
        lemma_upper_unspaced(h.level);
        lemma_unspaced(h.level);
        lemma_unspaced(h.logger);
        let b = encode_utf8(line);
        let n = stamp_len(b)->0;
        lemma_number_digits(b.subrange(0, 4));
        lemma_number_digits(b.subrange(5, 7));
        lemma_number_digits(b.subrange(8, 10));
        lemma_number_digits(b.subrange(11, 13));
        lemma_number_digits(b.subrange(14, 16));
        lemma_number_digits(b.subrange(17, 19));
        lemma_run(b.skip(20));
        assert forall|i: int|
            0 <= i < 19 && i != 4 && i != 7 && i != 10 && i != 13 && i != 16 implies is_digit(
            #[trigger] b[i],
        ) by {
            if i < 4 {
                assert(is_digit(b.subrange(0, 4)[i]));
            } else if i < 7 {
                assert(is_digit(b.subrange(5, 7)[i - 5]));
            } else if i < 10 {
                assert(is_digit(b.subrange(8, 10)[i - 8]));
            } else if i < 13 {
                assert(is_digit(b.subrange(11, 13)[i - 11]));
            } else if i < 16 {
                assert(is_digit(b.subrange(14, 16)[i - 14]));
            } else {
                assert(is_digit(b.subrange(17, 19)[i - 17]));
            }
        }
        assert forall|i: int| 20 <= i < n implies is_digit(#[trigger] b[i]) by {
            assert(is_digit(b.skip(20)[i - 20]));
        }
        lemma_ascii_prefix(line, n);
        let front = line.take(n);
        is_ascii_chars_encode_utf8(front);
        assert forall|i: int| 0 <= i < n implies line[i] as u8 == #[trigger] b[i] && '\0' <= line[i]
            <= '\u{7f}' by {
            assert(front[i] == line[i]);
            assert(encode_utf8(front)[i] == b[i]);
        }
        assert forall|i: int| 20 <= i < n implies '0' <= #[trigger] line[i] <= '9' by {
            assert(is_digit(b[i]));
        }
        assert forall|i: int|
            0 <= i < 19 && i != 4 && i != 7 && i != 10 && i != 13 && i != 16 implies '0'
            <= #[trigger] line[i] <= '9' by {
            assert(is_digit(b[i]));
        }
        assert(b[4] == '-' as u8 && b[7] == '-' as u8 && b[13] == ':' as u8 && b[16] == ':' as u8);
        assert(line.skip(n)[0] == line[n]);
        assert(starts_with_time(line, n));
    }
}

proof fn lemma_run(b: Seq<u8>)
    ensures
        digit_run(b) <= b.len(),
        forall|i: int| 0 <= i < digit_run(b) ==> is_digit(#[trigger] b[i]),
    decreases b.len(),
{
    if b.len() > 0 && is_digit(b[0]) {
        let c = b.skip(1);
        lemma_run(c);
        assert forall|i: int| 0 <= i < digit_run(b) implies is_digit(#[trigger] b[i]) by {
            if i > 0 {
                assert(b[i] == c[i - 1]);
            }
        }
    }
}

proof fn lemma_upper_unspaced(s: Seq<char>)
    requires
        upper(s),
    ensures
        unspaced(s),
{
    assert forall|i: int| 0 <= i < s.len() implies !is_space(#[trigger] s[i]) by {
        assert('A' <= s[i] <= 'Z');
    }
}

/// Whether one text is the end of another.
pub open spec fn is_end_of(a: Seq<char>, b: Seq<char>) -> bool {
    a.len() <= b.len() && a == b.skip(b.len() - a.len())
}

/// Whether a level, in brackets or not, stands at the start of a text, a blank behind it, and
/// then a logger.
pub open spec fn shows_level(s: Seq<char>, level: Seq<char>, logger: Seq<char>) -> bool {
    exists|open: Seq<char>, close: Seq<char>, rest: Seq<char>|
        {
            &&& s == #[trigger] (open + level + close + rest)
            &&& open == seq!['['] || open.len() == 0
            &&& close == seq![']'] || close.len() == 0
            &&& rest.len() > 0 && is_space(rest[0])
            &&& logger.is_prefix_of(trimmed_start(rest))
        }
}

/// The level and the logger of a line that is read stand in it one behind the other, with a
/// blank between them.
pub proof fn law_levels_and_loggers_stand_apart(line: Seq<char>)
    ensures
        logback_reads(line) matches Some((_, body)) ==> exists|s: Seq<char>| #[trigger]
            is_end_of(s, line) && shows_level(s, body.level, body.logger),
{
    if logback_reads(line) is Some {
        let h = head(line)->0;
        lemma_head_shape(line);
        lemma_upper_unspaced(h.level);
        lemma_unspaced(h.level);
        lemma_unspaced(h.logger);
        let n = stamp_len(encode_utf8(line))->0;
        lemma_time_fits(line);
        let after = line.skip(n);
        assert(is_end_of(after, line));
        let s0 = trimmed_start(after);
        lemma_end_trim(after, line);
        let s1 = tagged(s0, "TID:"@).1;
        lemma_end_tagged(s0, "TID:"@, line);
        let s2 = tagged(s1, "SpanID:"@).1;
        lemma_end_tagged(s1, "SpanID:"@, line);
        lemma_shown(s2);
        if let Some((_, next)) = bracket(s2) {
            lemma_end_bracket(s2, line);
            lemma_shown(next);
            if level_and_rest(next) is Some {
                assert(is_end_of(next, line) && shows_level(next, h.level, h.logger));
            } else {
                assert(is_end_of(s2, line) && shows_level(s2, h.level, h.logger));
            }
        } else {
            assert(is_end_of(s2, line) && shows_level(s2, h.level, h.logger));
        }
    }
}

proof fn lemma_time_fits(line: Seq<char>)
    requires
        logback_reads(line) is Some,
    ensures
        0 <= stamp_len(encode_utf8(line))->0 <= line.len(),
{
    let b = encode_utf8(line);
    let n = stamp_len(b)->0;
    lemma_run(b.skip(20));
    lemma_number_digits(b.subrange(0, 4));
    lemma_number_digits(b.subrange(5, 7));
    lemma_number_digits(b.subrange(8, 10));
    lemma_number_digits(b.subrange(11, 13));
    lemma_number_digits(b.subrange(14, 16));
    lemma_number_digits(b.subrange(17, 19));
    assert forall|i: int| 0 <= i < n implies #[trigger] b[i] < 128 by {
        if i >= 20 {
            assert(is_digit(b.skip(20)[i - 20]));
        } else if i < 4 {
            assert(is_digit(b.subrange(0, 4)[i]));
        } else if 5 <= i < 7 {
            assert(is_digit(b.subrange(5, 7)[i - 5]));
        } else if 8 <= i < 10 {
            assert(is_digit(b.subrange(8, 10)[i - 8]));
        } else if 11 <= i < 13 {
            assert(is_digit(b.subrange(11, 13)[i - 11]));
        } else if 14 <= i < 16 {
            assert(is_digit(b.subrange(14, 16)[i - 14]));
        } else if 17 <= i < 19 {
            assert(is_digit(b.subrange(17, 19)[i - 17]));
        }
    }
    lemma_ascii_prefix(line, n);
}

proof fn lemma_end_skip(a: Seq<char>, b: Seq<char>, k: int)
    requires
        is_end_of(a, b),
        0 <= k <= a.len(),
    ensures
        is_end_of(a.skip(k), b),
{
    assert(a.skip(k) =~= b.skip(b.len() - a.len() + k));
}

proof fn lemma_end_trim(a: Seq<char>, b: Seq<char>)
    requires
        is_end_of(a, b),
    ensures
        is_end_of(trimmed_start(a), b),
{
    lemma_scan(a, Stop::NonSpace);
    lemma_end_skip(a, b, scan(a, Stop::NonSpace));
}

proof fn lemma_end_bracket(s: Seq<char>, line: Seq<char>)
    requires
        is_end_of(s, line),
    ensures
        bracket(s) matches Some((_, next)) ==> is_end_of(next, line),
{
    if bracket(s) is Some {
        let inner = s.skip(1);
        lemma_end_skip(s, line, 1);
        lemma_scan(inner, Stop::Char(']'));
        let k = scan(inner, Stop::Char(']'));
        lemma_end_skip(inner, line, k + 1);
        lemma_end_trim(inner.skip(k + 1), line);
    }
}

proof fn lemma_end_tagged(s: Seq<char>, tag: Seq<char>, line: Seq<char>)
    requires
        is_end_of(s, line),
    ensures
        is_end_of(tagged(s, tag).1, line),
{
    lemma_end_bracket(s, line);
}

proof fn lemma_shown(s: Seq<char>)
    ensures
        level_and_rest(s) matches Some((level, logger, _)) ==> shows_level(s, level, logger),
{
    if let Some((level, logger, _)) = level_and_rest(s) {
        let inner = without(s, '[');
        lemma_scan(inner, Stop::NonUpper);
        let n = scan(inner, Stop::NonUpper);
        let behind = inner.skip(n);
        let rest = without(behind, ']');
        let open = if s.len() > 0 && s[0] == '[' {
            seq!['[']
        } else {
            Seq::<char>::empty()
        };
        let close = if behind.len() > 0 && behind[0] == ']' {
            seq![']']
        } else {
            Seq::<char>::empty()
        };
        assert(behind =~= close + rest);
        assert(inner =~= level + behind);
        assert(s =~= open + inner);
        assert(s =~= open + level + close + rest);
        let word = trimmed_start(rest);
        lemma_scan(word, Stop::Space);
        assert(logger.is_prefix_of(word));
    }
}

} // verus!
