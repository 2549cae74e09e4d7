//! The parts of an event: its ids, the groups of a pattern, and the format that a line is
//! in.

use vstd::prelude::*;
use vstd::utf8::*;

use crate::config::Config;
use crate::error::Error;
use crate::event::LogEvent;
use crate::laws::retelling::{is_java_time, java_time, lemma_time_is_read};
use crate::parser::api::Parser;
use crate::parser::access::{gin_reads, nginx_reads};
use crate::parser::chain::{formats_read, BoxedParser, ChainParser, LogFormat};
use crate::parser::ids::{all_hex, is_hex, lower, lowered, normalize_span_id, normalize_trace_id};
use crate::parser::ids::zeros;
use crate::parser::logback::logback_reads;
use crate::parser::pattern::{captured_event, group_text, groups_view, regex_reads};
use crate::text::{opt_string_view, trimmed};
use crate::time::{clock_says, Timestamp};

verus! {

/// Whether a character is a hexadecimal digit in either case.
pub open spec fn is_hexadecimal(c: char) -> bool {
    ('0' <= c <= '9') || ('a' <= c <= 'f') || ('A' <= c <= 'F')
}

/// Whether one hexadecimal digit is the other in lower case.
pub open spec fn is_small(d: char, c: char) -> bool {
    if 'A' <= c <= 'F' {
        d as int == c as int + ('a' as int - 'A' as int)
    } else {
        d == c
    }
}

/// Whether a text stands for no id: it is empty, or `N/A` in any case.
pub open spec fn is_no_id(s: Seq<char>) -> bool {
    s.len() == 0 || (s.len() == 3 && (s[0] == 'N' || s[0] == 'n') && s[1] == '/' && (s[2] == 'A'
        || s[2] == 'a'))
}

/// Whether an id is written as it is stored: hexadecimal digits in lower case behind
/// `filled` zeros.
pub open spec fn is_stored(id: Seq<char>, raw: Seq<char>, filled: int) -> bool {
    &&& id.len() == raw.len() + filled
    &&& forall|i: int| 0 <= i < filled ==> #[trigger] id[i] == '0'
    &&& forall|i: int| 0 <= i < raw.len() ==> is_small(id[filled + i], #[trigger] raw[i])
}

/// Ids are stored in one writing: what stands for no id is empty, hexadecimal ids are in
/// lower case, trace ids of half the length are filled up with zeros, span ids never are,
/// and anything else stays as it is.
pub proof fn law_ids_are_stored_in_one_writing(raw: &str, trace: String, span: String)
    requires
        call_ensures(normalize_trace_id, (raw,), trace),
        call_ensures(normalize_span_id, (raw,), span),
    ensures
        ({
            let id = trimmed(raw@);
            let hexadecimal = forall|i: int| 0 <= i < id.len() ==> is_hexadecimal(#[trigger] id[i]);
            &&& is_no_id(id) ==> trace@.len() == 0 && span@.len() == 0
            &&& !is_no_id(id) && !hexadecimal ==> trace@ == id && span@ == id
            &&& !is_no_id(id) && hexadecimal ==> {
                &&& is_stored(
                    trace@,
                    id,
                    if id.len() == 16 {
                        16
                    } else {
                        0
                    },
                )
                &&& is_stored(span@, id, 0)
            }
        }),
{
    let id = trimmed(raw@);
    let hexadecimal = forall|i: int| 0 <= i < id.len() ==> is_hexadecimal(#[trigger] id[i]);
    if hexadecimal {
        assert forall|i: int| 0 <= i < id.len() implies is_hex(#[trigger] id[i]) by {
            assert(is_hexadecimal(id[i]));
        }
        if id.len() == 3 && id[1] == '/' {
            assert(is_hexadecimal(id[1]));
        }
        assert forall|i: int| 0 <= i < id.len() implies is_small(
            lowered(id)[i],
            #[trigger] id[i],
        ) by {
            assert(is_hexadecimal(id[i]));
            lemma_small(id[i]);
        }
        let long = zeros(16) + lowered(id);
        assert forall|i: int| 0 <= i < id.len() implies is_small(long[16 + i], #[trigger] id[i]) by {
            assert(is_small(lowered(id)[i], id[i]));
        }
    } else if all_hex(id) {
        assert forall|i: int| 0 <= i < id.len() implies is_hexadecimal(#[trigger] id[i]) by {
            assert(is_hex(id[i]));
        }
    }
    if id.len() == 3 {
        lemma_letter(id[0]);
        lemma_letter(id[2]);
    }
}

proof fn lemma_small(c: char)
    requires
        is_hexadecimal(c),
    ensures
        is_small(lower(c), c),
{
}

proof fn lemma_letter(c: char)
    ensures
        lower(c) == 'n' <==> c == 'N' || c == 'n',
        lower(c) == 'a' <==> c == 'A' || c == 'a',
{
}

/// Whether the first group of this name holds a text, or there is none and the text is
/// missing.
pub open spec fn is_group(
    names: Seq<Option<Seq<char>>>,
    texts: Seq<Option<Seq<char>>>,
    name: Seq<char>,
    text: Option<Seq<char>>,
) -> bool {
    ||| exists|k: int|
        0 <= k < names.len() && #[trigger] names[k] == Some(name) && text == texts[k] && forall|
            j: int,
        |
            0 <= j < k ==> #[trigger] names[j] != Some(name)
    ||| text is None && forall|k: int| 0 <= k < names.len() ==> #[trigger] names[k] != Some(name)
}

proof fn lemma_group(
    names: Seq<Option<Seq<char>>>,
    texts: Seq<Option<Seq<char>>>,
    name: Seq<char>,
    text: Option<Seq<char>>,
)
    requires
        names.len() == texts.len(),
        is_group(names, texts, name, text),
    ensures
        group_text(names, texts, name) == text,
    decreases names.len(),
{
    if names.len() > 0 {
        let ns = names.drop_first();
        let ts = texts.drop_first();
        if names[0] == Some(name) {
            if exists|k: int|
                0 <= k < names.len() && #[trigger] names[k] == Some(name) && text == texts[k]
                    && forall|j: int| 0 <= j < k ==> #[trigger] names[j] != Some(name) {
                let k = choose|k: int|
                    0 <= k < names.len() && #[trigger] names[k] == Some(name) && text == texts[k]
                        && forall|j: int| 0 <= j < k ==> #[trigger] names[j] != Some(name);
                if k > 0 {
                    assert(names[0] != Some(name));
                }
            }
        } else {
            if exists|k: int|
                0 <= k < names.len() && #[trigger] names[k] == Some(name) && text == texts[k]
                    && forall|j: int| 0 <= j < k ==> #[trigger] names[j] != Some(name) {
                let k = choose|k: int|
                    0 <= k < names.len() && #[trigger] names[k] == Some(name) && text == texts[k]
                        && forall|j: int| 0 <= j < k ==> #[trigger] names[j] != Some(name);
                assert(ns[k - 1] == Some(name) && ts[k - 1] == text);
                assert forall|j: int| 0 <= j < k - 1 implies #[trigger] ns[j] != Some(name) by {
                    assert(ns[j] == names[j + 1]);
                }
            } else {
                assert forall|k: int| 0 <= k < ns.len() implies #[trigger] ns[k] != Some(name) by {
                    assert(ns[k] == names[k + 1]);
                }
            }
            lemma_group(ns, ts, name, text);
        }
    }
}

/// A text, or none where it is missing.
pub open spec fn text_of(text: Option<Seq<char>>) -> Seq<char> {
    match text {
        Some(text) => text,
        None => Seq::empty(),
    }
}

/// The groups of a pattern become the parts of an event that they are called after: those
/// without white space around them, the ids in the writing that is stored. Without a group
/// for the message, that is what the line has behind the match.
pub proof fn law_groups_become_parts(
    names: &Vec<Option<String>>,
    line: &str,
    end: usize,
    texts: &Vec<Option<String>>,
    r: LogEvent,
    level: Option<Seq<char>>,
    thread: Option<Seq<char>>,
    logger: Option<Seq<char>>,
    message: Option<Seq<char>>,
)
    requires
        names@.len() == texts@.len(),
        is_char_boundary(encode_utf8(line@), end as int),
        call_ensures(captured_event, (names, line, end, texts), r),
        is_group(groups_view(names@), groups_view(texts@), "level"@, level),
        is_group(groups_view(names@), groups_view(texts@), "thread"@, thread),
        is_group(groups_view(names@), groups_view(texts@), "logger"@, logger),
        is_group(groups_view(names@), groups_view(texts@), "message"@, message),
    ensures
        r.level@ == trimmed(text_of(level)),
        r.thread@ == trimmed(text_of(thread)),
        r.logger@ == trimmed(text_of(logger)),
        groups_view(names@).contains(Some("message"@)) ==> r.message@ == text_of(message),
        !groups_view(names@).contains(Some("message"@)) ==> exists|front: Seq<char>|
            #[trigger] encode_utf8(front).len() == end && line@ == front + r.message@,
{
    let ns = groups_view(names@);
    let ts = groups_view(texts@);
    lemma_group(ns, ts, "level"@, level);
    lemma_group(ns, ts, "thread"@, thread);
    lemma_group(ns, ts, "logger"@, logger);
    lemma_group(ns, ts, "message"@, message);
    assert(r.body().level == r.level@ && r.body().thread == r.thread@ && r.body().logger
        == r.logger@ && r.body().message == r.message@);
    if !ns.contains(Some("message"@)) {
        let b = encode_utf8(line@);
        let n = end as int;
        encode_utf8_valid_utf8(line@);
        encode_utf8_decode_utf8(line@);
        valid_utf8_split(b, n);
        decode_utf8_split(b, n);
        let front = decode_utf8(b.take(n));
        assert(b.take(n) =~= b.subrange(0, n));
        assert(b.skip(n) =~= b.subrange(n, b.len() as int));
        decode_utf8_encode_utf8(b.take(n));
        assert(encode_utf8(front).len() == end);
        assert(line@ == front + r.message@);
    }
}

/// The ids of an event are those in the groups that are called after them, and its time is
/// the one in its group; where there is none, or none that can be read, the present one.
pub proof fn law_groups_become_ids_and_time(
    names: &Vec<Option<String>>,
    line: &str,
    end: usize,
    texts: &Vec<Option<String>>,
    r: LogEvent,
    trace: Option<Seq<char>>,
    span: Option<Seq<char>>,
    time: Option<Seq<char>>,
    raw_trace: &str,
    raw_span: &str,
    trace_id: String,
    span_id: String,
    ts: Timestamp,
    middle: char,
    point: Option<char>,
    width: nat,
    fraction: nat,
)
    requires
        names@.len() == texts@.len(),
        is_char_boundary(encode_utf8(line@), end as int),
        call_ensures(captured_event, (names, line, end, texts), r),
        is_group(groups_view(names@), groups_view(texts@), "trace_id"@, trace),
        is_group(groups_view(names@), groups_view(texts@), "span_id"@, span),
        is_group(groups_view(names@), groups_view(texts@), "timestamp"@, time),
        raw_trace@ == text_of(trace),
        raw_span@ == text_of(span),
        call_ensures(normalize_trace_id, (raw_trace,), trace_id),
        call_ensures(normalize_span_id, (raw_span,), span_id),
        is_java_time(ts, middle, point, width, fraction),
    ensures
        r.trace_id@ == trace_id@,
        r.span_id@ == span_id@,
        time == Some(java_time(ts, middle, point, width, fraction)) ==> r.timestamp == ts,
        time is None ==> clock_says(r.timestamp),
{
    let ns = groups_view(names@);
    let gs = groups_view(texts@);
    lemma_group(ns, gs, "trace_id"@, trace);
    lemma_group(ns, gs, "span_id"@, span);
    lemma_group(ns, gs, "timestamp"@, time);
    assert(r.body().trace_id == r.trace_id@ && r.body().span_id == r.span_id@);
    lemma_time_is_read(ts, middle, point, width, fraction);
}

/// What a parser of a format reads is what lines of that format are read as; a pattern
/// stands in for the Java format and for no other.
pub proof fn law_formats_are_what_they_are_called(
    format: LogFormat,
    pattern: Option<&str>,
    r: Result<BoxedParser, Error>,
    line: Seq<char>,
)
    requires
        call_ensures(LogFormat::parser, (format, pattern), r),
    ensures
        format is Gin ==> r is Ok && r->Ok_0.reads(line) == gin_reads(line),
        format is Nginx ==> r is Ok && r->Ok_0.reads(line) == nginx_reads(line),
        format is Logback && pattern is None ==> r is Ok && r->Ok_0.reads(line) == logback_reads(
            line,
        ),
        format is Logback && pattern is Some && r is Ok ==> r->Ok_0.reads(line) == regex_reads(
            pattern->0@,
            line,
        ),
{
}

/// A line that no format reads is read by none of them, and goes on with the event before
/// it.
pub proof fn law_lines_of_no_format_are_not_read(
    formats: Seq<LogFormat>,
    pattern: Option<Seq<char>>,
    line: Seq<char>,
)
    requires
        forall|i: int| 0 <= i < formats.len() ==> (#[trigger] formats[i]).reads(pattern, line) is None,
    ensures
        formats_read(formats, pattern, line) is None,
    decreases formats.len(),
{
    if formats.len() > 0 {
        let rest = formats.drop_first();
        assert(formats[0].reads(pattern, line) is None);
        assert forall|i: int| 0 <= i < rest.len() implies (#[trigger] rest[i]).reads(
            pattern,
            line,
        ) is None by {
            assert(rest[i] == formats[i + 1]);
        }
        law_lines_of_no_format_are_not_read(rest, pattern, line);
    }
}

/// The parser of a configuration reads lines in the Java format where no format is given;
/// else the formats are tried as they are listed, the pattern standing in for the Java
/// format. A pattern without the Java format is refused.
pub proof fn law_configured_formats_are_tried_in_order(
    c: &Config,
    r: Result<ChainParser, Error>,
    line: Seq<char>,
    k: int,
)
    requires
        call_ensures(Config::build_parser, (c,), r),
    ensures
        ({
            let formats = c.parser.formats@;
            let pattern = opt_string_view(c.parser.pattern);
            &&& formats.len() == 0 && pattern is None ==> r is Ok && r->Ok_0.reads(line)
                == logback_reads(line)
            &&& formats.len() == 0 && pattern is Some && r is Ok ==> r->Ok_0.reads(line)
                == regex_reads(pattern->0, line)
            &&& r is Ok && 0 <= k < formats.len() && formats[k].reads(pattern, line) is Some && (
            forall|i: int|
                0 <= i < k ==> (#[trigger] formats[i]).reads(pattern, line) is None)
                ==> r->Ok_0.reads(line) == formats[k].reads(pattern, line)
            &&& pattern is Some && formats.len() > 0 && (forall|i: int|
                0 <= i < formats.len() ==> #[trigger] formats[i] != LogFormat::Logback) ==> r is Err
        }),
{
    let formats = c.parser.formats@;
    let pattern = opt_string_view(c.parser.pattern);
    if formats.len() == 0 {
        let one = seq![LogFormat::Logback];
        assert(c.used_formats() == one);
        assert(one[0] == LogFormat::Logback);
        assert(one.contains(LogFormat::Logback));
        assert(one.drop_first() =~= Seq::<LogFormat>::empty());
        reveal_with_fuel(formats_read, 3);
        reveal_with_fuel(crate::parser::chain::formats_fault, 3);
    } else if 0 <= k < formats.len() && formats[k].reads(pattern, line) is Some && (forall|i: int|
        0 <= i < k ==> (#[trigger] formats[i]).reads(pattern, line) is None) {
        crate::laws::reading::law_the_first_format_wins(formats, pattern, line, k);
    }
    if forall|i: int| 0 <= i < formats.len() ==> #[trigger] formats[i] != LogFormat::Logback {
        assert(!formats.contains(LogFormat::Logback));
    }
}

} // verus!
