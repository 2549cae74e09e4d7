//! Formats given as a regular expression.

use regex::Regex;
use vstd::prelude::*;
use vstd::string::*;
use vstd::utf8::*;

use crate::error::{Error, ErrorView};
use crate::event::{Body, LogEvent};
use crate::parser::api::{outcome, Parser};
use crate::parser::ids::{normal_id, normalize_span_id, normalize_trace_id};
use crate::parser::logback::when_of;
use crate::parser::stamp::{parse_timestamp, When};
use crate::text::{opt_view, same, trim, trimmed};
use crate::time::present_time;

verus! {

/// The Java format as a regular expression:
/// `2026-09-07 11:04:08.914 [TID:xxx] [SpanID:xxx] [thread] INFO  c.a.c.Foo -text`
///
/// The message is no group of it. The expression ends where the message starts,
/// so that matching does not run along the whole line.
pub const DEFAULT_PATTERN: &'static str = r"^(?P<timestamp>\d{4}-\d{2}-\d{2}[ T]\d{2}:\d{2}:\d{2}(?:[.,]\d{1,9})?)\s+(?:\[TID:(?P<trace_id>[^\]]*)\]\s*)?(?:\[SpanID:(?P<span_id>[^\]]*)\]\s*)?(?:\[(?P<thread>[^\]]*)\]\s*)?\[?(?P<level>[A-Z]+)\]?\s+(?P<logger>\S+)\s*-?\s?";

/// A compiled regular expression.
#[verifier::external_type_specification]
#[verifier::external_body]
pub struct ExRegex(regex::Regex);

/// The text that a regular expression was compiled from, as `Regex::as_str`
/// gives it.
pub uninterp spec fn regex_pattern(regex: Regex) -> Seq<char>;

/// What `Regex::new` has against a pattern, in words.
pub uninterp spec fn regex_error(pattern: Seq<char>) -> Option<Seq<char>>;

/// The names of a pattern's groups, in order; the first group is the whole match.
pub uninterp spec fn regex_groups(pattern: Seq<char>) -> Seq<Option<Seq<char>>>;

/// The leftmost match of a pattern in a line: the byte that it ends at, and what
/// each group holds, if it takes part.
pub uninterp spec fn regex_captures(pattern: Seq<char>, line: Seq<char>) -> Option<
    (nat, Seq<Option<Seq<char>>>),
>;

/// Compiles a pattern.
///
/// `Regex::new` depends on the pattern alone and keeps its text. It takes
/// [`DEFAULT_PATTERN`].
#[verifier::external_body]
fn compile(pattern: &str) -> (r: Result<Regex, String>)
    ensures
        r matches Ok(regex) ==> regex_pattern(regex) == pattern@ && regex_error(pattern@) is None,
        r matches Err(e) ==> regex_error(pattern@) == Some(e@),
        pattern@ == DEFAULT_PATTERN@ ==> r is Ok,
{
    Regex::new(pattern).map_err(|e| e.to_string())
}

/// The names of the groups.
///
/// `Regex::capture_names` depends on the pattern alone.
#[verifier::external_body]
fn group_names(regex: &Regex) -> (r: Vec<Option<String>>)
    ensures
        groups_view(r@) == regex_groups(regex_pattern(*regex)),
{
    regex.capture_names().map(|name| name.map(|name| name.to_owned())).collect()
}

/// A match, as it is seen.
pub open spec fn captures_view(r: Option<(usize, Vec<Option<String>>)>) -> Option<
    (nat, Seq<Option<Seq<char>>>),
> {
    match r {
        Some((end, texts)) => Some((end as nat, groups_view(texts@))),
        None => None,
    }
}

/// What groups are called, or what they hold.
pub open spec fn groups_view(texts: Seq<Option<String>>) -> Seq<Option<Seq<char>>> {
    texts.map_values(
        |t: Option<String>|
            match t {
                Some(t) => Some(t@),
                None => None,
            },
    )
}

/// Matches a line.
///
/// `Regex::captures` depends on the pattern and the line alone. A match ends at
/// the end of a character, and there is one text for each group.
#[verifier::external_body]
fn captures(regex: &Regex, line: &str) -> (r: Option<(usize, Vec<Option<String>>)>)
    ensures
        captures_view(r) == regex_captures(regex_pattern(*regex), line@),
        r matches Some((end, texts)) ==> is_char_boundary(encode_utf8(line@), end as int)
            && texts@.len() == regex_groups(regex_pattern(*regex)).len(),
{
    let caps = regex.captures(line)?;
    let end = caps.get(0)?.end();
    Some((end, caps.iter().map(|m| m.map(|m| m.as_str().to_owned())).collect()))
}

/// What the group `name` holds; nothing where there is no such group or where it
/// does not take part.
pub open spec fn group_text(
    names: Seq<Option<Seq<char>>>,
    texts: Seq<Option<Seq<char>>>,
    name: Seq<char>,
) -> Option<Seq<char>>
    decreases names.len(),
{
    if names.len() == 0 || texts.len() == 0 {
        None
    } else if names[0] == Some(name) {
        texts[0]
    } else {
        group_text(names.drop_first(), texts.drop_first(), name)
    }
}

/// The text of an option, or nothing.
pub open spec fn or_empty(t: Option<Seq<char>>) -> Seq<char> {
    match t {
        Some(t) => t,
        None => Seq::empty(),
    }
}

/// What is left of `line` behind its first `end` bytes.
pub open spec fn behind(line: Seq<char>, end: int) -> Seq<char> {
    decode_utf8(encode_utf8(line).skip(end))
}

/// When a line was written whose group `timestamp` holds `t`.
pub open spec fn captured_when(t: Option<Seq<char>>) -> When {
    match t {
        Some(t) => when_of(t),
        None => When::Now,
    }
}

/// What a line says that was matched up to `end`.
pub open spec fn captured_reads(
    names: Seq<Option<Seq<char>>>,
    line: Seq<char>,
    end: int,
    texts: Seq<Option<Seq<char>>>,
) -> (When, Body) {
    (
        captured_when(group_text(names, texts, "timestamp"@)),
        Body {
            level: trimmed(or_empty(group_text(names, texts, "level"@))),
            trace_id: normal_id(or_empty(group_text(names, texts, "trace_id"@)), 32),
            span_id: normal_id(or_empty(group_text(names, texts, "span_id"@)), 16),
            thread: trimmed(or_empty(group_text(names, texts, "thread"@))),
            logger: trimmed(or_empty(group_text(names, texts, "logger"@))),
            message: if names.contains(Some("message"@)) {
                or_empty(group_text(names, texts, "message"@))
            } else {
                behind(line, end)
            },
            ..Body::blank()
        },
    )
}

/// What a line says that a pattern matches.
pub open spec fn regex_reads(pattern: Seq<char>, line: Seq<char>) -> Option<(When, Body)> {
    match regex_captures(pattern, line) {
        Some((end, texts)) => Some(
            captured_reads(regex_groups(pattern), line, end as int, texts),
        ),
        None => None,
    }
}

fn find_group<'a>(names: &Vec<Option<String>>, texts: &'a Vec<Option<String>>, name: &str) -> (r: Option<
    &'a str,
>)
    requires
        names@.len() == texts@.len(),
    ensures
        opt_view(r) == group_text(groups_view(names@), groups_view(texts@), name@),
{
    let ghost ns = groups_view(names@);
    let ghost ts = groups_view(texts@);
    proof {
        assert(ns.skip(0) =~= ns);
        assert(ts.skip(0) =~= ts);
    }
    for i in 0..names.len()
        invariant
            names@.len() == texts@.len(),
            ns == groups_view(names@),
            ts == groups_view(texts@),
            group_text(ns, ts, name@) == group_text(ns.skip(i as int), ts.skip(i as int), name@),
    {
        proof {
            assert(ns.skip(i as int).drop_first() =~= ns.skip(i + 1));
            assert(ts.skip(i as int).drop_first() =~= ts.skip(i + 1));
        }
        if let Some(called) = &names[i] {
            if same(called.as_str(), name) {
                return match &texts[i] {
                    Some(t) => Some(t.as_str()),
                    None => None,
                };
            }
        }
    }
    None
}

fn has_group(names: &Vec<Option<String>>, name: &str) -> (r: bool)
    ensures
        r == groups_view(names@).contains(Some(name@)),
{
    for i in 0..names.len()
        invariant
            forall|k: int| 0 <= k < i ==> #[trigger] groups_view(names@)[k] != Some(name@),
    {
        if let Some(called) = &names[i] {
            if same(called.as_str(), name) {
                proof {
                    assert(groups_view(names@)[i as int] == Some(name@));
                }
                return true;
            }
        }
    }
    false
}

fn text_or_empty<'a>(t: Option<&'a str>) -> (r: &'a str)
    ensures
        r@ == or_empty(opt_view(t)),
{
    proof {
        reveal_strlit("");
        assert(""@ =~= Seq::<char>::empty());
    }
    match t {
        Some(t) => t,
        None => "",
    }
}

/// The event of a line that was matched up to the byte `end`, its groups with
/// these names holding these texts.
pub fn captured_event(
    names: &Vec<Option<String>>,
    line: &str,
    end: usize,
    texts: &Vec<Option<String>>,
) -> (r: LogEvent)
    requires
        names@.len() == texts@.len(),
        is_char_boundary(encode_utf8(line@), end as int),
    ensures
        outcome(
            Some(
                captured_reads(groups_view(names@), line@, end as int, groups_view(texts@)),
            ),
            Some(r),
        ),
{
    let mut event = LogEvent::default();
    event.timestamp = match find_group(names, texts, "timestamp") {
        Some(raw) => match parse_timestamp(raw) {
            Some(ts) => ts,
            None => present_time(),
        },
        None => present_time(),
    };
    event.level = trim(text_or_empty(find_group(names, texts, "level"))).to_owned();
    event.trace_id = normalize_trace_id(text_or_empty(find_group(names, texts, "trace_id")));
    event.span_id = normalize_span_id(text_or_empty(find_group(names, texts, "span_id")));
    event.thread = trim(text_or_empty(find_group(names, texts, "thread"))).to_owned();
    event.logger = trim(text_or_empty(find_group(names, texts, "logger"))).to_owned();
    if has_group(names, "message") {
        event.message = text_or_empty(find_group(names, texts, "message")).to_owned();
    } else {
        let (_, message) = line.split_at(end);
        proof {
            encode_utf8_decode_utf8(message@);
            assert(encode_utf8(message@) =~= encode_utf8(line@).skip(end as int));
        }
        event.message = message.to_owned();
    }
    event
}

/// Reads a format given as a regular expression.
pub struct RegexParser {
    regex: Regex,
    /// The names of the groups.
    names: Vec<Option<String>>,
}

impl RegexParser {
    /// The pattern that lines are matched with.
    pub closed spec fn pattern(&self) -> Seq<char> {
        regex_pattern(self.regex)
    }

    #[verifier::type_invariant]
    spec fn inv(&self) -> bool {
        groups_view(self.names@) == regex_groups(regex_pattern(self.regex))
    }

    /// The Java format.
    pub fn new() -> (r: Self)
        ensures
            r.pattern() == DEFAULT_PATTERN@,
    {
        let regex = compile(DEFAULT_PATTERN).unwrap();
        let names = group_names(&regex);
        RegexParser { regex, names }
    }

    /// A format of one's own. The groups `timestamp`, `level`, `trace_id`,
    /// `span_id`, `thread`, `logger` and `message` are looked at, all of which
    /// may be missing.
    pub fn with_pattern(pattern: &str) -> (r: Result<Self, Error>)
        ensures
            r is Ok <==> regex_error(pattern@) is None,
            r matches Ok(p) ==> p.pattern() == pattern@,
            r matches Err(e) ==> e@ == ErrorView::Config(
                "正则非法: "@ + regex_error(pattern@)->0,
            ),
    {
        match compile(pattern) {
            Ok(regex) => {
                let names = group_names(&regex);
                Ok(RegexParser { regex, names })
            },
            Err(e) => {
                let mut message = "正则非法: ".to_owned();
                message.append(e.as_str());
                Err(Error::Config(message))
            },
        }
    }
}

impl Default for RegexParser {
    /// The Java format.
    fn default() -> (r: Self)
        ensures
            r.pattern() == DEFAULT_PATTERN@,
    {
        Self::new()
    }
}

impl Parser for RegexParser {
    open spec fn reads(&self, line: Seq<char>) -> Option<(When, Body)> {
        regex_reads(self.pattern(), line)
    }

    fn parse(&self, line: &str) -> (r: Option<LogEvent>) {
        proof {
            use_type_invariant(&*self);
        }
        match captures(&self.regex, line) {
            Some((end, texts)) => Some(captured_event(&self.names, line, end, &texts)),
            None => None,
        }
    }
}

} // verus!
