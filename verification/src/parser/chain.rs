//! Several formats in one place.

use vstd::prelude::*;
use vstd::string::*;

use crate::error::{Error, ErrorView};
use crate::event::{Body, LogEvent};
use crate::parser::access::{gin_reads, nginx_reads, GinParser, NginxParser};
use crate::parser::api::Parser;
use crate::parser::logback::{logback_reads, LogbackParser};
use crate::parser::pattern::{regex_error, regex_reads, RegexParser};
use crate::parser::stamp::When;
use crate::text::opt_view;

verus! {

/// A parser of some kind.
pub struct BoxedParser {
    pub inner: Box<dyn Parser>,
}

impl Parser for BoxedParser {
    open spec fn reads(&self, line: Seq<char>) -> Option<(When, Body)> {
        self.inner.reads(line)
    }

    fn parse(&self, line: &str) -> (r: Option<LogEvent>) {
        self.inner.parse(line)
    }
}

/// The formats that are known.
#[derive(Clone, Copy, Debug, PartialEq, Eq, Structural)]
pub enum LogFormat {
    /// The Java format.
    Logback,
    /// gin's access log.
    Gin,
    /// nginx's combined access log.
    Nginx,
}

impl Default for LogFormat {
    /// The Java format.
    fn default() -> (r: Self)
        ensures
            r == LogFormat::Logback,
    {
        LogFormat::Logback
    }
}

impl LogFormat {
    /// What a line of the format says; a pattern stands in for the Java format.
    pub open spec fn reads(self, pattern: Option<Seq<char>>, line: Seq<char>) -> Option<
        (When, Body),
    > {
        match self {
            LogFormat::Logback => match pattern {
                Some(pattern) => regex_reads(pattern, line),
                None => logback_reads(line),
            },
            LogFormat::Gin => gin_reads(line),
            LogFormat::Nginx => nginx_reads(line),
        }
    }

    /// What is wrong with the pattern, where the format uses it.
    pub open spec fn fault(self, pattern: Option<Seq<char>>) -> Option<ErrorView> {
        match (self, pattern) {
            (LogFormat::Logback, Some(pattern)) => match regex_error(pattern) {
                Some(e) => Some(ErrorView::Config("正则非法: "@ + e)),
                None => None,
            },
            _ => None,
        }
    }

    /// A parser for the format. A pattern stands in for the Java format.
    pub fn parser(self, pattern: Option<&str>) -> (r: Result<BoxedParser, Error>)
        ensures
            r is Ok <==> self.fault(opt_view(pattern)) is None,
            r matches Ok(p) ==> forall|line: Seq<char>| #[trigger]
                p.reads(line) == self.reads(opt_view(pattern), line),
            r matches Err(e) ==> self.fault(opt_view(pattern)) == Some(e@),
    {
        match self {
            LogFormat::Logback => match pattern {
                Some(pattern) => match RegexParser::with_pattern(pattern) {
                    Ok(parser) => Ok(BoxedParser { inner: Box::new(parser) }),
                    Err(e) => Err(e),
                },
                None => Ok(BoxedParser { inner: Box::new(LogbackParser) }),
            },
            LogFormat::Gin => Ok(BoxedParser { inner: Box::new(GinParser) }),
            LogFormat::Nginx => Ok(BoxedParser { inner: Box::new(NginxParser) }),
        }
    }
}

/// What the first parser says that reads a line at all.
pub open spec fn first_reads(parsers: Seq<BoxedParser>, line: Seq<char>) -> Option<(When, Body)>
    decreases parsers.len(),
{
    if parsers.len() == 0 {
        None
    } else {
        match parsers[0].reads(line) {
            Some(read) => Some(read),
            None => first_reads(parsers.drop_first(), line),
        }
    }
}

/// What the first format says that a line is in.
pub open spec fn formats_read(
    formats: Seq<LogFormat>,
    pattern: Option<Seq<char>>,
    line: Seq<char>,
) -> Option<(When, Body)>
    decreases formats.len(),
{
    if formats.len() == 0 {
        None
    } else {
        match formats[0].reads(pattern, line) {
            Some(read) => Some(read),
            None => formats_read(formats.drop_first(), pattern, line),
        }
    }
}

/// What is wrong with the first format that something is wrong with.
pub open spec fn formats_fault(
    formats: Seq<LogFormat>,
    pattern: Option<Seq<char>>,
) -> Option<ErrorView>
    decreases formats.len(),
{
    if formats.len() == 0 {
        None
    } else {
        match formats[0].fault(pattern) {
            Some(fault) => Some(fault),
            None => formats_fault(formats.drop_first(), pattern),
        }
    }
}

/// Tries parsers in order; the first one that reads a line wins.
///
/// A line that none of them reads goes on with the event before it, so all
/// formats of a source have to be listed.
pub struct ChainParser {
    parsers: Vec<BoxedParser>,
}

impl ChainParser {
    /// The parsers, in the order in which they are tried.
    pub closed spec fn view(&self) -> Seq<BoxedParser> {
        self.parsers@
    }

    pub fn new(parsers: Vec<BoxedParser>) -> (r: Self)
        ensures
            r@ == parsers@,
    {
        ChainParser { parsers }
    }

    /// The parsers of a list of formats. The pattern stands in for the Java
    /// format alone.
    pub fn from_formats(formats: &[LogFormat], pattern: Option<&str>) -> (r: Result<Self, Error>)
        ensures
            r is Ok <==> formats_fault(formats@, opt_view(pattern)) is None,
            r matches Ok(p) ==> forall|line: Seq<char>| #[trigger]
                p.reads(line) == formats_read(formats@, opt_view(pattern), line),
            r matches Err(e) ==> formats_fault(formats@, opt_view(pattern)) == Some(e@),
    {
        let mut parsers: Vec<BoxedParser> = Vec::new();
        let ghost pat = opt_view(pattern);
        proof {
            assert(formats@.skip(0) =~= formats@);
        }
        for i in 0..formats.len()
            invariant
                pat == opt_view(pattern),
                parsers@.len() == i,
                forall|k: int, line: Seq<char>|
                    0 <= k < i ==> #[trigger] parsers@[k].reads(line) == formats@[k].reads(
                        pat,
                        line,
                    ),
                formats_fault(formats@, pat) == formats_fault(formats@.skip(i as int), pat),
        {
            proof {
                assert(formats@.skip(i as int).drop_first() =~= formats@.skip(i + 1));
            }
            match formats[i].parser(pattern) {
                Ok(parser) => {
                    parsers.push(parser);
                },
                Err(e) => {
                    return Err(e);
                },
            }
        }
        let r = Self::new(parsers);
        proof {
            assert forall|line: Seq<char>| #[trigger] r.reads(line) == formats_read(
                formats@,
                pat,
                line,
            ) by {
                lemma_first_reads(parsers@, formats@, pat, line, 0);
                assert(parsers@.skip(0) =~= parsers@);
            }
        }
        Ok(r)
    }
}

proof fn lemma_first_reads(
    parsers: Seq<BoxedParser>,
    formats: Seq<LogFormat>,
    pattern: Option<Seq<char>>,
    line: Seq<char>,
    i: int,
)
    requires
        parsers.len() == formats.len(),
        0 <= i <= parsers.len(),
        forall|k: int, line: Seq<char>|
            0 <= k < parsers.len() ==> #[trigger] parsers[k].reads(line) == formats[k].reads(
                pattern,
                line,
            ),
    ensures
        first_reads(parsers.skip(i), line) == formats_read(formats.skip(i), pattern, line),
    decreases parsers.len() - i,
{
    if i < parsers.len() {
        assert(parsers.skip(i).drop_first() =~= parsers.skip(i + 1));
        assert(formats.skip(i).drop_first() =~= formats.skip(i + 1));
        assert(parsers.skip(i)[0] == parsers[i]);
        assert(parsers[i].reads(line) == formats[i].reads(pattern, line));
        lemma_first_reads(parsers, formats, pattern, line, i + 1);
    }
}

impl Parser for ChainParser {
    open spec fn reads(&self, line: Seq<char>) -> Option<(When, Body)> {
        first_reads(self@, line)
    }

    fn parse(&self, line: &str) -> (r: Option<LogEvent>) {
        proof {
            assert(self@.skip(0) =~= self@);
        }
        for i in 0..self.parsers.len()
            invariant
                self@ == self.parsers@,
                first_reads(self@, line@) == first_reads(self@.skip(i as int), line@),
        {
            proof {
                assert(self@.skip(i as int).drop_first() =~= self@.skip(i + 1));
            }
            let event = self.parsers[i].parse(line);
            if event.is_some() {
                return event;
            }
        }
        None
    }
}

} // verus!
