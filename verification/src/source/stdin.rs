//! Collecting from the standard input.

use std::sync::Arc;

use vstd::prelude::*;

use crate::event::{Body, LogEvent};
use crate::parser::aggregate::{flushed, gathered, Aggregator, Gathered};
use crate::parser::api::{outcome, Parser};
use crate::parser::chain::BoxedParser;
use crate::parser::pattern::{regex_reads, RegexParser, DEFAULT_PATTERN};
use crate::parser::stamp::When;
use crate::source::k8s::{hostname, is_host_name};

verus! {

/// Collects from the standard input.
pub struct StdinSource {
    pub parser: Arc<BoxedParser>,
    pub host: Arc<String>,
    pub file: Arc<String>,
    /// How many events make a batch.
    pub batch_lines: usize,
    /// How often the last event is given out, in milliseconds.
    pub flush_interval_ms: u64,
}

impl StdinSource {
    pub fn new() -> (r: Self)
        ensures
            forall|line: Seq<char>| #[trigger]
                r.parser.reads(line) == regex_reads(DEFAULT_PATTERN@, line),
            is_host_name(r.host@),
            r.file@ == "stdin"@,
            r.batch_lines == 500,
            r.flush_interval_ms == 500,
    {
        let parser = BoxedParser { inner: Box::new(RegexParser::new()) };
        StdinSource {
            parser: Arc::new(parser),
            host: Arc::new(hostname()),
            file: Arc::new("stdin".to_owned()),
            batch_lines: 500,
            flush_interval_ms: 500,
        }
    }

    /// Sets how lines are read.
    pub fn parser(self, parser: BoxedParser) -> (r: Self)
        ensures
            forall|line: Seq<char>| #[trigger] r.parser.reads(line) == parser.reads(line),
            r == (StdinSource { parser: r.parser, ..self }),
    {
        let mut source = self;
        source.parser = Arc::new(parser);
        source
    }

    /// Sets how many events make a batch; at least one.
    pub fn batch_lines(self, batch_lines: usize) -> (r: Self)
        ensures
            r == (StdinSource {
                batch_lines: if batch_lines < 1 {
                    1
                } else {
                    batch_lines
                },
                ..self
            }),
    {
        let mut source = self;
        source.batch_lines = if batch_lines < 1 {
            1
        } else {
            batch_lines
        };
        source
    }
}

impl Default for StdinSource {
    fn default() -> (r: Self)
        ensures
            forall|line: Seq<char>| #[trigger]
                r.parser.reads(line) == regex_reads(DEFAULT_PATTERN@, line),
            is_host_name(r.host@),
            r.file@ == "stdin"@,
            r.batch_lines == 500,
            r.flush_interval_ms == 500,
    {
        Self::new()
    }
}

/// The lines that came in, and the events that wait to be sent.
pub struct StdinReader {
    pub aggregator: Aggregator<BoxedParser>,
    pub pending: Vec<LogEvent>,
    pub file: Arc<String>,
    pub host: Arc<String>,
    pub batch_lines: usize,
}

impl StdinReader {
    pub open spec fn wf(&self) -> bool {
        self.aggregator.wf()
    }

    /// Where the events come from: they share no fields but those that they came
    /// with.
    pub open spec fn mark(&self, e: (When, Body)) -> (When, Body) {
        (e.0, Body { file: self.file@, host: self.host@, ..e.1 })
    }

    /// Nothing has come in.
    pub fn new(source: &StdinSource) -> (r: Self)
        ensures
            r.wf(),
            r.pending@ == Seq::<LogEvent>::empty(),
            r.aggregator.state() == Gathered::fresh(None),
            forall|line: Seq<char>| #[trigger]
                (r.aggregator.rules().reads)(line) == source.parser.reads(line),
            r.file == source.file,
            r.host == source.host,
            r.batch_lines == source.batch_lines,
    {
        StdinReader {
            aggregator: Aggregator::new(source.parser.clone()),
            pending: Vec::new(),
            file: source.file.clone(),
            host: source.host.clone(),
            batch_lines: source.batch_lines,
        }
    }

    /// Whether `new` is `old` with the event behind it, if there is one.
    pub open spec fn gains(&self, old: Seq<LogEvent>, new: Seq<LogEvent>, e: Option<(When, Body)>) -> bool {
        match e {
            Some(e) => {
                &&& new.len() == old.len() + 1
                &&& new.drop_last() == old
                &&& outcome(Some(self.mark(e)), Some(new.last()))
            },
            None => new == old,
        }
    }

    fn decorate(&self, event: LogEvent) -> (r: LogEvent)
        requires
            event.wf(),
        ensures
            r.wf(),
            r.timestamp == event.timestamp,
            r.body() == (Body { file: self.file@, host: self.host@, ..event.body() }),
    {
        let mut event = event;
        event.file = self.file.clone();
        event.host = self.host.clone();
        event
    }

    /// Takes a line in, and tells whether the events make a batch.
    pub fn line(&mut self, line: &str) -> (r: bool)
        requires
            old(self).wf(),
        ensures
            final(self).wf(),
            final(self).aggregator.rules() == old(self).aggregator.rules(),
            final(self).aggregator.state() == gathered(
                old(self).aggregator.rules(),
                old(self).aggregator.state(),
                line@,
            ).0,
            old(self).gains(
                old(self).pending@,
                final(self).pending@,
                gathered(
                    old(self).aggregator.rules(),
                    old(self).aggregator.state(),
                    line@,
                ).1,
            ),
            r == (final(self).pending@.len() >= old(self).batch_lines),
            final(self).file == old(self).file,
            final(self).host == old(self).host,
            final(self).batch_lines == old(self).batch_lines,
    {
        if let Some(event) = self.aggregator.push(line) {
            let event = self.decorate(event);
            self.pending.push(event);
            proof {
                assert(self.pending@.drop_last() =~= old(self).pending@);
            }
        }
        self.pending.len() >= self.batch_lines
    }

    /// Gives the last event out too, as after a while without a line or at the
    /// end.
    pub fn settle(&mut self)
        requires
            old(self).wf(),
        ensures
            final(self).wf(),
            final(self).aggregator.rules() == old(self).aggregator.rules(),
            final(self).aggregator.state() == flushed(old(self).aggregator.state()).0,
            old(self).gains(
                old(self).pending@,
                final(self).pending@,
                flushed(old(self).aggregator.state()).1,
            ),
            final(self).file == old(self).file,
            final(self).host == old(self).host,
            final(self).batch_lines == old(self).batch_lines,
    {
        if let Some(event) = self.aggregator.flush() {
            let event = self.decorate(event);
            self.pending.push(event);
            proof {
                assert(self.pending@.drop_last() =~= old(self).pending@);
            }
        }
    }

    /// Takes the events out, to be sent.
    pub fn take_batch(&mut self) -> (r: Vec<LogEvent>)
        requires
            old(self).wf(),
        ensures
            final(self).wf(),
            r@ == old(self).pending@,
            final(self).pending@ == Seq::<LogEvent>::empty(),
            final(self).aggregator == old(self).aggregator,
            final(self).file == old(self).file,
            final(self).host == old(self).host,
            final(self).batch_lines == old(self).batch_lines,
    {
        let mut batch: Vec<LogEvent> = Vec::new();
        std::mem::swap(&mut batch, &mut self.pending);
        batch
    }
}

} // verus!
