//! Merges the lines of one event.

use std::borrow::Cow;
use std::sync::Arc;

use vstd::prelude::*;

use crate::event::{Body, LogEvent};
use crate::parser::api::{outcome, Parser};
use crate::parser::cri::{decoded, whole, Decoded, LineDecoder};
use crate::parser::stamp::When;
use crate::text::byte_len;
use crate::value::{Value, ValueView};

verus! {

/// How lines are read, and how much of them makes one event.
#[verifier::ext_equal]
pub struct Rules {
    /// What a line says, out of its shell.
    pub reads: spec_fn(Seq<char>) -> Option<(When, Body)>,
    /// The most lines that one event takes.
    pub max_lines: int,
    /// The most bytes that one event's message takes.
    pub max_bytes: int,
}

/// What an aggregator holds.
pub struct Gathered {
    /// The parts of a line that has not ended yet; `None` for lines without a
    /// shell.
    pub held: Option<Seq<char>>,
    /// The event that more lines may follow to.
    pub pending: Option<(When, Body)>,
    /// How many lines that event has taken.
    pub lines: int,
}

impl Gathered {
    /// Nothing yet.
    pub open spec fn fresh(held: Option<Seq<char>>) -> Gathered {
        Gathered { held, pending: None, lines: 0 }
    }
}

/// The body with the stream that its first line was written to.
pub open spec fn with_stream(body: Body, stream: Option<Seq<char>>) -> Body {
    match stream {
        Some(stream) => body.with_field("stream"@, ValueView::Text(stream)),
        None => body,
    }
}

/// The event of a line that is not read and has nothing to go on with: the line
/// is its message, its time what the runtime says, or now.
pub open spec fn stray(d: Decoded) -> (When, Body) {
    (
        match d.time {
            Some(i) => When::At(i),
            None => When::Now,
        },
        with_stream(Body { message: d.content, ..Body::blank() }, d.stream),
    )
}

/// What is held after a line out of its shell, and the event that is complete
/// by it.
///
/// A line that is read starts the next event, and the one before it is complete.
/// Any other line goes on with the one before it as long as it fits, and is an
/// event of its own where there is none.
pub open spec fn absorbed(rules: Rules, g: Gathered, d: Decoded) -> (
    Gathered,
    Option<(When, Body)>,
) {
    match (rules.reads)(d.content) {
        Some((when, body)) => (
            Gathered { pending: Some((when, with_stream(body, d.stream))), lines: 1, ..g },
            g.pending,
        ),
        None => match g.pending {
            Some((when, body)) => if g.lines < rules.max_lines && byte_len(body.message) + byte_len(
                d.content,
            ) < rules.max_bytes {
                (
                    Gathered {
                        pending: Some((when, body.with_line(d.content))),
                        lines: g.lines + 1,
                        ..g
                    },
                    None,
                )
            } else {
                (g, None)
            },
            None => (g, Some(stray(d))),
        },
    }
}

/// What is held after a line, and the event that is complete by it.
pub open spec fn gathered(rules: Rules, g: Gathered, line: Seq<char>) -> (
    Gathered,
    Option<(When, Body)>,
) {
    match decoded(g.held, line) {
        (None, held) => (Gathered { held, ..g }, None),
        (Some(d), held) => absorbed(rules, Gathered { held, ..g }, d),
    }
}

/// What is held after everything is taken out, and the event that is taken out:
/// the last one, with the parts of a line that has not ended.
pub open spec fn flushed(g: Gathered) -> (Gathered, Option<(When, Body)>) {
    (
        Gathered::fresh(
            match g.held {
                Some(_) => Some(Seq::empty()),
                None => None,
            },
        ),
        match g.held {
            Some(rest) => if rest.len() == 0 {
                g.pending
            } else {
                match g.pending {
                    Some((when, body)) => Some((when, body.with_line(rest))),
                    None => Some((When::Now, Body { message: rest, ..Body::blank() })),
                }
            },
            None => g.pending,
        },
    )
}

/// Puts the lines of one event together, as those of a stack trace.
///
/// Lines are pushed one by one. An event that comes back is the one **before**:
/// it is complete. The last one is taken out with `flush`.
pub struct Aggregator<P: Parser> {
    parser: Arc<P>,
    decoder: LineDecoder,
    pending: Option<LogEvent>,
    /// Where the time of `pending` comes from.
    when: Ghost<When>,
    pending_lines: usize,
    /// The most lines that one event takes.
    pub max_lines: usize,
    /// The most bytes that one event's message takes.
    pub max_bytes: usize,
}

impl<P: Parser> Aggregator<P> {
    /// How lines are read and merged.
    pub closed spec fn rules(&self) -> Rules {
        let parser = self.parser;
        Rules {
            reads: |line: Seq<char>| parser.reads(line),
            max_lines: self.max_lines as int,
            max_bytes: self.max_bytes as int,
        }
    }

    /// What is held.
    pub closed spec fn state(&self) -> Gathered {
        Gathered {
            held: self.decoder.held(),
            pending: match self.pending {
                Some(e) => Some((self.when@, e.body())),
                None => None,
            },
            lines: self.pending_lines as int,
        }
    }

    /// The event that more lines may follow to is one.
    pub closed spec fn wf(&self) -> bool {
        outcome(self.state().pending, self.pending)
    }

    /// Up to 500 lines and 256 KiB an event, no shell.
    pub fn new(parser: Arc<P>) -> (r: Self)
        ensures
            r.wf(),
            forall|line: Seq<char>| #[trigger] (r.rules().reads)(line) == parser.reads(line),
            r.rules().max_lines == 500,
            r.rules().max_bytes == 256 * 1024,
            r.state() == Gathered::fresh(None),
    {
        Aggregator {
            parser,
            decoder: LineDecoder::Raw,
            pending: None,
            when: Ghost(When::Now),
            pending_lines: 0,
            max_lines: 500,
            max_bytes: 256 * 1024,
        }
    }

    /// How lines are taken out of their shell.
    pub fn decoder(self, decoder: LineDecoder) -> (r: Self)
        ensures
            self.wf() ==> r.wf(),
            r.state() == (Gathered { held: decoder.held(), ..self.state() }),
            r.rules() == self.rules(),
    {
        let mut r = self;
        r.decoder = decoder;
        r
    }

    /// The most lines that one event takes.
    pub fn max_lines(self, max_lines: usize) -> (r: Self)
        ensures
            self.wf() ==> r.wf(),
            r.state() == self.state(),
            r.rules() == (Rules { max_lines: max_lines as int, ..self.rules() }),
    {
        let mut r = self;
        r.max_lines = max_lines;
        r
    }

    /// The most bytes that one event's message takes.
    pub fn max_bytes(self, max_bytes: usize) -> (r: Self)
        ensures
            self.wf() ==> r.wf(),
            r.state() == self.state(),
            r.rules() == (Rules { max_bytes: max_bytes as int, ..self.rules() }),
    {
        let mut r = self;
        r.max_bytes = max_bytes;
        r
    }

    /// Takes a line in. An event that comes back is complete.
    pub fn push(&mut self, line: &str) -> (r: Option<LogEvent>)
        requires
            old(self).wf(),
        ensures
            final(self).wf(),
            final(self).rules() == old(self).rules(),
            final(self).state() == gathered(old(self).rules(), old(self).state(), line@).0,
            outcome(gathered(old(self).rules(), old(self).state(), line@).1, r),
    {
        let line = match self.decoder.decode(line) {
            Some(line) => line,
            None => {
                return None;
            },
        };
        let content: &str = match &line.content {
            Cow::Borrowed(content) => content,
            Cow::Owned(content) => content.as_str(),
        };
        match self.parser.parse(content) {
            Some(event) => {
                let mut event = event;
                if let Some(stream) = line.stream {
                    event.insert("stream".to_owned(), Value::text(stream));
                }
                self.pending_lines = 1;
                let before = self.pending.take();
                self.pending = Some(event);
                proof {
                    self.when@ = match self.parser.reads(content@) {
                        Some((when, _)) => when,
                        None => When::Now,
                    };
                }
                before
            },
            None => {
                match self.pending.take() {
                    Some(pending) => {
                        let mut pending = pending;
                        let used: usize = pending.message.as_str().as_bytes().len();
                        if self.pending_lines < self.max_lines && used < self.max_bytes
                            && content.as_bytes().len() < self.max_bytes - used {
                            pending.append_line(content);
                            self.pending_lines += 1;
                        }
                        self.pending = Some(pending);
                        None
                    },
                    None => {
                        let mut event = LogEvent::new(content.to_owned());
                        if let Some(time) = line.time {
                            event.timestamp = time;
                        }
                        if let Some(stream) = line.stream {
                            event.insert("stream".to_owned(), Value::text(stream));
                        }
                        Some(event)
                    },
                }
            },
        }
    }

    /// Takes the last event out. The parts of a line that has not ended go with
    /// it.
    pub fn flush(&mut self) -> (r: Option<LogEvent>)
        requires
            old(self).wf(),
        ensures
            final(self).wf(),
            final(self).rules() == old(self).rules(),
            final(self).state() == flushed(old(self).state()).0,
            outcome(flushed(old(self).state()).1, r),
    {
        let pending = self.pending.take();
        self.pending_lines = 0;
        match self.decoder.take_partial() {
            Some(rest) => match pending {
                Some(event) => {
                    let mut event = event;
                    event.append_line(rest.as_str());
                    Some(event)
                },
                None => Some(LogEvent::new(rest)),
            },
            None => pending,
        }
    }

    /// Whether there is an event that more lines may follow to.
    pub fn has_pending(&self) -> (r: bool)
        ensures
            r == (self.state().pending is Some),
    {
        self.pending.is_some()
    }

    /// Whether parts of a line are held whose last one has not come.
    pub fn has_parts(&self) -> (r: bool)
        ensures
            r == !whole(self.state().held),
    {
        self.decoder.has_parts()
    }
}

} // verus!
