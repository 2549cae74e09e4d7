//! One turn of reading a file.

use vstd::prelude::*;

use crate::event::LogEvent;
use crate::parser::aggregate::flushed;
use crate::parser::api::Parser;
use crate::source::checkpoint::{edition_of, renewed, restarted, Checkpointer};
use crate::source::tail::{adds, line_end, one, stepped, Step, Tailed, Watcher};

verus! {

/// A turn of reading a file: look at its length, take in what can be read up to
/// a number of events, and see whether the last event is complete.
pub struct ReadTurn {
    /// The events so far.
    pub events: Vec<LogEvent>,
    /// Whether the end of the file was reached in this turn.
    pub ended: bool,
    /// Whether the file was cut off and is to be read from its start.
    pub rewound: bool,
}

impl ReadTurn {
    /// Starts a turn on a file of this length. The stored offset of a file that was
    /// cut off is void, and so are receipts for what was read of it before.
    pub fn start<P: Parser>(watcher: &mut Watcher<P>, len: u64, checkpointer: &mut Checkpointer)
        -> (r: ReadTurn)
        requires
            old(watcher).wf(),
        ensures
            final(watcher).wf(),
            final(watcher).same_file(old(watcher)),
            final(watcher).at_eof == old(watcher).at_eof,
            final(watcher).pending_since == old(watcher).pending_since,
            !r.ended,
            r.rewound == (len < old(watcher).offset + old(watcher).buf@.len()),
            if r.rewound {
                &&& final(watcher).tail() == (Tailed {
                    gathered: flushed(old(watcher).tail().gathered).0,
                    event_at: None,
                    parts_at: None,
                    offset: 0,
                    safe: 0,
                    rest: Seq::empty(),
                })
                &&& adds(
                    Seq::empty(),
                    r.events@,
                    one(flushed(old(watcher).tail().gathered).1),
                    old(watcher).origin(),
                )
            } else {
                &&& final(watcher).tail() == old(watcher).tail()
                &&& r.events@ == Seq::<LogEvent>::empty()
            },
            if r.rewound {
                let key = old(watcher).key@;
                &&& final(checkpointer)@ == restarted(old(checkpointer)@, key)
                &&& final(checkpointer).editions() == renewed(old(checkpointer).editions(), key)
                &&& final(checkpointer).unsaved() == (old(checkpointer).unsaved() || old(
                    checkpointer,
                )@.dom().contains(key))
            } else {
                *final(checkpointer) == *old(checkpointer)
            },
    {
        let mut events: Vec<LogEvent> = Vec::new();
        let rewound = watcher.check_length(len, &mut events);
        if rewound {
            checkpointer.reset(watcher.key.as_str());
        }
        ReadTurn { events, ended: false, rewound }
    }

    /// Whether to read on: the end was not reached, and there are fewer than
    /// `max_lines` events.
    pub fn wants_more(&self, max_lines: usize) -> (r: bool)
        ensures
            r == (!self.ended && self.events@.len() < max_lines),
    {
        !self.ended && self.events.len() < max_lines
    }

    /// Takes in what was read; nothing means that the end was reached.
    pub fn take<P: Parser>(
        &mut self,
        watcher: &mut Watcher<P>,
        chunk: &[u8],
        max_line_bytes: usize,
    )
        requires
            old(watcher).wf(),
            old(watcher).offset + old(watcher).buf@.len() + chunk@.len() <= u64::MAX,
        ensures
            final(watcher).wf(),
            final(watcher).same_file(old(watcher)),
            final(watcher).at_eof == (chunk@.len() == 0),
            final(self).ended == (old(self).ended || chunk@.len() == 0),
            final(self).rewound == old(self).rewound,
            if chunk@.len() == 0 {
                &&& final(watcher).tail() == old(watcher).tail()
                &&& final(self).events@ == old(self).events@
                &&& final(watcher).pending_since == old(watcher).pending_since
            } else {
                let (t, es) = stepped(
                    old(watcher).aggregator.rules(),
                    max_line_bytes as int,
                    old(watcher).tail(),
                    Step::Read(chunk@),
                );
                let bytes = old(watcher).buf@ + chunk@;
                &&& final(watcher).tail() == t
                &&& adds(old(self).events@, final(self).events@, es, old(watcher).origin())
                &&& final(watcher).pending_since == if line_end(bytes) < bytes.len() {
                    None
                } else {
                    old(watcher).pending_since
                }
            },
    {
        watcher.take(chunk, max_line_bytes, &mut self.events);
        if chunk.len() == 0 {
            self.ended = true;
        }
    }

    /// Ends the turn, and gives its events out.
    pub fn finish<P: Parser>(self, watcher: &mut Watcher<P>, now: u64, idle_flush: u64) -> (r: Vec<
        LogEvent,
    >)
        requires
            old(watcher).wf(),
        ensures
            final(watcher).wf(),
            final(watcher).same_file(old(watcher)),
            final(watcher).at_eof == old(watcher).at_eof,
            if old(watcher).is_ripe(now, idle_flush) {
                let (t, es) = stepped(
                    old(watcher).aggregator.rules(),
                    0,
                    old(watcher).tail(),
                    Step::Flush,
                );
                &&& final(watcher).tail() == t
                &&& adds(self.events@, r@, es, old(watcher).origin())
                &&& final(watcher).pending_since is None
            } else {
                &&& final(watcher).tail() == old(watcher).tail()
                &&& r@ == self.events@
                &&& final(watcher).pending_since == if old(watcher).at_eof && old(
                    watcher,
                ).aggregator.state().pending is Some && old(watcher).pending_since is None {
                    Some(now)
                } else {
                    old(watcher).pending_since
                }
            },
    {
        let mut events = self.events;
        watcher.settle(now, idle_flush, &mut events);
        events
    }
}

/// Events that are to be sent, and how far the offset moves on when the receipt
/// for them comes.
pub struct Delivery {
    pub events: Vec<LogEvent>,
    /// The fingerprint of the file.
    pub key: String,
    pub path: String,
    pub offset: u64,
    /// The edition of the file that they were read from.
    pub edition: u64,
}

impl Delivery {
    /// Whether this is for a file: the offset is the safe one, before which
    /// nothing is that is not among these events or earlier ones.
    pub open spec fn is_of<P: Parser>(&self, watcher: &Watcher<P>, checkpointer: &Checkpointer)
        -> bool {
        &&& self.key@ == watcher.key@
        &&& self.path@ == watcher.path@
        &&& self.offset == watcher.safe_offset
        &&& self.edition == edition_of(checkpointer.editions(), watcher.key@)
    }

    /// What is to be sent of a file's events, if there are any.
    pub fn new<P: Parser>(events: Vec<LogEvent>, watcher: &Watcher<P>, checkpointer: &Checkpointer)
        -> (r: Option<Self>)
        ensures
            r is Some <==> events@.len() > 0,
            r matches Some(d) ==> d.events == events && d.is_of(watcher, checkpointer),
    {
        if events.len() == 0 {
            return None;
        }
        Some(
            Delivery {
                events,
                key: watcher.key.clone(),
                path: watcher.path.clone(),
                offset: watcher.safe_offset,
                edition: checkpointer.edition(watcher.key.as_str()),
            },
        )
    }
}

} // verus!
