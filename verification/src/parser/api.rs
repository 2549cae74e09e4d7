//! What a parser is.

use vstd::prelude::*;

use crate::event::{Body, LogEvent};
use crate::parser::stamp::When;

verus! {

/// Whether `got` is an event that a parser may make of a line that reads as
/// `want`.
pub open spec fn outcome(want: Option<(When, Body)>, got: Option<LogEvent>) -> bool {
    match (want, got) {
        (Some((when, body)), Some(event)) => {
            &&& event.wf()
            &&& when.admits(event.timestamp)
            &&& event.body() == body
        },
        (None, None) => true,
        _ => false,
    }
}

/// Makes events of lines.
pub trait Parser: Send + Sync + 'static {
    /// What a line says: when, and what. `None` where it is not a line of its
    /// own but goes on with the event before it.
    spec fn reads(&self, line: Seq<char>) -> Option<(When, Body)>;

    /// Reads a line. `None` means that the line goes on with the event before
    /// it, as those of a stack trace do.
    fn parse(&self, line: &str) -> (r: Option<LogEvent>)
        ensures
            outcome(self.reads(line@), r),
    ;
}

} // verus!
