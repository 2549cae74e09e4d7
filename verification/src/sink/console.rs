//! Writing events out for people.

use vstd::prelude::*;
use vstd::string::*;

use crate::error::Error;
use crate::event::LogEvent;
use crate::json::object_text;
use crate::time::wall_clock;

verus! {

/// How an event is written.
#[derive(Clone, Copy, Debug, PartialEq, Eq, Structural)]
pub enum Encoding {
    /// A line of JSON, as it is stored.
    Json,
    /// As the line was.
    Text,
}

impl Encoding {
    /// An event as it is written, without the line's end.
    pub open spec fn line(self, e: LogEvent) -> Seq<char> {
        match self {
            Encoding::Json => object_text(e.json_entries(wall_clock(e.timestamp))),
            Encoding::Text => e.text_line(),
        }
    }
}

/// Writes events to the console.
#[derive(Clone, Copy, Debug, PartialEq, Eq, Structural)]
pub struct ConsoleSink {
    pub encoding: Encoding,
    /// Whether to write to the standard error in place of the standard output.
    pub stderr: bool,
}

impl ConsoleSink {
    /// Writes to the standard output.
    pub fn new(encoding: Encoding) -> (r: Self)
        ensures
            r == (ConsoleSink { encoding, stderr: false }),
    {
        ConsoleSink { encoding, stderr: false }
    }

    /// Writes to the standard error.
    pub fn stderr(self) -> (r: Self)
        ensures
            r == (ConsoleSink { stderr: true, ..self }),
    {
        ConsoleSink { stderr: true, ..self }
    }
}

impl Default for ConsoleSink {
    /// JSON to the standard output.
    fn default() -> (r: Self)
        ensures
            r == (ConsoleSink { encoding: Encoding::Json, stderr: false }),
    {
        ConsoleSink::new(Encoding::Json)
    }
}

/// Events as they are written, a line each.
pub open spec fn lines_text(encoding: Encoding, events: Seq<LogEvent>) -> Seq<char>
    decreases events.len(),
{
    if events.len() == 0 {
        Seq::empty()
    } else {
        (lines_text(encoding, events.drop_last()) + encoding.line(events.last())).push('\n')
    }
}

/// Writes events, a line each.
pub fn encode(encoding: Encoding, events: &Vec<LogEvent>) -> (r: Result<String, Error>)
    requires
        forall|i: int| 0 <= i < events@.len() ==> (#[trigger] events@[i]).wf(),
    ensures
        r matches Ok(text) && text@ == lines_text(encoding, events@),
{
    let mut out = String::new();
    for i in 0..events.len()
        invariant
            forall|i: int| 0 <= i < events@.len() ==> (#[trigger] events@[i]).wf(),
            out@ == lines_text(encoding, events@.take(i as int)),
    {
        proof {
            assert(events@.take(i + 1).drop_last() =~= events@.take(i as int));
        }
        let line = match encoding {
            Encoding::Json => match events[i].to_json_line() {
                Ok(line) => line,
                Err(e) => {
                    return Err(e);
                },
            },
            Encoding::Text => events[i].to_text_line(),
        };
        out.append(line.as_str());
        out.push('\n');
    }
    proof {
        assert(events@.take(events@.len() as int) =~= events@);
    }
    Ok(out)
}

} // verus!
