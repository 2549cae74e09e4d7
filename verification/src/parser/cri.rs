//! The shell that a container runtime puts around each line.

use std::borrow::Cow;

use vstd::prelude::*;
use vstd::string::*;

use crate::text::{break_at, first_split, opt_string_view, same, scan, split_once, Stop};
use crate::time::{clock_shows, parse_rfc3339, rfc3339_instant, shown_time, Instant, Timestamp};

verus! {

/// The shells that are known.
#[derive(Clone, Copy, Debug, PartialEq, Eq, Structural)]
pub enum ContainerFormat {
    /// None: the line is the application's own.
    Raw,
    /// containerd's and CRI-O's: `2026-09-07T03:04:08.914293456Z stdout F text`.
    Cri,
}

impl Default for ContainerFormat {
    /// No shell.
    fn default() -> (r: Self)
        ensures
            r == ContainerFormat::Raw,
    {
        ContainerFormat::Raw
    }
}

impl ContainerFormat {
    /// What is held of a line that has not ended, at the start: no text where lines
    /// have a shell, nothing where they have none.
    pub open spec fn held(self) -> Option<Seq<char>> {
        match self {
            ContainerFormat::Raw => None,
            ContainerFormat::Cri => Some(Seq::empty()),
        }
    }

    /// A decoder for one file.
    pub fn decoder(self) -> (r: LineDecoder)
        ensures
            r.held() == self.held(),
    {
        match self {
            ContainerFormat::Raw => LineDecoder::Raw,
            ContainerFormat::Cri => LineDecoder::Cri(CriDecoder { partial: String::new() }),
        }
    }
}

/// A line out of its shell.
#[derive(Debug)]
pub struct DecodedLine<'a> {
    /// What the application wrote.
    pub content: Cow<'a, str>,
    /// `stdout` or `stderr`, where there was a shell.
    pub stream: Option<&'static str>,
    /// The runtime's time as this machine's wall-clock time.
    pub time: Option<Timestamp>,
}

/// What a line out of its shell holds.
pub struct Decoded {
    pub content: Seq<char>,
    pub stream: Option<Seq<char>>,
    /// The moment that the runtime noted.
    pub time: Option<Instant>,
}

impl Decoded {
    /// A line that has no shell.
    pub open spec fn bare(line: Seq<char>) -> Decoded {
        Decoded { content: line, stream: None, time: None }
    }
}

impl<'a> DecodedLine<'a> {
    /// Whether this is `d`, its moment shown on this machine's clock.
    pub open spec fn is(&self, d: Decoded) -> bool {
        &&& self.content@ == d.content
        &&& match (self.stream, d.stream) {
            (Some(a), Some(b)) => a@ == b,
            (None, None) => true,
            _ => false,
        }
        &&& match (self.time, d.time) {
            (Some(ts), Some(i)) => ts.shows(i) && clock_shows(i, ts),
            (None, None) => true,
            _ => false,
        }
    }
}

/// What the shell of a line says.
pub enum Shell {
    /// There is none.
    Missing,
    /// The line goes on in the next one.
    Part(Seq<char>),
    /// The line, or the last part of it.
    Full { time: Seq<char>, stream: Seq<char>, content: Seq<char> },
}

/// The shell of a line: `<time> <stream> <tag> <content>`. The tag is `P` or `F`
/// up to its first colon.
pub open spec fn cri_shell(line: Seq<char>) -> Shell {
    match first_split(line, ' ') {
        None => Shell::Missing,
        Some((time, rest)) => match first_split(rest, ' ') {
            None => Shell::Missing,
            Some((stream, rest)) => {
                let (tag, content) = match first_split(rest, ' ') {
                    Some(p) => p,
                    None => (rest, Seq::empty()),
                };
                let mark = tag.take(scan(tag, Stop::Char(':')));
                if stream != "stdout"@ && stream != "stderr"@ {
                    Shell::Missing
                } else if mark == "P"@ {
                    Shell::Part(content)
                } else if mark == "F"@ {
                    Shell::Full { time, stream, content }
                } else {
                    Shell::Missing
                }
            },
        },
    }
}

/// Whether no part of a line that the container runtime has cut is held.
pub open spec fn whole(held: Option<Seq<char>>) -> bool {
    match held {
        Some(parts) => parts.len() == 0,
        None => true,
    }
}

/// What a decoder gives for a line, and what it then holds. `held` is `None` for
/// lines without a shell.
pub open spec fn decoded(held: Option<Seq<char>>, line: Seq<char>) -> (
    Option<Decoded>,
    Option<Seq<char>>,
) {
    match held {
        None => (Some(Decoded::bare(line)), None),
        Some(partial) => match cri_shell(line) {
            Shell::Missing => (Some(Decoded::bare(line)), Some(partial)),
            Shell::Part(content) => (None, Some(partial + content)),
            Shell::Full { time, stream, content } => (
                Some(
                    Decoded {
                        content: partial + content,
                        stream: Some(stream),
                        time: rfc3339_instant(time),
                    },
                ),
                Some(Seq::empty()),
            ),
        },
    }
}

/// Takes lines out of their shell. The runtime cuts long lines into parts, so a
/// decoder has a state: there is one for each file.
#[derive(Debug)]
pub enum LineDecoder {
    Raw,
    Cri(CriDecoder),
}

/// Takes lines out of the shell of the container runtime interface.
#[derive(Debug)]
pub struct CriDecoder {
    partial: String,
}

impl CriDecoder {
    /// The parts of a line that has not ended yet.
    pub closed spec fn held(&self) -> Seq<char> {
        self.partial@
    }

    fn decode<'a>(&mut self, line: &'a str) -> (r: Option<DecodedLine<'a>>)
        ensures
            Some(final(self).held()) == decoded(Some(old(self).held()), line@).1,
            match (r, decoded(Some(old(self).held()), line@).0) {
                (Some(got), Some(want)) => got.is(want),
                (None, None) => true,
                _ => false,
            },
    {
        let (raw_time, rest) = match split_once(line, ' ') {
            Some(p) => p,
            None => {
                return Some(Self::raw(line));
            },
        };
        let (stream, rest) = match split_once(rest, ' ') {
            Some(p) => p,
            None => {
                return Some(Self::raw(line));
            },
        };
        let stream = if same(stream, "stdout") {
            "stdout"
        } else if same(stream, "stderr") {
            "stderr"
        } else {
            return Some(Self::raw(line));
        };
        proof {
            reveal_strlit("");
            assert(""@ =~= Seq::<char>::empty());
        }
        let (tag, content) = match split_once(rest, ' ') {
            Some(p) => p,
            None => (rest, ""),
        };
        let (mark, _) = break_at(tag, Stop::Char(':'));
        if same(mark, "P") {
            self.partial.append(content);
            return None;
        }
        if !same(mark, "F") {
            return Some(Self::raw(line));
        }
        let mut joined = String::new();
        std::mem::swap(&mut joined, &mut self.partial);
        let content = if joined.as_str().is_empty() {
            proof {
                assert(joined@ + content@ =~= content@);
            }
            Cow::Borrowed(content)
        } else {
            joined.append(content);
            Cow::Owned(joined)
        };
        let time = match parse_rfc3339(raw_time) {
            Some(i) => Some(shown_time(i)),
            None => None,
        };
        Some(DecodedLine { content, stream: Some(stream), time })
    }

    fn raw<'a>(line: &'a str) -> (r: DecodedLine<'a>)
        ensures
            r.is(Decoded::bare(line@)),
    {
        DecodedLine { content: Cow::Borrowed(line), stream: None, time: None }
    }

    fn take_partial(&mut self) -> (r: Option<String>)
        ensures
            final(self).held() == Seq::<char>::empty(),
            opt_string_view(r) == (if old(self).held().len() == 0 {
                None
            } else {
                Some(old(self).held())
            }),
    {
        let mut taken = String::new();
        std::mem::swap(&mut taken, &mut self.partial);
        if taken.as_str().is_empty() {
            proof {
                assert(self.partial@ =~= Seq::<char>::empty());
            }
            None
        } else {
            Some(taken)
        }
    }
}

impl LineDecoder {
    /// The parts of a line that has not ended yet; `None` for lines without a
    /// shell.
    pub open spec fn held(&self) -> Option<Seq<char>> {
        match *self {
            LineDecoder::Raw => None,
            LineDecoder::Cri(cri) => Some(cri.held()),
        }
    }

    /// Takes a line out of its shell. `None` means that the line is a part, and
    /// is held until the last one comes.
    pub fn decode<'a>(&mut self, line: &'a str) -> (r: Option<DecodedLine<'a>>)
        ensures
            final(self).held() == decoded(old(self).held(), line@).1,
            match (r, decoded(old(self).held(), line@).0) {
                (Some(got), Some(want)) => got.is(want),
                (None, None) => true,
                _ => false,
            },
    {
        match self {
            LineDecoder::Raw => Some(
                DecodedLine { content: Cow::Borrowed(line), stream: None, time: None },
            ),
            LineDecoder::Cri(cri) => cri.decode(line),
        }
    }

    /// Whether parts of a line are held whose last one has not come.
    pub fn has_parts(&self) -> (r: bool)
        ensures
            r == !whole(self.held()),
    {
        match self {
            LineDecoder::Raw => false,
            LineDecoder::Cri(cri) => !cri.partial.as_str().is_empty(),
        }
    }

    /// Takes out the parts of a line whose last one has not come.
    pub fn take_partial(&mut self) -> (r: Option<String>)
        ensures
            final(self).held() == (match old(self).held() {
                Some(_) => Some(Seq::<char>::empty()),
                None => None,
            }),
            opt_string_view(r) == (match old(self).held() {
                Some(held) => if held.len() == 0 {
                    None
                } else {
                    Some(held)
                },
                None => None,
            }),
    {
        match self {
            LineDecoder::Raw => None,
            LineDecoder::Cri(cri) => cri.take_partial(),
        }
    }
}

} // verus!
