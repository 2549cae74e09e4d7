//! Reading on at the end of a file: bytes become lines, lines become events.

use std::borrow::Cow;
use std::sync::Arc;

use vstd::prelude::*;
use vstd::slice::slice_subrange;
use vstd::utf8::*;

use crate::event::{field_views, Body, LogEvent};
use crate::map::{lemma_map_step, map_of, StrMap};
use crate::parser::aggregate::{flushed, gathered, Aggregator, Gathered, Rules};
use crate::parser::api::{outcome, Parser};
use crate::parser::cri::{whole, ContainerFormat};
use crate::parser::stamp::When;
use crate::source::k8s::{pod_view, PodMeta, PodView};
use crate::text::{opt_view, same};
use crate::value::{Value, ValueView};

verus! {

/// Finds the first place of a byte, or tells that there is none.
pub assume_specification[ memchr::memchr ](needle: u8, haystack: &[u8]) -> (r: Option<usize>)
    ensures
        match r {
            Some(i) => {
                &&& i < haystack@.len()
                &&& haystack@[i as int] == needle
                &&& forall|j: int| 0 <= j < i ==> #[trigger] haystack@[j] != needle
            },
            None => forall|j: int| 0 <= j < haystack@.len() ==> #[trigger] haystack@[j] != needle,
        },
;

/// The text that `String::from_utf8_lossy` makes of bytes.
pub uninterp spec fn lossy_text(bytes: Seq<u8>) -> Seq<char>;

/// Makes a text of bytes. What is UTF-8 is taken as it is; for the rest
/// `String::from_utf8_lossy` puts replacement characters, which depend on the
/// bytes alone.
pub assume_specification<'a>[ std::string::String::from_utf8_lossy ](v: &'a [u8]) -> (r: std::borrow::Cow<'a, str>)
    ensures
        r@ == lossy_text(v@),
        valid_utf8(v@) ==> r@ == decode_utf8(v@),
;

/// The place of the first line feed, or the number of bytes where there is none.
pub open spec fn line_end(b: Seq<u8>) -> int
    decreases b.len(),
{
    if b.len() == 0 || b[0] == 10 {
        0
    } else {
        1 + line_end(b.skip(1))
    }
}

/// `line_end` is the first line feed.
pub proof fn lemma_line_end(b: Seq<u8>)
    ensures
        0 <= line_end(b) <= b.len(),
        forall|i: int| 0 <= i < line_end(b) ==> #[trigger] b[i] != 10,
        line_end(b) < b.len() ==> b[line_end(b)] == 10,
    decreases b.len(),
{
    if b.len() > 0 && b[0] != 10 {
        lemma_line_end(b.skip(1));
        assert forall|i: int| 0 <= i < line_end(b) implies #[trigger] b[i] != 10 by {
            if i > 0 {
                assert(b.skip(1)[i - 1] == b[i]);
            }
        }
        if line_end(b) < b.len() {
            assert(b.skip(1)[line_end(b.skip(1))] == b[line_end(b)]);
        }
    }
}

/// There is only one first line feed.
pub proof fn lemma_line_end_unique(b: Seq<u8>, k: int)
    requires
        0 <= k <= b.len(),
        forall|i: int| 0 <= i < k ==> #[trigger] b[i] != 10,
        k < b.len() ==> b[k] == 10,
    ensures
        line_end(b) == k,
{
    lemma_line_end(b);
    let e = line_end(b);
    if e < k {
        assert(b[e] != 10);
    } else if k < e {
        assert(b[k] != 10);
    }
}

/// A line's bytes without the carriage return at their end.
pub open spec fn without_cr(b: Seq<u8>) -> Seq<u8> {
    if b.len() > 0 && b.last() == 13 {
        b.drop_last()
    } else {
        b
    }
}

/// A line's text.
pub open spec fn line_text(b: Seq<u8>) -> Seq<char> {
    lossy_text(without_cr(b))
}

/// How far a file has been read.
pub struct Tailed {
    /// What the aggregator holds.
    pub gathered: Gathered,
    /// Where the first line of the event that is held stands in the file.
    pub event_at: Option<int>,
    /// Where the first of the parts that are held stands in the file.
    pub parts_at: Option<int>,
    /// Where the first of `rest` stands in the file.
    pub offset: int,
    /// Where to read on after a restart: nothing before it is held.
    pub safe: int,
    /// What has been read of a line that has not ended.
    pub rest: Seq<u8>,
}

/// The smaller of two offsets, as far as there are any.
pub open spec fn earlier(a: Option<int>, b: Option<int>) -> Option<int> {
    match (a, b) {
        (Some(x), Some(y)) => if x <= y {
            a
        } else {
            b
        },
        (Some(_), None) => a,
        _ => b,
    }
}

impl Tailed {
    /// Where the first line stands that went into what is held.
    pub open spec fn first_held(self) -> Option<int> {
        earlier(self.event_at, self.parts_at)
    }

    /// What is held stands where it should: behind the safe offset, and before what
    /// is read next.
    pub open spec fn wf(self) -> bool {
        &&& self.event_at is Some <==> self.gathered.pending is Some
        &&& self.parts_at is Some <==> !whole(self.gathered.held)
        &&& self.event_at matches Some(at) ==> self.safe <= at < self.offset
        &&& self.parts_at matches Some(at) ==> self.safe <= at < self.offset
        &&& self.safe <= self.offset
    }
}

/// What is complete by one line: the event if there is one.
pub open spec fn one(e: Option<(When, Body)>) -> Seq<(When, Body)> {
    match e {
        Some(e) => seq![e],
        None => Seq::empty(),
    }
}

/// How far a file has been read when its next line is taken in.
///
/// An event that is complete by a line is mostly the one before; then this line
/// is still open, and only what comes before it, and before the parts that it or
/// the next one ends, is safe. Where nothing is held the event was the line itself.
pub open spec fn line_taken(rules: Rules, t: Tailed) -> (Tailed, Seq<(When, Body)>) {
    let end = line_end(t.rest);
    let (g, e) = gathered(rules, t.gathered, line_text(t.rest.take(end)));
    let next = t.offset + end + 1;
    let begin = match t.parts_at {
        Some(at) => at,
        None => t.offset,
    };
    let event_at = if g.pending is None {
        None
    } else if t.gathered.pending is Some && e is None {
        t.event_at
    } else if whole(g.held) {
        Some(begin)
    } else {
        Some(t.offset)
    };
    let parts_at = if whole(g.held) {
        None
    } else {
        Some(begin)
    };
    (
        Tailed {
            gathered: g,
            event_at,
            parts_at,
            offset: next,
            safe: match e {
                Some(_) => match earlier(event_at, parts_at) {
                    Some(first) => first,
                    None => next,
                },
                None => t.safe,
            },
            rest: t.rest.skip(end + 1),
        },
        one(e),
    )
}

/// Taking in a line keeps what is held where it should stand.
pub proof fn lemma_line_taken(rules: Rules, t: Tailed)
    requires
        t.wf(),
    ensures
        line_taken(rules, t).0.wf(),
        t.safe <= line_taken(rules, t).0.safe,
{
    lemma_line_end(t.rest);
}

/// How far a file has been read when all lines that have ended are taken in, and
/// the events that are complete by them.
pub open spec fn drained(rules: Rules, t: Tailed) -> (Tailed, Seq<(When, Body)>)
    decreases t.rest.len(),
    via drained_decreases
{
    if line_end(t.rest) >= t.rest.len() {
        (t, Seq::empty())
    } else {
        let (t1, e1) = line_taken(rules, t);
        let (t2, e2) = drained(rules, t1);
        (t2, e1 + e2)
    }
}

#[via_fn]
proof fn drained_decreases(rules: Rules, t: Tailed) {
    lemma_line_end(t.rest);
}

/// A line that has not ended and is longer than `max` is thrown away. What is held
/// is not: the safe offset stays before it.
pub open spec fn cut_short(t: Tailed, max: int) -> Tailed {
    if t.rest.len() > max {
        Tailed {
            offset: t.offset + t.rest.len(),
            safe: if t.first_held() is Some {
                t.safe
            } else {
                t.offset + t.rest.len()
            },
            rest: Seq::empty(),
            ..t
        }
    } else {
        t
    }
}

/// One thing that is done about a file that is read on.
pub enum Step {
    /// These bytes are read and taken in.
    Read(Seq<u8>),
    /// The last event is taken out.
    Flush,
}

/// How a file is read from `at` on: `held` is nothing for lines without a shell,
/// and no text for lines in one.
pub open spec fn begun(held: Option<Seq<char>>, at: int) -> Tailed {
    Tailed {
        gathered: Gathered::fresh(held),
        event_at: None,
        parts_at: None,
        offset: at,
        safe: at,
        rest: Seq::empty(),
    }
}

/// How far a file has been read after a step, and the events that come of it.
pub open spec fn stepped(rules: Rules, max: int, t: Tailed, step: Step) -> (
    Tailed,
    Seq<(When, Body)>,
) {
    match step {
        Step::Read(chunk) => {
            let (t1, es) = drained(rules, Tailed { rest: t.rest + chunk, ..t });
            (cut_short(t1, max), es)
        },
        Step::Flush => (
            Tailed {
                gathered: flushed(t.gathered).0,
                event_at: None,
                parts_at: None,
                safe: match flushed(t.gathered).1 {
                    Some(_) => t.offset,
                    None => t.safe,
                },
                ..t
            },
            one(flushed(t.gathered).1),
        ),
    }
}

/// How far a file has been read when it is let go, and the events that come of it.
/// No more of it will come: a line that has not ended is taken in as it is, and the
/// last event is taken out.
pub open spec fn let_go(rules: Rules, t: Tailed) -> (Tailed, Seq<(When, Body)>) {
    let (g, e) = if t.rest.len() == 0 {
        (t.gathered, None)
    } else {
        gathered(rules, t.gathered, line_text(t.rest))
    };
    let end = t.offset + t.rest.len();
    (
        Tailed {
            gathered: flushed(g).0,
            event_at: None,
            parts_at: None,
            offset: end,
            safe: end,
            rest: Seq::empty(),
        },
        one(e) + one(flushed(g).1),
    )
}

/// Makes a text of a line's bytes.
fn line_of<'a>(bytes: &'a [u8]) -> (r: Cow<'a, str>)
    ensures
        r@ == line_text(bytes@),
{
    let mut raw = bytes;
    if raw.len() > 0 && raw[raw.len() - 1] == 13 {
        raw = slice_subrange(raw, 0, raw.len() - 1);
        proof {
            assert(raw@ =~= bytes@.drop_last());
        }
    }
    String::from_utf8_lossy(raw)
}

/// What the events of a file say of where they come from.
pub struct Origin {
    pub file: Seq<char>,
    pub host: Seq<char>,
    pub shared: Option<Map<Seq<char>, ValueView>>,
}

impl Origin {
    /// An event with where it comes from.
    pub open spec fn mark(self, e: (When, Body)) -> (When, Body) {
        (e.0, Body { file: self.file, host: self.host, shared: self.shared, ..e.1 })
    }
}

/// Whether events are those that are wanted, with where they come from.
pub open spec fn delivers(got: Seq<LogEvent>, want: Seq<(When, Body)>, origin: Origin) -> bool {
    &&& got.len() == want.len()
    &&& forall|i: int|
        0 <= i < got.len() ==> outcome(Some(origin.mark(#[trigger] want[i])), Some(got[i]))
}

/// Whether `new` is `old` with the wanted events behind it.
pub open spec fn adds(
    old: Seq<LogEvent>,
    new: Seq<LogEvent>,
    want: Seq<(When, Body)>,
    origin: Origin,
) -> bool {
    &&& old.len() <= new.len()
    &&& new.take(old.len() as int) == old
    &&& delivers(new.skip(old.len() as int), want, origin)
}

proof fn lemma_adds_one(
    old: Seq<LogEvent>,
    mid: Seq<LogEvent>,
    event: LogEvent,
    want: Seq<(When, Body)>,
    e: (When, Body),
    origin: Origin,
)
    requires
        adds(old, mid, want, origin),
        outcome(Some(origin.mark(e)), Some(event)),
    ensures
        adds(old, mid.push(event), want.push(e), origin),
{
    let new = mid.push(event);
    assert(new.take(old.len() as int) =~= old);
    let tail = new.skip(old.len() as int);
    let before = mid.skip(old.len() as int);
    assert(tail =~= before.push(event));
    assert forall|i: int| 0 <= i < tail.len() implies outcome(
        Some(origin.mark(#[trigger] want.push(e)[i])),
        Some(tail[i]),
    ) by {
        if i < before.len() {
            assert(want.push(e)[i] == want[i]);
        }
    }
}

/// What the fields that all events share hold.
pub open spec fn shared_view(shared: Option<Arc<StrMap<Value>>>) -> Option<
    Map<Seq<char>, ValueView>,
> {
    match shared {
        Some(shared) => Some(field_views(shared@)),
        None => None,
    }
}

/// Puts an event's file, host and shared fields in place.
pub fn decorate(
    event: LogEvent,
    file: &Arc<String>,
    host: &Arc<String>,
    shared: &Option<Arc<StrMap<Value>>>,
) -> (r: LogEvent)
    requires
        event.wf(),
        shared matches Some(s) ==> s.wf(),
    ensures
        r.wf(),
        r.timestamp == event.timestamp,
        r.body() == (Body {
            file: file@,
            host: host@,
            shared: shared_view(*shared),
            ..event.body()
        }),
{
    let mut event = event;
    event.file = file.clone();
    event.host = host.clone();
    event.shared = match shared {
        Some(shared) => Some(shared.clone()),
        None => None,
    };
    event
}

/// An offset, as far as there is one.
pub open spec fn place(offset: Option<u64>) -> Option<int> {
    match offset {
        Some(at) => Some(at as int),
        None => None,
    }
}

/// How far a file has been read when the first `start` bytes of `all` that were read
/// are taken in.
spec fn tail_at<P: Parser>(w: &Watcher<P>, start: int, all: Seq<u8>) -> Tailed {
    Tailed { offset: w.offset + start, rest: all.skip(start), ..w.tail() }
}

/// One file that is read on as it grows.
pub struct Watcher<P: Parser> {
    /// The file's fingerprint.
    pub key: String,
    /// The container that the file is the log of.
    pub pod: Option<PodMeta>,
    pub path: String,
    /// The path, as events have it.
    pub file_field: Arc<String>,
    /// Where the first byte of `buf` stands in the file.
    pub offset: u64,
    /// Where to read on after a restart: nothing before it is held.
    pub safe_offset: u64,
    /// Where the first line of the event that is held stands in the file.
    pub event_offset: Option<u64>,
    /// Where the first part of a line that is held stands in the file.
    pub parts_offset: Option<u64>,
    pub buf: Vec<u8>,
    pub aggregator: Aggregator<P>,
    /// Fields that every event of the file has.
    pub shared: Option<Arc<StrMap<Value>>>,
    pub host: Arc<String>,
    /// When the last event was first seen to wait for more lines, in
    /// milliseconds.
    pub pending_since: Option<u64>,
    pub at_eof: bool,
    /// Whether the last scan found the file.
    pub seen: bool,
}

impl<P: Parser> Watcher<P> {
    /// How far the file has been read.
    pub open spec fn tail(&self) -> Tailed {
        Tailed {
            gathered: self.aggregator.state(),
            event_at: place(self.event_offset),
            parts_at: place(self.parts_offset),
            offset: self.offset as int,
            safe: self.safe_offset as int,
            rest: self.buf@,
        }
    }

    /// Where the events come from.
    pub open spec fn origin(&self) -> Origin {
        Origin { file: self.file_field@, host: self.host@, shared: shared_view(self.shared) }
    }

    /// What has been read lies in a file; what is held stands behind what is safe.
    pub open spec fn wf(&self) -> bool {
        &&& self.aggregator.wf()
        &&& self.shared matches Some(s) ==> s.wf()
        &&& self.tail().wf()
        &&& self.offset + self.buf@.len() <= u64::MAX
    }

    /// Whether nothing but the reading differs from `other`.
    pub open spec fn same_file(&self, other: &Self) -> bool {
        &&& self.key@ == other.key@
        &&& pod_view(self.pod) == pod_view(other.pod)
        &&& self.path@ == other.path@
        &&& self.file_field == other.file_field
        &&& self.shared == other.shared
        &&& self.host == other.host
        &&& self.seen == other.seen
        &&& self.aggregator.rules() == other.aggregator.rules()
    }

    /// Starts to watch a file from an offset.
    pub fn new(
        key: String,
        pod: Option<PodMeta>,
        path: String,
        start: u64,
        parser: Arc<P>,
        format: ContainerFormat,
        shared: StrMap<Value>,
        host: Arc<String>,
    ) -> (r: Self)
        requires
            shared.wf(),
        ensures
            r.wf(),
            r.key@ == key@,
            r.pod == pod,
            r.path@ == path@,
            r.seen,
            !r.at_eof,
            r.pending_since is None,
            r.origin() == (Origin {
                file: path@,
                host: host@,
                shared: if shared@ == Map::<Seq<char>, Value>::empty() {
                    None
                } else {
                    Some(field_views(shared@))
                },
            }),
            r.tail() == begun(format.held(), start as int),
            forall|line: Seq<char>| #[trigger]
                (r.aggregator.rules().reads)(line) == parser.reads(line),
            r.aggregator.rules().max_lines == 500,
            r.aggregator.rules().max_bytes == 256 * 1024,
    {
        let shared = if shared.is_empty() {
            None
        } else {
            Some(Arc::new(shared))
        };
        Watcher {
            key,
            pod,
            file_field: Arc::new(path.clone()),
            path,
            offset: start,
            safe_offset: start,
            event_offset: None,
            parts_offset: None,
            buf: Vec::new(),
            aggregator: Aggregator::new(parser).decoder(format.decoder()),
            shared,
            host,
            pending_since: None,
            at_eof: false,
            seen: true,
        }
    }

    /// Whether this is `old` when a scan has found its file at `path`. Events that
    /// are read from then on carry that path.
    pub open spec fn is_found_at(&self, old: &Self, path: Seq<char>) -> bool {
        &&& self.wf()
        &&& self.seen
        &&& self.path@ == path
        &&& self.origin() == Origin {
            file: if old.path@ == path {
                old.origin().file
            } else {
                path
            },
            ..old.origin()
        }
        &&& self.tail() == old.tail()
        &&& self.key == old.key
        &&& self.pod == old.pod
        &&& self.at_eof == old.at_eof
        &&& self.pending_since == old.pending_since
        &&& self.aggregator.rules() == old.aggregator.rules()
    }

    /// Notes that a scan found the file at `path`.
    pub fn found_at(&mut self, path: &str)
        requires
            old(self).wf(),
        ensures
            final(self).is_found_at(old(self), path@),
    {
        self.seen = true;
        if !same(self.path.as_str(), path) {
            self.file_field = Arc::new(path.to_owned());
            self.path = path.to_owned();
        }
    }

    /// Whether the file is a log of the same pod, of whatever container.
    pub fn same_pod(&self, meta: &PodMeta) -> (r: bool)
        ensures
            r == is_of_pod(pod_view(self.pod), meta@),
    {
        match &self.pod {
            Some(pod) => same(pod.namespace.as_str(), meta.namespace.as_str()) && same(
                pod.pod.as_str(),
                meta.pod.as_str(),
            ),
            None => false,
        }
    }

    /// Whether this is `old` with a label of its pod taken in. Where there is
    /// none, a `service_name` among the fields stays as it is.
    pub open spec fn is_named(&self, old: &Self, name: Option<Seq<char>>) -> bool {
        &&& self.wf()
        &&& self.origin() == Origin {
            shared: match name {
                Some(name) => Some(
                    (match old.origin().shared {
                        Some(shared) => shared,
                        None => Map::empty(),
                    }).insert("service_name"@, ValueView::Text(name)),
                ),
                None => old.origin().shared,
            },
            ..old.origin()
        }
        &&& self.tail() == old.tail()
        &&& self.key == old.key
        &&& self.pod == old.pod
        &&& self.path == old.path
        &&& self.seen == old.seen
        &&& self.at_eof == old.at_eof
        &&& self.pending_since == old.pending_since
        &&& self.aggregator.rules() == old.aggregator.rules()
    }

    /// Takes in the pod's label.
    pub fn set_service_name(&mut self, name: Option<&str>)
        requires
            old(self).wf(),
        ensures
            final(self).is_named(old(self), opt_view(name)),
    {
        let name = match name {
            Some(name) => name,
            None => {
                return ;
            },
        };
        let mut shared = match &self.shared {
            Some(shared) => duplicate_fields(shared),
            None => {
                let none: StrMap<Value> = StrMap::new();
                proof {
                    assert(field_views(none@) =~= Map::empty());
                }
                none
            },
        };
        let ghost before = shared@;
        let value = Value::text(name);
        shared.insert("service_name".to_owned(), value);
        proof {
            assert(field_views(before.insert("service_name"@, value)) =~= field_views(
                before,
            ).insert("service_name"@, value@));
        }
        self.shared = Some(Arc::new(shared));
    }

    /// Looks at the length of the file. A file that is shorter than what has been
    /// read was cut off and is written anew: reading starts again, and the last
    /// event is complete.
    pub fn check_length(&mut self, len: u64, events: &mut Vec<LogEvent>) -> (r: bool)
        requires
            old(self).wf(),
        ensures
            r == (len < old(self).offset + old(self).buf@.len()),
            final(self).wf(),
            final(self).same_file(old(self)),
            final(self).at_eof == old(self).at_eof,
            final(self).pending_since == old(self).pending_since,
            if r {
                &&& final(self).tail() == (Tailed {
                    gathered: flushed(old(self).tail().gathered).0,
                    event_at: None,
                    parts_at: None,
                    offset: 0,
                    safe: 0,
                    rest: Seq::empty(),
                })
                &&& adds(
                    old(events)@,
                    final(events)@,
                    one(flushed(old(self).tail().gathered).1),
                    old(self).origin(),
                )
            } else {
                &&& final(self).tail() == old(self).tail()
                &&& final(events)@ == old(events)@
            },
    {
        if len >= self.offset + self.buf.len() as u64 {
            return false;
        }
        self.buf = Vec::new();
        self.offset = 0;
        self.safe_offset = 0;
        self.event_offset = None;
        self.parts_offset = None;
        let ghost e = flushed(self.tail().gathered).1;
        proof {
            assert(events@.take(events@.len() as int) =~= events@);
            assert(events@.skip(events@.len() as int) =~= Seq::<LogEvent>::empty());
        }
        if let Some(event) = self.aggregator.flush() {
            let event = decorate(event, &self.file_field, &self.host, &self.shared);
            proof {
                lemma_adds_one(
                    old(events)@,
                    old(events)@,
                    event,
                    Seq::empty(),
                    e->0,
                    old(self).origin(),
                );
                assert(Seq::<(When, Body)>::empty().push(e->0) =~= one(e));
            }
            events.push(event);
        }
        true
    }

    /// Takes in what was read; nothing means that the end of the file was
    /// reached.
    pub fn take(&mut self, chunk: &[u8], max_line_bytes: usize, events: &mut Vec<LogEvent>)
        requires
            old(self).wf(),
            old(self).offset + old(self).buf@.len() + chunk@.len() <= u64::MAX,
        ensures
            final(self).wf(),
            final(self).same_file(old(self)),
            final(self).at_eof == (chunk@.len() == 0),
            if chunk@.len() == 0 {
                &&& final(self).tail() == old(self).tail()
                &&& final(events)@ == old(events)@
                &&& final(self).pending_since == old(self).pending_since
            } else {
                let (t, es) = stepped(
                    old(self).aggregator.rules(),
                    max_line_bytes as int,
                    old(self).tail(),
                    Step::Read(chunk@),
                );
                let bytes = old(self).buf@ + chunk@;
                &&& final(self).tail() == t
                &&& adds(old(events)@, final(events)@, es, old(self).origin())
                &&& final(self).pending_since == if line_end(bytes) < bytes.len() {
                    None
                } else {
                    old(self).pending_since
                }
            },
    {
        if chunk.len() == 0 {
            self.at_eof = true;
            return ;
        }
        self.at_eof = false;
        let ghost before = self.buf@;
        self.buf.extend_from_slice(chunk);
        proof {
            assert(self.buf@ =~= before + chunk@);
        }
        self.drain_lines(max_line_bytes, events);
    }

    /// Takes in all lines that have ended.
    fn drain_lines(&mut self, max_line_bytes: usize, events: &mut Vec<LogEvent>)
        requires
            old(self).wf(),
        ensures
            final(self).wf(),
            final(self).same_file(old(self)),
            final(self).at_eof == old(self).at_eof,
            final(self).tail() == cut_short(
                drained(old(self).aggregator.rules(), old(self).tail()).0,
                max_line_bytes as int,
            ),
            adds(
                old(events)@,
                final(events)@,
                drained(old(self).aggregator.rules(), old(self).tail()).1,
                old(self).origin(),
            ),
            final(self).pending_since == (if line_end(old(self).buf@) < old(self).buf@.len() {
                None
            } else {
                old(self).pending_since
            }),
    {
        let ghost rules = self.aggregator.rules();
        let ghost origin = self.origin();
        let ghost t0 = self.tail();
        let ghost all = self.buf@;
        let ghost before = events@;
        let ghost mut done: Seq<(When, Body)> = Seq::empty();
        let mut start: usize = 0;
        proof {
            assert(all.skip(0) =~= all);
            assert(before.take(before.len() as int) =~= before);
            assert(before.skip(before.len() as int) =~= Seq::<LogEvent>::empty());
            assert(done + drained(rules, t0).1 =~= drained(rules, t0).1);
        }
        loop
            invariant
                self.aggregator.wf(),
                self.shared matches Some(s) ==> s.wf(),
                self.offset + all.len() <= u64::MAX,
                self.buf@ == all,
                start <= all.len(),
                self.same_file(old(self)),
                self.at_eof == old(self).at_eof,
                self.aggregator.rules() == rules,
                self.origin() == origin,
                self.offset == t0.offset,
                tail_at(self, start as int, all).wf(),
                rules == old(self).aggregator.rules(),
                t0 == old(self).tail(),
                all == t0.rest,
                adds(before, events@, done, origin),
                ({
                    let t = tail_at(self, start as int, all);
                    &&& drained(rules, t0).0 == drained(rules, t).0
                    &&& drained(rules, t0).1 == done + drained(rules, t).1
                }),
                start == 0 ==> self.pending_since == old(self).pending_since,
                start > 0 ==> self.pending_since is None && line_end(all) < all.len(),
            ensures
                line_end(all.skip(start as int)) >= all.len() - start,
            decreases all.len() - start,
        {
            let ghost t = tail_at(self, start as int, all);
            let window = slice_subrange(self.buf.as_slice(), start, self.buf.len());
            proof {
                assert(window@ =~= t.rest);
            }
            let index: usize = match memchr::memchr(10, window) {
                Some(index) => index,
                None => {
                    proof {
                        lemma_line_end_unique(t.rest, t.rest.len() as int);
                    }
                    break ;
                },
            };
            proof {
                lemma_line_end_unique(t.rest, index as int);
                if start == 0 {
                    assert(t.rest =~= all);
                }
            }
            let end: usize = start + index;
            let line_offset: u64 = self.offset + start as u64;
            let raw = slice_subrange(self.buf.as_slice(), start, end);
            proof {
                assert(raw@ =~= t.rest.take(index as int));
            }
            let line = line_of(raw);
            let text: &str = match &line {
                Cow::Borrowed(text) => text,
                Cow::Owned(text) => text.as_str(),
            };
            proof {
                assert(text@ == line_text(t.rest.take(index as int)));
            }
            let ghost (t1, e1) = line_taken(rules, t);
            start = end + 1;
            let begin: u64 = match self.parts_offset {
                Some(at) => at,
                None => line_offset,
            };
            let had_event = self.aggregator.has_pending();
            let complete = self.aggregator.push(text);
            let has_parts = self.aggregator.has_parts();
            if !self.aggregator.has_pending() {
                self.event_offset = None;
            } else if !had_event || complete.is_some() {
                self.event_offset = Some(
                    if has_parts {
                        line_offset
                    } else {
                        begin
                    },
                );
            }
            self.parts_offset = if has_parts {
                Some(begin)
            } else {
                None
            };
            if let Some(event) = complete {
                let event = decorate(event, &self.file_field, &self.host, &self.shared);
                proof {
                    lemma_adds_one(before, events@, event, done, e1[0], origin);
                    assert(done.push(e1[0]) =~= done + e1);
                }
                events.push(event);
                self.safe_offset = match self.first_offset() {
                    Some(first) => first,
                    None => self.offset + start as u64,
                };
            } else {
                proof {
                    assert(done + e1 =~= done);
                }
            }
            self.pending_since = None;
            proof {
                lemma_line_taken(rules, t);
                assert(all.skip(start as int) =~= t1.rest);
                assert(tail_at(self, start as int, all) == t1);
                assert((done + e1) + drained(rules, t1).1 =~= done + (e1 + drained(rules, t1).1));
                done = done + e1;
            }
        }
        let ghost t = tail_at(self, start as int, all);
        proof {
            assert(drained(rules, t) == (t, Seq::<(When, Body)>::empty()));
            assert(done + Seq::<(When, Body)>::empty() =~= done);
        }
        let rest = self.buf.split_off(start);
        self.buf = rest;
        self.offset = self.offset + start as u64;
        proof {
            assert(self.buf@ =~= t.rest);
        }
        if self.buf.len() > max_line_bytes {
            self.offset = self.offset + self.buf.len() as u64;
            if self.first_offset().is_none() {
                self.safe_offset = self.offset;
            }
            self.buf = Vec::new();
            proof {
                assert(self.buf@ =~= Seq::<u8>::empty());
            }
        }
    }

    /// Where the first line stands that went into what is held.
    fn first_offset(&self) -> (r: Option<u64>)
        ensures
            place(r) == self.tail().first_held(),
    {
        match (self.event_offset, self.parts_offset) {
            (Some(event), Some(parts)) => Some(
                if event <= parts {
                    event
                } else {
                    parts
                },
            ),
            (Some(event), None) => Some(event),
            (None, parts) => parts,
        }
    }

    /// Takes out the last event. All that has been read is safe then, but for a
    /// line that has not ended.
    pub fn flush_pending(&mut self) -> (r: Option<LogEvent>)
        requires
            old(self).wf(),
        ensures
            final(self).wf(),
            final(self).same_file(old(self)),
            final(self).at_eof == old(self).at_eof,
            final(self).tail() == stepped(
                old(self).aggregator.rules(),
                0,
                old(self).tail(),
                Step::Flush,
            ).0,
            match flushed(old(self).tail().gathered).1 {
                Some(e) => {
                    &&& outcome(Some(old(self).origin().mark(e)), r)
                    &&& final(self).pending_since is None
                },
                None => r is None && final(self).pending_since == old(self).pending_since,
            },
    {
        match self.aggregator.flush() {
            Some(event) => {
                self.safe_offset = self.offset;
                self.event_offset = None;
                self.parts_offset = None;
                self.pending_since = None;
                Some(decorate(event, &self.file_field, &self.host, &self.shared))
            },
            None => None,
        }
    }

    /// Takes out all that is left of a file that is let go, be it an event that
    /// waits for more lines, parts of a line or a line that has not ended.
    pub fn let_go(&mut self, events: &mut Vec<LogEvent>)
        requires
            old(self).wf(),
        ensures
            final(self).wf(),
            final(self).same_file(old(self)),
            final(self).at_eof == old(self).at_eof,
            final(self).pending_since is None,
            final(self).tail() == let_go(old(self).aggregator.rules(), old(self).tail()).0,
            adds(
                old(events)@,
                final(events)@,
                let_go(old(self).aggregator.rules(), old(self).tail()).1,
                old(self).origin(),
            ),
    {
        let ghost rules = self.aggregator.rules();
        let ghost origin = self.origin();
        let ghost before = events@;
        let ghost mut done: Seq<(When, Body)> = Seq::empty();
        proof {
            assert(before.take(before.len() as int) =~= before);
            assert(before.skip(before.len() as int) =~= Seq::<LogEvent>::empty());
        }
        if self.buf.len() > 0 {
            let line = line_of(self.buf.as_slice());
            let text: &str = match &line {
                Cow::Borrowed(text) => text,
                Cow::Owned(text) => text.as_str(),
            };
            let ghost e = gathered(rules, self.aggregator.state(), text@).1;
            if let Some(event) = self.aggregator.push(text) {
                let event = decorate(event, &self.file_field, &self.host, &self.shared);
                proof {
                    lemma_adds_one(before, events@, event, done, e->0, origin);
                    done = done.push(e->0);
                }
                events.push(event);
            }
            proof {
                assert(done =~= one(e));
            }
        }
        let ghost had = done;
        let ghost e = flushed(self.aggregator.state()).1;
        if let Some(event) = self.aggregator.flush() {
            let event = decorate(event, &self.file_field, &self.host, &self.shared);
            proof {
                lemma_adds_one(before, events@, event, done, e->0, origin);
                done = done.push(e->0);
            }
            events.push(event);
        }
        proof {
            assert(done =~= had + one(e));
        }
        self.offset = self.offset + self.buf.len() as u64;
        self.safe_offset = self.offset;
        self.event_offset = None;
        self.parts_offset = None;
        self.buf = Vec::new();
        self.pending_since = None;
        proof {
            assert(self.buf@ =~= Seq::<u8>::empty());
        }
    }

    /// Whether the last event has waited long enough for more lines.
    pub open spec fn is_ripe(&self, now: u64, idle_flush: u64) -> bool {
        &&& self.at_eof
        &&& self.aggregator.state().pending is Some
        &&& match self.pending_since {
            Some(since) => since + idle_flush <= now || idle_flush == 0,
            None => false,
        }
    }

    /// Ends a turn of reading: at the end of the file, an event that has waited
    /// for more lines for `idle_flush` milliseconds is complete.
    pub fn settle(&mut self, now: u64, idle_flush: u64, events: &mut Vec<LogEvent>)
        requires
            old(self).wf(),
        ensures
            final(self).wf(),
            final(self).same_file(old(self)),
            final(self).at_eof == old(self).at_eof,
            if old(self).is_ripe(now, idle_flush) {
                let (t, es) = stepped(
                    old(self).aggregator.rules(),
                    0,
                    old(self).tail(),
                    Step::Flush,
                );
                &&& final(self).tail() == t
                &&& adds(old(events)@, final(events)@, es, old(self).origin())
                &&& final(self).pending_since is None
            } else {
                &&& final(self).tail() == old(self).tail()
                &&& final(events)@ == old(events)@
                &&& final(self).pending_since == if old(self).at_eof
                    && old(self).aggregator.state().pending is Some && old(
                    self,
                ).pending_since is None {
                    Some(now)
                } else {
                    old(self).pending_since
                }
            },
    {
        if !self.at_eof || !self.aggregator.has_pending() {
            return ;
        }
        match self.pending_since {
            Some(since) => {
                if now.saturating_sub(since) >= idle_flush {
                    let ghost e = flushed(self.tail().gathered).1;
                    proof {
                        assert(events@.take(events@.len() as int) =~= events@);
                        assert(events@.skip(events@.len() as int) =~= Seq::<LogEvent>::empty());
                    }
                    if let Some(event) = self.flush_pending() {
                        proof {
                            lemma_adds_one(
                                old(events)@,
                                old(events)@,
                                event,
                                Seq::empty(),
                                e->0,
                                old(self).origin(),
                            );
                            assert(Seq::<(When, Body)>::empty().push(e->0) =~= one(e));
                        }
                        events.push(event);
                    }
                }
            },
            None => {
                self.pending_since = Some(now);
            },
        }
    }
}

/// Whether a file is a log of the same pod, of whatever container.
pub open spec fn is_of_pod(pod: Option<PodView>, meta: PodView) -> bool {
    match pod {
        Some(pod) => pod.namespace == meta.namespace && pod.pod == meta.pod,
        None => false,
    }
}

/// A copy of fields that holds the same.
pub fn duplicate_fields(fields: &StrMap<Value>) -> (r: StrMap<Value>)
    requires
        fields.wf(),
    ensures
        r.wf(),
        field_views(r@) == field_views(fields@),
{
    let ghost list = fields.list();
    let mut out: StrMap<Value> = StrMap::new();
    let count: usize = fields.len();
    proof {
        assert(field_views(out@) =~= field_views(map_of(list.take(0))));
    }
    for i in 0..count
        invariant
            fields.wf(),
            list == fields.list(),
            count == list.len(),
            out.wf(),
            field_views(out@) == field_views(map_of(list.take(i as int))),
    {
        let (key, value) = fields.entry(i);
        let copy = value.duplicate();
        let ghost before = out@;
        out.insert(key.clone(), copy);
        proof {
            lemma_map_step(list, i as int);
            let had = map_of(list.take(i as int));
            assert(field_views(before.insert(key@, copy)) =~= field_views(before).insert(
                key@,
                copy@,
            ));
            assert(field_views(had.insert(key@, *value)) =~= field_views(had).insert(
                key@,
                value@,
            ));
        }
    }
    proof {
        assert(list.take(count as int) =~= list);
    }
    out
}

} // verus!
