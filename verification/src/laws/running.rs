//! What happens step by step: lines become events, events batches, batches requests; and
//! what a configuration makes of all that.

use std::sync::Arc;

use vstd::prelude::*;

use crate::batch::{BatchConfig, RetryConfig};
use crate::config::{Assembly, Config, SinkConfig, SinkPlan};
use crate::config::SourceConfig;
use crate::error::Error;
use crate::event::{field_views, list_views, Body, LogEvent};
use crate::laws::rows::ended_lines;
use crate::map::StrMap;
use crate::parser::aggregate::{flushed, gathered, Aggregator, Rules};
use crate::parser::api::{outcome, Parser};
use crate::parser::chain::ChainParser;
use crate::parser::stamp::When;
use crate::pipeline::{conclude, flatten, may_start, reserve, sizes, Batcher, Flight, FlushStep};
use crate::pipeline::{Heard, OnError, PipelineBuilder, Plan, TaskEnd};
use crate::sink::clickhouse::ClickhouseSink;
use crate::sink::console::{encode, lines_text, Encoding};
use crate::source::checkpoint::Checkpointer;
use crate::source::file::{FileSource, LabelSource, COMMIT_WAIT_MS, READ_CHUNK};
use crate::source::read::{Delivery, ReadTurn};
use crate::source::schedule::{Done, Schedule, Task};
use crate::source::stdin::{StdinReader, StdinSource};
use crate::source::tail::{adds, cut_short, decorate, drained, lemma_line_end, lemma_line_end_unique};
use crate::source::tail::{lemma_line_taken, line_end, line_taken, lossy_text, one, stepped, Step};
use crate::source::tail::{Tailed, Watcher};
use crate::text::{byte_len, opt_string_view, texts_view, trimmed_end_char};
use crate::value::{entry_sizes, value_size, NumberView, Value, ValueView};

verus! {

/// Whether a number of events or bytes makes a full batch.
pub open spec fn makes_full(batch: &BatchConfig, events: Seq<LogEvent>) -> bool {
    events.len() >= batch.max_events || sizes(events) >= batch.max_bytes
}

/// Events that come in are gathered behind those that are there, with the receipt that is
/// asked for; the batch is due as soon as it is full, and not before, unless it was. The
/// first event that waits says when it is due at the latest, later ones do not put that off.
pub proof fn law_events_are_gathered<A>(
    b: &mut Batcher<A>,
    events: Vec<LogEvent>,
    receipt: Option<A>,
    now: u64,
    batch: &BatchConfig,
)
    requires
        old(b).wf(),
        call_ensures(
            Batcher::<A>::hear,
            (b, Heard::Batch { events, receipt }, now, batch),
            (),
        ),
    ensures
        final(b).pending.events@ == old(b).pending.events@ + events@,
        final(b).pending.receipts@ == match receipt {
            Some(a) => old(b).pending.receipts@.push(a),
            None => old(b).pending.receipts@,
        },
        old(b).due ==> final(b).due,
        makes_full(batch, final(b).pending.events@) ==> final(b).due,
        !old(b).due && !makes_full(batch, final(b).pending.events@) ==> !final(b).due,
        old(b).deadline is Some ==> final(b).deadline == old(b).deadline,
        old(b).deadline is None && now + batch.timeout_ms <= u64::MAX ==> final(b).deadline == Some(
            (now + batch.timeout_ms) as u64,
        ),
        final(b).closed == old(b).closed,
{
    assert(final(b).owed().events == final(b).pending.events@);
    assert(final(b).owed().receipts == final(b).pending.receipts@);
    let s = sizes(final(b).pending.events@);
    assert(s > usize::MAX ==> batch.max_bytes <= usize::MAX);
}

/// When the time has come, or the source has come to its end, what is there is due. The
/// source is listened to as long as nothing is due, and all is over when it has come to its
/// end and nothing is left.
pub proof fn law_what_waits_becomes_due<A>(
    b: &mut Batcher<A>,
    c: &mut Batcher<A>,
    d: &Batcher<A>,
    now: u64,
    batch: &BatchConfig,
    listens: bool,
    over: bool,
)
    requires
        call_ensures(Batcher::<A>::hear, (b, Heard::Deadline, now, batch), ()),
        call_ensures(Batcher::<A>::hear, (c, Heard::Closed, now, batch), ()),
        call_ensures(Batcher::<A>::listens, (d,), listens),
        call_ensures(Batcher::<A>::is_over, (d,), over),
    ensures
        final(b).due && final(b).pending == old(b).pending && final(b).closed == old(b).closed,
        final(c).due && final(c).closed && final(c).pending == old(c).pending,
        listens <==> !d.due && !d.closed,
        over <==> d.closed && !d.due,
{
}

/// What is due is handed over whole, events and receipts, and nothing is kept back; what is
/// not due is not handed over.
pub proof fn law_what_is_due_is_handed_over<A>(b: &mut Batcher<A>, r: Option<Flight<A>>)
    requires
        old(b).wf(),
        call_ensures(Batcher::<A>::hand_over, (b,), r),
    ensures
        old(b).due <==> r is Some,
        r is None ==> *final(b) == *old(b),
        r matches Some(flight) ==> {
            &&& flight.pending.events@ == old(b).pending.events@
            &&& flight.pending.receipts@ == old(b).pending.receipts@
            &&& flight.attempt == 0
            &&& final(b).pending.events@.len() == 0 && final(b).pending.receipts@.len() == 0
            &&& !final(b).due && final(b).deadline is None && final(b).closed == old(b).closed
        },
{
    if let Some(flight) = r {
        assert(flight.owed().events == flight.pending.events@);
        assert(flight.owed().receipts == flight.pending.receipts@);
        assert(final(b).owed().events == final(b).pending.events@);
        assert(final(b).owed().receipts == final(b).pending.receipts@);
    }
}

/// A batch with events is written; one without gives its receipts out at once. A batch that
/// the sink stored gives out all of its receipts. One that it did not is tried again after a
/// wait as long as there are attempts left; then all stops with the batch as it was, or,
/// where that is asked for, the batch is thrown away and gives out none.
pub proof fn law_batches_are_tried_and_settled<A>(
    s: &mut Flight<A>,
    first: FlushStep<A>,
    f: &mut Flight<A>,
    ok: bool,
    retry: &RetryConfig,
    on_error: OnError,
    wait: u64,
    r: FlushStep<A>,
)
    requires
        old(s).wf(),
        call_ensures(Flight::<A>::start_flush, (s,), first),
        old(f).wf(),
        old(f).attempt >= 1,
        call_ensures(Flight::<A>::written, (f, ok, retry, on_error), r),
        call_ensures(RetryConfig::backoff, (retry, old(f).attempt), wait),
    ensures
        old(s).pending.events@.len() > 0 ==> first is Write && final(s).pending.events@
            == old(s).pending.events@ && final(s).pending.receipts@ == old(s).pending.receipts@,
        old(s).pending.events@.len() == 0 ==> (first matches FlushStep::Done(given)
            && given@ == old(s).pending.receipts@),
        final(s).attempt == 1,
        ok ==> (r matches FlushStep::Done(given) && given@ == old(f).pending.receipts@),
        ok ==> final(f).pending.events@.len() == 0 && final(f).pending.receipts@.len() == 0,
        !ok && old(f).attempt < retry.max_attempts ==> r == FlushStep::<A>::Wait(wait)
            && final(f).attempt == old(f).attempt + 1 && final(f).pending.events@
            == old(f).pending.events@ && final(f).pending.receipts@ == old(f).pending.receipts@,
        !ok && old(f).attempt >= retry.max_attempts && on_error is Stop ==> r is Failed
            && final(f).pending.events@ == old(f).pending.events@ && final(f).pending.receipts@
            == old(f).pending.receipts@,
        !ok && old(f).attempt >= retry.max_attempts && on_error is Drop ==> (r matches FlushStep::Done(
            given,
        ) && given@.len() == 0) && final(f).pending.events@.len() == 0
            && final(f).pending.receipts@.len() == 0,
{
    assert(final(s).owed().events == final(s).pending.events@);
    assert(final(s).owed().receipts == final(s).pending.receipts@);
    assert(final(f).owed().events == final(f).pending.events@);
    assert(final(f).owed().receipts == final(f).pending.receipts@);
    assert(old(f).owed().receipts == old(f).pending.receipts@);
    assert(old(s).owed().receipts == old(s).pending.receipts@);
}

/// The wait after a failure is as long as the attempts ask for: the first as it is set, each
/// other twice the one before it, up to the longest.
pub proof fn law_waits_are_as_set(
    retry: &RetryConfig,
    attempt: usize,
    a: u64,
    b: u64,
    first: u64,
)
    requires
        1 <= attempt < usize::MAX,
        call_ensures(RetryConfig::backoff, (retry, 1), first),
        call_ensures(RetryConfig::backoff, (retry, attempt), a),
        call_ensures(RetryConfig::backoff, (retry, (attempt + 1) as usize), b),
    ensures
        first == if retry.initial_backoff_ms < retry.max_backoff_ms {
            retry.initial_backoff_ms
        } else {
            retry.max_backoff_ms
        },
        b == if 2 * a < retry.max_backoff_ms {
            (2 * a) as u64
        } else {
            retry.max_backoff_ms
        },
{
    crate::laws::storage::law_waits_double(*retry, attempt as nat);
    crate::laws::storage::law_waits_double(*retry, 1);
}

/// The reckoned size of an event: all its texts, its fields, and what is written around
/// them; a batch is as large as its events together. No batch takes more room than there is,
/// and each takes some.
pub proof fn law_sizes_are_reckoned(
    event: &LogEvent,
    r: usize,
    before: Seq<LogEvent>,
    events: &Vec<LogEvent>,
    capacity: u32,
    taken: u32,
)
    requires
        call_ensures(LogEvent::estimated_size, (event,), r),
        capacity >= 1,
        call_ensures(reserve, (events, capacity), taken),
    ensures
        event.size() == 160 + byte_len(event.level@) + byte_len(event.trace_id@) + byte_len(
            event.span_id@,
        ) + byte_len(event.thread@) + byte_len(event.logger@) + byte_len(event.message@) + byte_len(
            event.file@,
        ) + byte_len(event.host@) + entry_sizes(list_views(event.fields.list())) + (
        match event.shared {
            Some(shared) => entry_sizes(list_views(shared.list())),
            None => 0,
        }),
        event.size() <= usize::MAX ==> r == event.size(),
        event.size() > usize::MAX ==> r == usize::MAX,
        sizes(before.push(*event)) == sizes(before) + event.size(),
        1 <= taken <= capacity,
        1 <= sizes(events@) <= capacity ==> taken == sizes(events@),
        sizes(events@) > capacity ==> taken == capacity,
{
    assert(before.push(*event).drop_last() =~= before);
}

/// The reckoned size of a field is that of its name and of its value in JSON.
pub proof fn law_values_have_sizes(
    entries: Seq<(Seq<char>, ValueView)>,
    name: Seq<char>,
    value: ValueView,
    items: Seq<ValueView>,
    text: Seq<char>,
    n: NumberView,
    b: bool,
)
    ensures
        entry_sizes(entries.push((name, value))) == entry_sizes(entries) + byte_len(name)
            + value_size(value) + 4,
        value_size(ValueView::Null) == 4,
        value_size(ValueView::Bool(b)) == 5,
        value_size(ValueView::Number(n)) == 8,
        value_size(ValueView::Text(text)) == byte_len(text) + 2,
        value_size(ValueView::Object(entries)) == entry_sizes(entries) + 2,
        value_size(ValueView::Array(items.push(value))) == value_size(ValueView::Array(items))
            + value_size(value) + 1,
{
    assert(entries.push((name, value)).drop_last() =~= entries);
    assert(items.push(value).drop_last() =~= items);
}

/// Whether so much time has passed.
pub open spec fn has_passed(since: u64, now: u64, ms: u64) -> bool {
    ms == 0 || now - since >= ms
}

/// Where a round starts: at its end where told to stop, with a look for files where there
/// was none for long enough, and else with reading.
pub open spec fn starts_round(s: Schedule, now: u64, stop: bool, task: Task) -> bool {
    if stop {
        task is Finish
    } else {
        match s.last_scan {
            None => task == (Task::Scan { first_pass: true }),
            Some(at) => if has_passed(at, now, s.scan_interval_ms) {
                task == (Task::Scan { first_pass: false })
            } else {
                task is Read
            },
        }
    }
}

/// Collecting goes round and round: look for files where it is time, drop the offsets of
/// files that are gone after the first look, read, tidy up, store offsets where it is time,
/// rest where nothing was read.
pub proof fn law_rounds_go_on(
    s: &mut Schedule,
    now: u64,
    stop: bool,
    watched: usize,
    read_any: bool,
    r: Task,
)
    requires
        call_ensures(Schedule::next, (s, now, stop, watched, read_any), r),
    ensures
        match old(s).done {
            Done::Round => starts_round(*old(s), now, stop, r),
            Done::Scanned { first_pass } => {
                &&& final(s).last_scan == Some(now)
                &&& r == if first_pass && watched > 0 {
                    Task::Prune
                } else {
                    Task::Read
                }
            },
            Done::Pruned => r is Read,
            Done::Read => r is Tidy && final(s).done == (Done::Tidied { read_any }),
            Done::Tidied { read_any } => if has_passed(
                old(s).last_save,
                now,
                old(s).save_interval_ms,
            ) {
                r is Save
            } else if read_any {
                starts_round(*old(s), now, stop, r)
            } else {
                r == Task::Rest(old(s).rest_ms)
            },
            Done::Saved { read_any } => final(s).last_save == now && if read_any {
                starts_round(*old(s), now, stop, r)
            } else {
                r == Task::Rest(old(s).rest_ms)
            },
        },
        final(s).scan_interval_ms == old(s).scan_interval_ms,
        final(s).save_interval_ms == old(s).save_interval_ms,
        final(s).rest_ms == old(s).rest_ms,
        r matches Task::Scan { first_pass } ==> final(s).done == (Done::Scanned { first_pass }),
        r is Prune ==> final(s).done is Pruned,
        r is Read ==> final(s).done is Read,
        r is Save ==> final(s).done is Saved,
        r is Rest ==> final(s).done is Round,
{
}

/// Bytes are cut into lines at line feeds: the first of them is taken in, without a carriage
/// return at its end, and then what follows; nothing is skipped and nothing is taken twice.
pub proof fn law_each_line_is_taken_once(
    rules: Rules,
    t: Tailed,
    line: Seq<u8>,
    more: Seq<u8>,
)
    requires
        forall|i: int| 0 <= i < line.len() ==> #[trigger] line[i] != 10,
    ensures
        drained(rules, Tailed { rest: line, ..t }) == (
            (Tailed { rest: line, ..t }),
            Seq::<(When, Body)>::empty(),
        ),
        ({
            let text = lossy_text(
                if line.len() > 0 && line.last() == 13 {
                    line.drop_last()
                } else {
                    line
                },
            );
            let (g, e) = gathered(rules, t.gathered, text);
            let whole = Tailed { rest: line.push(10) + more, ..t };
            let (end, events) = drained(rules, whole);
            &&& exists|next: Tailed|
                {
                    &&& next.gathered == g
                    &&& next.offset == t.offset + line.len() + 1
                    &&& next.rest == more
                    &&& end == (#[trigger] drained(rules, next)).0
                    &&& events == (match e {
                        Some(e) => seq![e],
                        None => Seq::empty(),
                    }) + drained(rules, next).1
                }
        }),
{
    lemma_line_end_unique(line, line.len() as int);
    let rest = line.push(10) + more;
    let whole = Tailed { rest, ..t };
    assert forall|i: int| 0 <= i < line.len() implies #[trigger] rest[i] != 10 by {
        assert(rest[i] == line[i]);
    }
    assert(rest[line.len() as int] == 10);
    lemma_line_end_unique(rest, line.len() as int);
    assert(rest.take(line.len() as int) =~= line);
    assert(rest.skip(line.len() as int + 1) =~= more);
    let next = line_taken(rules, whole).0;
    assert(drained(rules, whole).0 == drained(rules, next).0);
}

/// A line that is pushed and read starts an event and completes the one before it; one that
/// is not read goes on with it, as long as it fits.
pub proof fn law_pushed_lines_are_merged<P: Parser>(
    a: &mut Aggregator<P>,
    line: &str,
    r: Option<LogEvent>,
    when: When,
    body: Body,
)
    requires
        old(a).wf(),
        call_ensures(Aggregator::<P>::push, (a, line), r),
        old(a).state().held is None,
        old(a).state().pending == Some((when, body)),
    ensures
        (old(a).rules().reads)(line@) is Some ==> {
            &&& r is Some && r->0.body() == body && when.admits(r->0.timestamp)
            &&& final(a).state().pending == (old(a).rules().reads)(line@)
        },
        (old(a).rules().reads)(line@) is None && old(a).state().lines < old(a).rules().max_lines
            && byte_len(body.message) + byte_len(line@) < old(a).rules().max_bytes ==> {
            &&& r is None
            &&& final(a).state().pending == Some(
                (when, Body { message: body.message + seq!['\n'] + line@, ..body }),
            )
        },
{
    assert(body.message.push('\n') + line@ =~= body.message + seq!['\n'] + line@);
}

/// Events carry the file that they are from, the host that they were read on and the fields
/// of their source; nothing else of them changes.
pub proof fn law_events_say_where_they_are_from(
    event: LogEvent,
    file: &Arc<String>,
    host: &Arc<String>,
    shared: &Option<Arc<StrMap<Value>>>,
    r: LogEvent,
)
    requires
        call_ensures(decorate, (event, file, host, shared), r),
    ensures
        r.file@ == file@ && r.host@ == host@,
        r.timestamp == event.timestamp,
        r.level@ == event.level@ && r.trace_id@ == event.trace_id@ && r.span_id@ == event.span_id@,
        r.thread@ == event.thread@ && r.logger@ == event.logger@ && r.message@ == event.message@,
        field_views(r.fields@) == field_views(event.fields@),
        r.body().shared == match *shared {
            Some(shared) => Some(field_views(shared@)),
            None => None,
        },
{
    assert(r.body().file == r.file@ && r.body().host == r.host@);
    assert(r.body().level == r.level@ && r.body().trace_id == r.trace_id@ && r.body().span_id
        == r.span_id@);
    assert(r.body().thread == r.thread@ && r.body().logger == r.logger@ && r.body().message
        == r.message@);
    assert(r.body().fields == field_views(r.fields@));
}

/// A file that is shorter than what was read of it was cut off: it is read from its start,
/// and what is stored for it is void. Any other is read on.
pub proof fn law_cut_files_are_read_anew<P: Parser>(
    w: &mut Watcher<P>,
    len: u64,
    c: &mut Checkpointer,
    r: ReadTurn,
)
    requires
        old(w).wf(),
        call_ensures(ReadTurn::start::<P>, (w, len, c), r),
    ensures
        r.rewound <==> len < old(w).offset + old(w).buf@.len(),
        r.rewound ==> final(w).offset == 0 && final(w).safe_offset == 0 && final(w).buf@.len() == 0,
        r.rewound ==> (final(c)@.dom().contains(old(w).key@) ==> final(c)@[old(w).key@].offset == 0),
        r.rewound ==> final(w).aggregator.state().pending is None,
        !r.rewound ==> final(w).tail() == old(w).tail() && *final(c) == *old(c) && r.events@.len()
            == 0,
{
    if r.rewound {
        assert(final(w).tail().rest == final(w).buf@);
        assert(final(w).tail().offset == final(w).offset);
    }
}

/// The last event is given out when it has waited long enough at the end of its file, and not
/// before.
pub proof fn law_the_last_event_waits<P: Parser>(
    turn: ReadTurn,
    w: &mut Watcher<P>,
    now: u64,
    idle: u64,
    r: Vec<LogEvent>,
)
    requires
        old(w).wf(),
        call_ensures(ReadTurn::finish::<P>, (turn, w, now, idle), r),
        old(w).aggregator.state().held is None,
    ensures
        ({
            let waits = old(w).at_eof && old(w).aggregator.state().pending is Some;
            let ripe = waits && (old(w).pending_since matches Some(since) && has_passed(
                since,
                now,
                idle,
            ));
            &&& ripe ==> r@.len() == turn.events@.len() + 1
                && final(w).aggregator.state().pending is None && final(w).safe_offset
                == old(w).offset
            &&& !ripe ==> r@ == turn.events@ && final(w).aggregator.state()
                == old(w).aggregator.state() && final(w).safe_offset == old(w).safe_offset
            &&& waits && old(w).pending_since is None ==> final(w).pending_since == Some(now)
        }),
{
    assert(final(w).tail().gathered == final(w).aggregator.state());
    assert(old(w).tail().gathered == old(w).aggregator.state());
    assert(final(w).tail().safe == final(w).safe_offset);
}

/// Whether an event says that it is from a file that is watched.
pub open spec fn is_from<P: Parser>(event: LogEvent, w: Watcher<P>) -> bool {
    &&& event.file@ == w.file_field@ && event.host@ == w.host@
    &&& event.body().shared == match w.shared {
        Some(shared) => Some(field_views(shared@)),
        None => None,
    }
}

proof fn lemma_added<P: Parser>(
    had: Seq<LogEvent>,
    has: Seq<LogEvent>,
    want: Seq<(When, Body)>,
    w: Watcher<P>,
    i: int,
)
    requires
        adds(had, has, want, w.origin()),
    ensures
        had.is_prefix_of(has),
        has.len() == had.len() + want.len(),
        had.len() <= i < has.len() ==> is_from(has[i], w) && want[i - had.len()].0.admits(
            has[i].timestamp,
        ) && has[i].message@ == want[i - had.len()].1.message,
{
    assert(had =~= has.take(had.len() as int));
    if had.len() <= i < has.len() {
        let k = i - had.len();
        let got = has.skip(had.len() as int);
        assert(got[k] == has[i]);
        assert(outcome(Some(w.origin().mark(want[k])), Some(got[k])));
        let body = has[i].body();
        assert(body.file == has[i].file@ && body.host == has[i].host@);
        assert(body.message == has[i].message@);
    }
}

/// Events that are complete come behind those that are there, which stay as they are, and each
/// says which file it is from; whatever way they come to be complete.
pub proof fn law_complete_events_are_of_their_file<P: Parser>(
    turn: &mut ReadTurn,
    w: &mut Watcher<P>,
    chunk: &[u8],
    max: usize,
    i: int,
    more: bool,
    lines: usize,
)
    requires
        old(w).wf(),
        old(w).offset + old(w).buf@.len() + chunk@.len() <= u64::MAX,
        call_ensures(ReadTurn::take::<P>, (turn, w, chunk, max), ()),
        call_ensures(ReadTurn::wants_more, (&*final(turn), lines), more),
    ensures
        old(turn).events@.is_prefix_of(final(turn).events@),
        old(turn).events@.len() <= i < final(turn).events@.len() ==> is_from(
            final(turn).events@[i],
            *old(w),
        ),
        chunk@.len() == 0 ==> final(turn).ended && final(w).at_eof && final(turn).events@
            == old(turn).events@,
        chunk@.len() > 0 ==> final(turn).ended == old(turn).ended && !final(w).at_eof,
        more <==> !final(turn).ended && final(turn).events@.len() < lines,
{
    if chunk@.len() > 0 {
        let es = stepped(
            old(w).aggregator.rules(),
            max as int,
            old(w).tail(),
            Step::Read(chunk@),
        ).1;
        lemma_added(old(turn).events@, final(turn).events@, es, *old(w), i);
    }
}

/// The last event of a file is of that file too, be it given out for having waited, because
/// the file was cut off, or because it is let go.
pub proof fn law_last_events_are_of_their_file<P: Parser>(
    a: &mut Watcher<P>,
    len: u64,
    c: &mut Checkpointer,
    started: ReadTurn,
    b: &mut Watcher<P>,
    turn: ReadTurn,
    now: u64,
    idle: u64,
    finished: Vec<LogEvent>,
    d: &mut Watcher<P>,
    events: &mut Vec<LogEvent>,
    e: &mut Watcher<P>,
    last: Option<LogEvent>,
    i: int,
)
    requires
        old(a).wf(),
        call_ensures(ReadTurn::start::<P>, (a, len, c), started),
        old(b).wf(),
        call_ensures(ReadTurn::finish::<P>, (turn, b, now, idle), finished),
        old(d).wf(),
        call_ensures(Watcher::<P>::let_go, (d, events), ()),
        old(e).wf(),
        call_ensures(Watcher::<P>::flush_pending, (e,), last),
    ensures
        0 <= i < started.events@.len() ==> is_from(started.events@[i], *old(a)),
        turn.events@.is_prefix_of(finished@),
        turn.events@.len() <= i < finished@.len() ==> is_from(finished@[i], *old(b)),
        old(events)@.is_prefix_of(final(events)@),
        old(events)@.len() <= i < final(events)@.len() ==> is_from(final(events)@[i], *old(d)),
        final(d).buf@.len() == 0 && final(d).aggregator.state().pending is None,
        final(d).safe_offset == old(d).offset + old(d).buf@.len(),
        last matches Some(event) ==> is_from(event, *old(e)),
        last is Some <==> old(e).aggregator.state().pending is Some
            || (old(e).aggregator.state().held matches Some(rest) && rest.len() > 0),
{
    if started.rewound {
        let es = one(flushed(old(a).tail().gathered).1);
        lemma_added(Seq::empty(), started.events@, es, *old(a), i);
    }
    if old(b).is_ripe(now, idle) {
        let es = stepped(old(b).aggregator.rules(), 0, old(b).tail(), Step::Flush).1;
        lemma_added(turn.events@, finished@, es, *old(b), i);
    }
    let (t, es) = crate::source::tail::let_go(old(d).aggregator.rules(), old(d).tail());
    lemma_added(old(events)@, final(events)@, es, *old(d), i);
    assert(final(d).tail() == t);
    assert(final(d).tail().rest == final(d).buf@);
    assert(final(d).tail().safe == final(d).safe_offset);
    assert(final(d).tail().gathered == final(d).aggregator.state());
    assert(old(e).tail().gathered == old(e).aggregator.state());
    if let Some(event) = last {
        let body = event.body();
        assert(body.file == event.file@ && body.host == event.host@);
    }
}

/// Each byte that is read counts once: what has been read and what waits for the end of its
/// line together move on by what was read. No more waits than a line may have, and no line
/// that has ended.
pub proof fn law_every_byte_is_counted<P: Parser>(
    w: &mut Watcher<P>,
    chunk: &[u8],
    max: usize,
    events: &mut Vec<LogEvent>,
    i: int,
)
    requires
        old(w).wf(),
        old(w).offset + old(w).buf@.len() + chunk@.len() <= u64::MAX,
        chunk@.len() > 0,
        call_ensures(Watcher::<P>::take, (w, chunk, max, events), ()),
    ensures
        final(w).offset + final(w).buf@.len() == old(w).offset + old(w).buf@.len() + chunk@.len(),
        final(w).buf@.len() <= max,
        0 <= i < final(w).buf@.len() ==> final(w).buf@[i] != 10,
        old(w).safe_offset <= final(w).safe_offset <= final(w).offset,
{
    let rules = old(w).aggregator.rules();
    let t = Tailed { rest: old(w).buf@ + chunk@, ..old(w).tail() };
    lemma_all_counted(rules, t, i);
    let t1 = drained(rules, t).0;
    let t2 = cut_short(t1, max as int);
    assert(final(w).tail() == t2);
    assert(final(w).tail().rest == final(w).buf@);
    assert(final(w).tail().offset == final(w).offset);
    assert(final(w).tail().safe == final(w).safe_offset);
    assert(final(w).tail().wf());
}

proof fn lemma_all_counted(rules: Rules, t: Tailed, i: int)
    requires
        t.wf(),
    ensures
        ({
            let end = drained(rules, t).0;
            &&& end.offset + end.rest.len() == t.offset + t.rest.len()
            &&& t.safe <= end.safe
            &&& end.wf()
            &&& 0 <= i < end.rest.len() ==> end.rest[i] != 10
        }),
    decreases t.rest.len(),
{
    lemma_line_end(t.rest);
    if line_end(t.rest) < t.rest.len() {
        lemma_line_taken(rules, t);
        lemma_all_counted(rules, line_taken(rules, t).0, i);
    }
}

/// What is sent of a file is to be stored up to its safe offset, under its own fingerprint;
/// nothing is sent where there is nothing.
pub proof fn law_deliveries_are_of_their_file<P: Parser>(
    events: Vec<LogEvent>,
    w: &Watcher<P>,
    c: &Checkpointer,
    edition: u64,
    key: &str,
    r: Option<Delivery>,
)
    requires
        call_ensures(Delivery::new::<P>, (events, w, c), r),
        key@ == w.key@,
        call_ensures(Checkpointer::edition, (c, key), edition),
    ensures
        r is Some <==> events@.len() > 0,
        r matches Some(d) ==> d.events@ == events@ && d.key@ == w.key@ && d.path@ == w.path@
            && d.offset == w.safe_offset && d.edition == edition,
{
}

/// Events of the standard input are gathered in order until they make a batch, which takes
/// all of them.
pub proof fn law_standard_input_makes_batches(
    a: &mut StdinReader,
    line: &str,
    r: bool,
    b: &mut StdinReader,
    batch: Vec<LogEvent>,
    source: StdinSource,
)
    requires
        old(a).wf(),
        call_ensures(StdinReader::line, (a, line), r),
        old(b).wf(),
        call_ensures(StdinReader::take_batch, (b,), batch),
        call_ensures(StdinSource::new, (), source),
    ensures
        r <==> final(a).pending@.len() >= old(a).batch_lines,
        final(a).pending@.len() >= old(a).pending@.len() && final(a).pending@.take(
            old(a).pending@.len() as int,
        ) == old(a).pending@,
        final(a).pending@.len() > old(a).pending@.len() ==> final(a).pending@.last().body().file
            == old(a).file@ && final(a).pending@.last().body().host == old(a).host@,
        batch@ == old(b).pending@ && final(b).pending@.len() == 0,
        source.batch_lines == 500 && source.flush_interval_ms == 500,
        source.file@ == "stdin"@,
{
    let e = gathered(old(a).aggregator.rules(), old(a).aggregator.state(), line@).1;
    if e is Some {
        assert(final(a).pending@.take(old(a).pending@.len() as int) =~= final(a).pending@.drop_last());
    } else {
        assert(final(a).pending@.take(old(a).pending@.len() as int) =~= old(a).pending@);
    }
}

/// What the console is written is a line for each event, in order: its JSON, or the line for
/// people to read.
pub proof fn law_the_console_shows_each_event(
    encoding: Encoding,
    events: &Vec<LogEvent>,
    r: Result<String, Error>,
    event: &LogEvent,
    json: Result<String, Error>,
    text: String,
    lines: Seq<Seq<char>>,
)
    requires
        call_ensures(encode, (encoding, events), r),
        event.wf(),
        call_ensures(LogEvent::to_json_line, (event,), json),
        call_ensures(LogEvent::to_text_line, (event,), text),
        lines == events@.map_values(|e: LogEvent| encoding.line(e)),
    ensures
        r is Ok && r->Ok_0@ == ended_lines(lines),
        encoding is Json ==> json is Ok && encoding.line(*event) == json->Ok_0@,
        encoding is Text ==> encoding.line(*event) == text@,
{
    lemma_console(encoding, events@);
}

proof fn lemma_console(encoding: Encoding, events: Seq<LogEvent>)
    ensures
        lines_text(encoding, events) == ended_lines(
            events.map_values(|e: LogEvent| encoding.line(e)),
        ),
    decreases events.len(),
{
    let lines = events.map_values(|e: LogEvent| encoding.line(e));
    if events.len() > 0 {
        let before = events.drop_last();
        lemma_console(encoding, before);
        let had = before.map_values(|e: LogEvent| encoding.line(e));
        assert(lines =~= had.push(encoding.line(events.last())));
        crate::laws::rows::lemma_ended_push(had, encoding.line(events.last()));
        assert(lines_text(encoding, events) =~= lines_text(encoding, before) + encoding.line(
            events.last(),
        ).push('\n'));
    }
}

/// What a pipeline comes to: what failed while it ran, or else what its source came to, and a
/// source that broke off has failed. It starts with a sink that is not fit only where that is
/// not asked about.
pub proof fn law_failures_are_told(
    result: Result<(), Error>,
    source: TaskEnd,
    r: Result<(), Error>,
    alone: Result<(), Error>,
    health: Result<(), Error>,
    required: bool,
    started: Result<(), Error>,
)
    requires
        call_ensures(conclude, (result, source), r),
        call_ensures(flatten, (source,), alone),
        call_ensures(may_start, (health, required), started),
    ensures
        result is Err ==> r == result,
        result is Ok && source is Ended ==> r == source->Ended_0,
        result is Ok && source is Broken ==> r is Err,
        source is Ended ==> alone == source->Ended_0,
        source is Broken ==> alone is Err && alone->Err_0@ is Other,
        started is Err <==> required && health is Err,
        started is Err ==> started == health,
{
}

/// A pipeline has the settings that it was given, and the usual ones where it was given none;
/// it needs a source and a sink.
pub proof fn law_plans_are_as_asked_for(
    b: PipelineBuilder,
    has_source: bool,
    has_sink: bool,
    r: Result<Plan, Error>,
)
    requires
        call_ensures(PipelineBuilder::build, (b, has_source, has_sink), r),
    ensures
        r is Ok <==> has_source && has_sink,
        r matches Ok(plan) ==> {
            &&& b.batch matches Some(batch) ==> plan.batch == batch
            &&& b.batch is None ==> plan.batch == (BatchConfig {
                max_events: 10_000,
                max_bytes: 10_485_760,
                timeout_ms: 1_000,
            })
            &&& b.retry matches Some(retry) ==> plan.retry == retry
            &&& b.retry is None ==> plan.retry == (RetryConfig {
                max_attempts: 5,
                initial_backoff_ms: 500,
                max_backoff_ms: 30_000,
            })
            &&& b.buffer matches Some(n) ==> plan.buffer == n
            &&& b.buffer is None ==> plan.buffer == 64
            &&& b.max_inflight_bytes is None ==> plan.max_inflight_bytes == 67_108_864
            &&& b.max_inflight_bytes is Some && 1 <= b.max_inflight_bytes->0 <= u32::MAX
                ==> plan.max_inflight_bytes == b.max_inflight_bytes->0
            &&& b.max_inflight_bytes matches Some(n) ==> (n == 0 ==> plan.max_inflight_bytes == 1)
            &&& b.max_inflight_bytes matches Some(n) ==> (n > u32::MAX
                ==> plan.max_inflight_bytes == u32::MAX)
            &&& plan.require_healthy == b.require_healthy
            &&& b.on_error matches Some(on_error) ==> plan.on_error == on_error
            &&& b.on_error is None ==> plan.on_error is Stop
        },
{
}

/// Milliseconds of seconds, where they can be counted.
pub open spec fn is_millis(ms: u64, secs: u64) -> bool {
    secs * 1000 <= u64::MAX ==> ms == secs * 1000
}

/// What a configuration says of batches, attempts and of what becomes of a batch that cannot
/// be stored is what the pipeline does; a batch is tried at least once.
pub proof fn law_configured_plans_arrive(
    c: &Config,
    pod_name: Option<String>,
    r: Result<Assembly, Error>,
)
    requires
        c.wf(),
        call_ensures(Config::build, (c, pod_name), r),
    ensures
        r matches Ok(a) ==> {
            let plan = a.plan;
            &&& plan.batch.max_events == c.batch.max_events
            &&& plan.batch.max_bytes == c.batch.max_bytes
            &&& is_millis(plan.batch.timeout_ms, c.batch.timeout_secs)
            &&& plan.retry.max_attempts >= 1
            &&& c.retry.max_attempts >= 1 ==> plan.retry.max_attempts == c.retry.max_attempts
            &&& plan.retry.initial_backoff_ms == c.retry.initial_backoff_ms
            &&& is_millis(plan.retry.max_backoff_ms, c.retry.max_backoff_secs)
            &&& plan.buffer >= 1
            &&& c.pipeline.buffer >= 1 ==> plan.buffer == c.pipeline.buffer
            &&& plan.max_inflight_bytes == 64 * 1024 * 1024
            &&& plan.require_healthy == c.pipeline.require_healthy
            &&& plan.on_error is Stop <==> c.pipeline.on_error is Stop
            &&& match (c.sink, a.sink) {
                (SinkConfig::Console { encoding, stderr }, SinkPlan::Console(sink)) => {
                    &&& sink.stderr == stderr
                    &&& sink.encoding is Json <==> encoding is Json
                },
                (SinkConfig::Clickhouse { .. }, SinkPlan::Clickhouse(_)) => true,
                _ => false,
            }
        },
{
}

/// A configured table is written to as it is configured: where it is, what it is called, on
/// what cluster, for whom, and whether bodies are compressed and gathered.
pub proof fn law_configured_tables_arrive(c: &Config, r: Result<ClickhouseSink, Error>)
    requires
        call_ensures(Config::build_clickhouse, (c,), r),
    ensures
        match (c.sink, r) {
            (
                SinkConfig::Clickhouse {
                    endpoint,
                    database,
                    table,
                    cluster,
                    user,
                    password,
                    async_insert,
                    compress,
                    timeout_secs,
                },
                Ok(sink),
            ) => {
                &&& sink.endpoint@ == trimmed_end_char(endpoint@, '/')
                &&& sink.database@ == database@ && sink.table@ == table@
                &&& opt_string_view(sink.cluster) == opt_string_view(cluster)
                &&& opt_string_view(sink.user) == opt_string_view(user)
                &&& user is Some && password is Some ==> opt_string_view(sink.password)
                    == opt_string_view(password)
                &&& user is None ==> sink.password is None
                &&& sink.async_insert == async_insert && sink.compress == compress
                &&& is_millis(sink.timeout_ms, timeout_secs)
            },
            (SinkConfig::Console { .. }, Err(_)) => true,
            _ => false,
        },
{
}

/// A configured source collects what it is configured to: from the files or containers that
/// are named, lines of the formats that are configured, with the fields, the host and the place
/// for offsets that are given, from the start or not, as often as asked for.
pub proof fn law_configured_sources_arrive(
    c: &Config,
    pod_name: Option<String>,
    r: Result<FileSource, Error>,
    parser: Result<ChainParser, Error>,
    line: Seq<char>,
)
    requires
        c.wf(),
        call_ensures(Config::build_source, (c, pod_name), r),
        call_ensures(Config::build_parser, (c,), parser),
    ensures
        r matches Ok(s) ==> {
            &&& field_views(s.fields@) == field_views(c.fields@)
            &&& parser is Ok && s.parser.reads(line) == parser->Ok_0.reads(line)
            &&& s.read_interval_ms == 500 && s.checkpoint_interval_ms == 5_000
            &&& s.idle_flush_ms == 2_000 && s.max_line_bytes == 1_048_576
            &&& s.batch_lines == 1_000 && s.service_name_label is None
            &&& match c.source {
                SourceConfig::Kubernetes(k) => {
                    &&& s.includes@.len() == 1 && s.includes@[0]@ == k.log_dir@ + "/*/*/*.log*"@
                    &&& s.excludes@.len() == 0
                    &&& s.container_format is Cri
                    &&& s.read_from_beginning == k.read_from_beginning
                    &&& is_millis(s.glob_interval_ms, k.glob_interval_secs)
                    &&& opt_string_view(s.data_dir) == opt_string_view(k.data_dir)
                    &&& k.host matches Some(host) ==> s.host@ == host@
                    &&& s.pod_selector is Some
                    &&& s.pod_selector->0@.namespaces == texts_view(k.namespaces@)
                    &&& s.pod_selector->0@.exclude_namespaces == texts_view(k.exclude_namespaces@)
                    &&& s.pod_selector->0@.pods == texts_view(k.pods@)
                    &&& s.pod_selector->0@.containers == texts_view(k.containers@)
                    &&& s.pod_selector->0@.exclude_containers == texts_view(k.exclude_containers@)
                    &&& texts_view(k.exclude_pods@).is_prefix_of(s.pod_selector->0@.exclude_pods)
                    &&& !k.exclude_self ==> s.pod_selector->0@.exclude_pods == texts_view(
                        k.exclude_pods@,
                    )
                    &&& s.pod_selector->0@.exclude_pods.len() <= k.exclude_pods@.len() + 1
                    &&& k.exclude_self && s.pod_selector->0@.exclude_pods.len()
                        == k.exclude_pods@.len() + 1 && pod_name is Some && pod_name->0@.len() > 0
                        ==> s.pod_selector->0@.exclude_pods.last() == pod_name->0@
                },
                SourceConfig::File(f) => {
                    &&& texts_view(s.includes@) == texts_view(f.include_paths@)
                    &&& texts_view(s.excludes@) == texts_view(f.exclude@)
                    &&& s.container_format == f.container_format
                    &&& s.read_from_beginning == f.read_from_beginning
                    &&& is_millis(s.glob_interval_ms, f.glob_interval_secs)
                    &&& opt_string_view(s.data_dir) == opt_string_view(f.data_dir)
                    &&& f.host matches Some(host) ==> s.host@ == host@
                    &&& s.pod_selector is None
                    &&& f.include_paths@.len() > 0
                },
            }
        },
{
    if let Ok(s) = r {
        if let SourceConfig::Kubernetes(k) = c.source {
            assert(texts_view(s.includes@).len() == s.includes@.len());
            assert(texts_view(s.includes@)[0] == s.includes@[0]@);
        }
    }
}

/// Files are collected with the usual settings unless others are given: from their start, a
/// look for new ones every ten seconds, offsets stored every five, lines of up to a mebibyte,
/// read 64 KiB at a time; at the end half a minute is waited for receipts.
/// Labels are asked for only where one is wanted, and in the cluster only for containers.
pub proof fn law_files_have_the_usual_settings(
    includes: Vec<String>,
    s: FileSource,
    source: &FileSource,
    has_client: bool,
    whom: LabelSource,
    line: Seq<char>,
)
    requires
        call_ensures(FileSource::new, (includes,), s),
        call_ensures(FileSource::label_source, (source, has_client), whom),
    ensures
        s.includes == includes && s.excludes@.len() == 0,
        s.read_from_beginning && s.container_format is Raw && s.pod_selector is None,
        s.glob_interval_ms == 10_000 && s.read_interval_ms == 500,
        s.checkpoint_interval_ms == 5_000 && s.idle_flush_ms == 2_000,
        s.max_line_bytes == 1_048_576 && s.batch_lines == 1_000,
        READ_CHUNK == 64 * 1024 && COMMIT_WAIT_MS == 30 * 1000,
        s.parser.reads(line) == crate::parser::logback::logback_reads(line),
        source.service_name_label is None ==> whom is Nobody,
        source.service_name_label is Some && has_client ==> whom is Given,
        source.service_name_label is Some && !has_client ==> (whom is InCluster
            <==> source.container_format is Cri),
{
}

} // verus!
