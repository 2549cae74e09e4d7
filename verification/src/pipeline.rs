//! Between source and sink: gathering batches, trying again, giving receipts.

use vstd::prelude::*;

use crate::batch::{BatchConfig, RetryConfig};
use crate::error::{Error, ErrorView};
use crate::event::LogEvent;
use crate::list::reversed;
use crate::value::capped;

verus! {

/// What becomes of a batch that cannot be stored.
#[derive(Clone, Copy, Debug, PartialEq, Eq, Structural)]
pub enum OnError {
    /// Everything stops. No offset moves on, and the next start reads the events
    /// again.
    Stop,
    /// The batch is thrown away, and events are lost.
    Drop,
}

/// The reckoned sizes of events, added up.
pub open spec fn sizes(events: Seq<LogEvent>) -> nat
    decreases events.len(),
{
    if events.len() == 0 {
        0
    } else {
        sizes(events.drop_last()) + events.last().size()
    }
}

/// The events that wait to be stored, and the receipts that are owed for them.
pub struct Pending<A> {
    pub events: Vec<LogEvent>,
    /// One for each batch of the source that asked for one. Giving it out says
    /// that the batch is stored.
    pub receipts: Vec<A>,
    pub bytes: usize,
}

impl<A> Pending<A> {
    /// The size is that of the events.
    pub open spec fn wf(&self) -> bool {
        self.bytes == capped(sizes(self.events@))
    }

    /// What waits to be stored.
    pub open spec fn owed(&self) -> Owed<A> {
        Owed { events: self.events@, receipts: self.receipts@ }
    }

    /// Nothing.
    pub fn new() -> (r: Self)
        ensures
            r.wf(),
            r.owed() == Owed::<A>::nothing(),
    {
        Pending { events: Vec::new(), receipts: Vec::new(), bytes: 0 }
    }

    /// Takes an event in.
    pub fn push(&mut self, event: LogEvent)
        requires
            old(self).wf(),
        ensures
            final(self).wf(),
            final(self).events@ == old(self).events@.push(event),
            final(self).receipts == old(self).receipts,
    {
        self.bytes = self.bytes.saturating_add(event.estimated_size());
        self.events.push(event);
        proof {
            assert(self.events@.drop_last() =~= old(self).events@);
        }
    }

    /// Whether the batch is full.
    pub fn is_full(&self, batch: &BatchConfig) -> (r: bool)
        requires
            self.wf(),
        ensures
            r == (self.events@.len() >= batch.max_events || capped(sizes(self.events@))
                >= batch.max_bytes),
    {
        self.events.len() >= batch.max_events || self.bytes >= batch.max_bytes
    }
}

/// One thing that is done about events on their way to the sink.
pub enum Deed<A> {
    /// A batch of the source comes in, and the receipt that it asks for.
    Taken { events: Seq<LogEvent>, receipt: Option<A> },
    /// What was gathered is handed over to be stored.
    Handed,
    /// The sink has stored all that was handed over.
    Stored,
    /// Nothing was handed over that is to be stored.
    Empty,
    /// What was handed over is thrown away.
    Dropped,
    /// The sink has failed.
    Failed,
}

/// What waits to be stored: events, and the receipts that are owed for them.
#[verifier::ext_equal]
pub struct Owed<A> {
    pub events: Seq<LogEvent>,
    pub receipts: Seq<A>,
}

impl<A> Owed<A> {
    /// Nothing.
    pub open spec fn nothing() -> Owed<A> {
        Owed { events: Seq::empty(), receipts: Seq::empty() }
    }

    /// The same, with another batch of the source behind it.
    pub open spec fn with(self, events: Seq<LogEvent>, receipt: Option<A>) -> Owed<A> {
        Owed {
            events: self.events + events,
            receipts: match receipt {
                Some(a) => self.receipts.push(a),
                None => self.receipts,
            },
        }
    }

    /// What waits to be stored after a deed, and the receipts that are given out.
    pub open spec fn after(self, deed: Deed<A>) -> (Owed<A>, Seq<A>) {
        match deed {
            Deed::Taken { events, receipt } => (self.with(events, receipt), Seq::empty()),
            Deed::Handed => (Owed::nothing(), Seq::empty()),
            Deed::Stored => (Owed::nothing(), self.receipts),
            Deed::Empty => if self.events.len() == 0 {
                (Owed::nothing(), self.receipts)
            } else {
                (self, Seq::empty())
            },
            Deed::Dropped => (Owed::nothing(), Seq::empty()),
            Deed::Failed => (self, Seq::empty()),
        }
    }
}

/// What a pipeline hears of.
pub enum Heard<A> {
    /// A batch of the source, and the receipt that it asks for.
    Batch { events: Vec<LogEvent>, receipt: Option<A> },
    /// The time has come to store what is there.
    Deadline,
    /// The source has come to its end.
    Closed,
}

/// Events that are gathered until they are handed over to be stored. Gathering goes
/// on while the batch before is being stored.
pub struct Batcher<A> {
    pub pending: Pending<A>,
    /// When the batch is to be stored at the latest, in milliseconds.
    pub deadline: Option<u64>,
    /// Whether the batch is to be stored as soon as the sink is free.
    pub due: bool,
    /// Whether the source has come to its end.
    pub closed: bool,
}

impl<A> Batcher<A> {
    /// The size is that of the events.
    pub open spec fn wf(&self) -> bool {
        self.pending.wf()
    }

    /// What waits to be handed over.
    pub open spec fn owed(&self) -> Owed<A> {
        self.pending.owed()
    }

    /// Nothing is gathered.
    pub open spec fn is_empty(&self) -> bool {
        &&& self.owed() == Owed::<A>::nothing()
        &&& self.deadline is None
        &&& !self.due
    }

    /// Nothing.
    pub fn new() -> (r: Self)
        ensures
            r.wf(),
            r.is_empty(),
            !r.closed,
    {
        Batcher { pending: Pending::new(), deadline: None, due: false, closed: false }
    }

    /// When what is there is to be stored at the latest, with a batch that comes
    /// now: the first one counts.
    pub open spec fn first_deadline(&self, now: u64, batch: &BatchConfig) -> Option<u64> {
        match self.deadline {
            Some(at) => Some(at),
            None => Some(
                if now + batch.timeout_ms <= u64::MAX {
                    (now + batch.timeout_ms) as u64
                } else {
                    u64::MAX
                },
            ),
        }
    }

    /// Whether what is there makes a full batch.
    pub open spec fn is_full(&self, batch: &BatchConfig) -> bool {
        self.owed().events.len() >= batch.max_events || capped(sizes(self.owed().events))
            >= batch.max_bytes
    }

    /// Takes in a batch of the source and the receipt that it asks for.
    fn accept(&mut self, events: Vec<LogEvent>, receipt: Option<A>, now: u64, batch: &BatchConfig)
        requires
            old(self).wf(),
        ensures
            final(self).wf(),
            final(self).owed() == old(self).owed().after(
                Deed::Taken { events: events@, receipt },
            ).0,
            final(self).deadline == old(self).first_deadline(now, batch),
            final(self).due == (old(self).due || final(self).is_full(batch)),
            final(self).closed == old(self).closed,
    {
        let mut turned = reversed(events);
        let ghost mut n: int = 0;
        proof {
            assert(turned@.reverse() =~= events@.skip(0));
            assert(old(self).pending.events@ + events@.take(0) =~= old(self).pending.events@);
        }
        while turned.len() > 0
            invariant
                self.pending.wf(),
                0 <= n <= events@.len(),
                turned@.reverse() =~= events@.skip(n),
                self.pending.events@ == old(self).pending.events@ + events@.take(n),
                self.pending.receipts == old(self).pending.receipts,
                self.deadline == old(self).deadline,
                self.due == old(self).due,
                self.closed == old(self).closed,
            decreases turned@.len(),
        {
            let ghost had = turned@;
            if let Some(event) = turned.pop() {
                proof {
                    assert(had.reverse().len() == events@.skip(n).len());
                    assert(had.reverse()[0] == event);
                    assert(events@.skip(n)[0] == events@[n]);
                    assert(had.reverse().drop_first() =~= turned@.reverse());
                    assert(events@.skip(n).drop_first() =~= events@.skip(n + 1));
                    assert(old(self).pending.events@ + events@.take(n + 1) =~= (old(
                        self,
                    ).pending.events@ + events@.take(n)).push(event));
                    n = n + 1;
                }
                self.pending.push(event);
            }
        }
        proof {
            assert(events@.take(n) =~= events@);
        }
        if let Some(receipt) = receipt {
            self.pending.receipts.push(receipt);
        }
        if self.deadline.is_none() {
            self.deadline = Some(now.saturating_add(batch.timeout_ms));
        }
        if self.pending.is_full(batch) {
            self.due = true;
        }
    }

    /// Goes on by what has happened.
    pub fn hear(&mut self, heard: Heard<A>, now: u64, batch: &BatchConfig)
        requires
            old(self).wf(),
        ensures
            final(self).wf(),
            match heard {
                Heard::Batch { events, receipt } => {
                    &&& final(self).owed() == old(self).owed().after(
                        Deed::Taken { events: events@, receipt },
                    ).0
                    &&& final(self).deadline == old(self).first_deadline(now, batch)
                    &&& final(self).due == (old(self).due || final(self).is_full(batch))
                    &&& final(self).closed == old(self).closed
                },
                Heard::Deadline => *final(self) == (Batcher { due: true, ..*old(self) }),
                Heard::Closed => *final(self) == (Batcher {
                    due: true,
                    closed: true,
                    ..*old(self)
                }),
            },
    {
        match heard {
            Heard::Batch { events, receipt } => self.accept(events, receipt, now, batch),
            Heard::Deadline => {
                self.due = true;
            },
            Heard::Closed => {
                self.due = true;
                self.closed = true;
            },
        }
    }

    /// Whether to listen to the source and to the clock. A batch that is due waits
    /// for the sink, and the source with it: nothing is heaped up meanwhile.
    pub fn listens(&self) -> (r: bool)
        ensures
            r == (!self.due && !self.closed),
    {
        !self.due && !self.closed
    }

    /// Hands over what was gathered, if it is due. To be called when the sink is
    /// free.
    pub fn hand_over(&mut self) -> (r: Option<Flight<A>>)
        requires
            old(self).wf(),
        ensures
            final(self).wf(),
            r is Some <==> old(self).due,
            match r {
                Some(flight) => {
                    &&& flight.wf()
                    &&& flight.owed() == old(self).owed()
                    &&& flight.attempt == 0
                    &&& final(self).owed() == old(self).owed().after(Deed::Handed).0
                    &&& final(self).is_empty()
                    &&& final(self).closed == old(self).closed
                },
                None => *final(self) == *old(self),
            },
    {
        if !self.due {
            return None;
        }
        let mut pending: Pending<A> = Pending::new();
        std::mem::swap(&mut pending, &mut self.pending);
        self.deadline = None;
        self.due = false;
        proof {
            assert(self.owed() =~= Owed::nothing());
        }
        Some(Flight { pending, attempt: 0 })
    }

    /// Whether all is done: the source has come to its end, and what it sent was
    /// handed over.
    pub fn is_over(&self) -> (r: bool)
        ensures
            r == (self.closed && !self.due),
    {
        self.closed && !self.due
    }
}

/// What to do next about a batch that was handed over.
pub enum FlushStep<A> {
    /// Hand the events to the sink.
    Write,
    /// Wait this many milliseconds, and hand them over again.
    Wait(u64),
    /// It is done: these receipts are to be given out.
    Done(Vec<A>),
    /// It failed, and everything is to stop.
    Failed,
}

impl<A> FlushStep<A> {
    /// The receipts that are given out.
    pub open spec fn receipts(self) -> Seq<A> {
        match self {
            FlushStep::Done(receipts) => receipts@,
            _ => Seq::empty(),
        }
    }
}

/// A batch on its way to the sink.
pub struct Flight<A> {
    pub pending: Pending<A>,
    /// How often the sink has been handed the batch.
    pub attempt: usize,
}

impl<A> Flight<A> {
    /// The size is that of the events.
    pub open spec fn wf(&self) -> bool {
        self.pending.wf()
    }

    /// What waits to be stored.
    pub open spec fn owed(&self) -> Owed<A> {
        self.pending.owed()
    }

    /// Starts to store what is there. Where there are no events, as when all of
    /// them were filtered out, the receipts are given out at once.
    pub fn start_flush(&mut self) -> (r: FlushStep<A>)
        requires
            old(self).wf(),
        ensures
            final(self).wf(),
            (final(self).owed(), r.receipts()) == old(self).owed().after(Deed::Empty),
            final(self).attempt == 1,
            if old(self).owed().events.len() == 0 {
                r is Done
            } else {
                r is Write
            },
    {
        self.attempt = 1;
        if self.pending.events.len() == 0 {
            let mut receipts: Vec<A> = Vec::new();
            std::mem::swap(&mut receipts, &mut self.pending.receipts);
            proof {
                assert(self.owed() =~= Owed::nothing());
            }
            return FlushStep::Done(receipts);
        }
        FlushStep::Write
    }

    /// What comes of a batch by what the sink said: it is thrown away only where it
    /// has been tried often enough and that is asked for.
    pub open spec fn outcome(&self, ok: bool, retry: &RetryConfig, on_error: OnError) -> Deed<A> {
        if ok {
            Deed::Stored
        } else if self.attempt >= retry.max_attempts && on_error == OnError::Drop {
            Deed::Dropped
        } else {
            Deed::Failed
        }
    }

    /// Goes on by what the sink said.
    ///
    /// Receipts are given out only for events that are stored. A batch that is
    /// thrown away has none given out either, so that the next start reads it
    /// again.
    pub fn written(&mut self, ok: bool, retry: &RetryConfig, on_error: OnError) -> (r: FlushStep<A>)
        requires
            old(self).wf(),
            old(self).attempt >= 1,
        ensures
            final(self).wf(),
            (final(self).owed(), r.receipts()) == old(self).owed().after(
                old(self).outcome(ok, retry, on_error),
            ),
            if ok {
                r is Done && final(self).attempt == old(self).attempt
            } else if old(self).attempt < retry.max_attempts {
                &&& r matches FlushStep::Wait(ms) && ms == retry.wait_after(
                    old(self).attempt as nat,
                )
                &&& final(self).attempt == old(self).attempt + 1
            } else {
                match on_error {
                    OnError::Stop => r is Failed && *final(self) == *old(self),
                    OnError::Drop => r is Done && final(self).attempt == old(self).attempt,
                }
            },
    {
        if ok {
            let mut done: Pending<A> = Pending::new();
            std::mem::swap(&mut done, &mut self.pending);
            proof {
                assert(self.owed() =~= Owed::nothing());
            }
            return FlushStep::Done(done.receipts);
        }
        if self.attempt < retry.max_attempts {
            let wait: u64 = retry.backoff(self.attempt);
            self.attempt = self.attempt + 1;
            return FlushStep::Wait(wait);
        }
        match on_error {
            OnError::Stop => FlushStep::Failed,
            OnError::Drop => {
                self.pending = Pending::new();
                proof {
                    assert(self.owed() =~= Owed::nothing());
                }
                FlushStep::Done(Vec::new())
            },
        }
    }
}

/// How much of the room for events on their way a batch takes: its size, but at
/// least 1, and never more than there is. A batch that is larger than the room
/// would wait for ever otherwise.
pub open spec fn reserved(size: nat, capacity: u32) -> int {
    if size < 1 {
        1
    } else if size > capacity {
        capacity as int
    } else {
        size as int
    }
}

/// The room that a batch takes.
pub fn reserve(events: &Vec<LogEvent>, capacity: u32) -> (r: u32)
    requires
        capacity >= 1,
    ensures
        r == reserved(sizes(events@), capacity),
{
    let mut sum: usize = 0;
    for i in 0..events.len()
        invariant
            sum == capped(sizes(events@.take(i as int))),
    {
        proof {
            assert(events@.take(i + 1).drop_last() =~= events@.take(i as int));
        }
        sum = sum.saturating_add(events[i].estimated_size());
    }
    proof {
        assert(events@.take(events@.len() as int) =~= events@);
    }
    if sum < 1 {
        1
    } else if sum > capacity as usize {
        capacity
    } else {
        sum as u32
    }
}

/// What a task came to.
pub enum TaskEnd {
    /// It came to its end.
    Ended(Result<(), Error>),
    /// It broke off, with these words.
    Broken(String),
}

/// The outcome of a task: one that broke off is an error too.
pub fn flatten(end: TaskEnd) -> (r: Result<(), Error>)
    ensures
        match end {
            TaskEnd::Ended(inner) => r == inner,
            TaskEnd::Broken(words) => r matches Err(e) && e@ == ErrorView::Other(
                "任务异常退出: "@ + words@,
            ),
        },
{
    match end {
        TaskEnd::Ended(inner) => inner,
        TaskEnd::Broken(words) => {
            let mut message = "任务异常退出: ".to_owned();
            vstd::string::StringExecFns::append(&mut message, words.as_str());
            Err(Error::Other(message))
        },
    }
}

/// The outcome of a pipeline: what failed while it ran counts, and else what its
/// source came to.
pub fn conclude(result: Result<(), Error>, source: TaskEnd) -> (r: Result<(), Error>)
    ensures
        match (result, source) {
            (Err(e), _) => r == Err::<(), Error>(e),
            (Ok(_), TaskEnd::Ended(inner)) => r == inner,
            (Ok(_), TaskEnd::Broken(words)) => r matches Err(e) && e@ == ErrorView::Other(
                "任务异常退出: "@ + words@,
            ),
        },
{
    match result {
        Ok(()) => flatten(source),
        Err(e) => Err(e),
    }
}

/// Whether to start with a sink that a look has found fit or not.
pub fn may_start(health: Result<(), Error>, require_healthy: bool) -> (r: Result<(), Error>)
    ensures
        r == (if require_healthy {
            health
        } else {
            Ok(())
        }),
{
    if require_healthy {
        health
    } else {
        Ok(())
    }
}

/// Settings of a pipeline, as far as they were given.
pub struct PipelineBuilder {
    pub batch: Option<BatchConfig>,
    pub retry: Option<RetryConfig>,
    pub buffer: Option<usize>,
    pub max_inflight_bytes: Option<usize>,
    pub require_healthy: bool,
    pub on_error: Option<OnError>,
}

/// The settings of a pipeline.
pub struct Plan {
    pub batch: BatchConfig,
    pub retry: RetryConfig,
    /// How many batches may wait between source and sink.
    pub buffer: usize,
    /// How many bytes of events may be on their way between source and sink.
    pub max_inflight_bytes: u32,
    /// Whether to start only if the sink is fit.
    pub require_healthy: bool,
    pub on_error: OnError,
}

/// The room for events on their way: at least a byte, and as much as can be counted.
pub open spec fn room(bytes: usize) -> u32 {
    if bytes < 1 {
        1
    } else if bytes > u32::MAX {
        u32::MAX
    } else {
        bytes as u32
    }
}

fn to_room(bytes: usize) -> (r: u32)
    ensures
        r == room(bytes),
{
    if bytes < 1 {
        1
    } else if bytes > u32::MAX as usize {
        u32::MAX
    } else {
        bytes as u32
    }
}

impl PipelineBuilder {
    /// Nothing was given.
    pub fn new() -> (r: Self)
        ensures
            r.batch is None,
            r.retry is None,
            r.buffer is None,
            r.max_inflight_bytes is None,
            !r.require_healthy,
            r.on_error is None,
    {
        PipelineBuilder {
            batch: None,
            retry: None,
            buffer: None,
            max_inflight_bytes: None,
            require_healthy: false,
            on_error: None,
        }
    }

    /// Sets when a batch is full.
    pub fn batch(self, batch: BatchConfig) -> (r: Self)
        ensures
            r == (PipelineBuilder { batch: Some(batch), ..self }),
    {
        PipelineBuilder { batch: Some(batch), ..self }
    }

    /// Sets how often a batch is tried.
    pub fn retry(self, retry: RetryConfig) -> (r: Self)
        ensures
            r == (PipelineBuilder { retry: Some(retry), ..self }),
    {
        PipelineBuilder { retry: Some(retry), ..self }
    }

    /// Sets how many batches may wait; at least one.
    pub fn buffer(self, buffer: usize) -> (r: Self)
        ensures
            r == (PipelineBuilder {
                buffer: Some(
                    if buffer < 1 {
                        1
                    } else {
                        buffer
                    },
                ),
                ..self
            }),
    {
        PipelineBuilder {
            buffer: Some(
                if buffer < 1 {
                    1
                } else {
                    buffer
                },
            ),
            ..self
        }
    }

    /// Sets how many bytes of events may be on their way, whatever their number.
    pub fn max_inflight_bytes(self, bytes: usize) -> (r: Self)
        ensures
            r == (PipelineBuilder { max_inflight_bytes: Some(bytes), ..self }),
    {
        PipelineBuilder { max_inflight_bytes: Some(bytes), ..self }
    }

    /// Sets whether to start only if the sink is fit.
    pub fn require_healthy(self, require: bool) -> (r: Self)
        ensures
            r == (PipelineBuilder { require_healthy: require, ..self }),
    {
        PipelineBuilder { require_healthy: require, ..self }
    }

    /// Sets what becomes of a batch that cannot be stored.
    pub fn on_error(self, on_error: OnError) -> (r: Self)
        ensures
            r == (PipelineBuilder { on_error: Some(on_error), ..self }),
    {
        PipelineBuilder { on_error: Some(on_error), ..self }
    }

    /// Settles the settings: what was not given is as usual. There has to be a
    /// source and a sink.
    pub fn build(self, has_source: bool, has_sink: bool) -> (r: Result<Plan, Error>)
        ensures
            r is Ok <==> has_source && has_sink,
            r matches Err(e) ==> e@ == ErrorView::Config(
                if !has_source {
                    "缺少 source"@
                } else {
                    "缺少 sink"@
                },
            ),
            r matches Ok(plan) ==> {
                &&& match self.batch {
                    Some(batch) => plan.batch == batch,
                    None => plan.batch.max_events == 10_000 && plan.batch.max_bytes == 10_485_760
                        && plan.batch.timeout_ms == 1_000,
                }
                &&& match self.retry {
                    Some(retry) => plan.retry == retry,
                    None => plan.retry.max_attempts == 5 && plan.retry.initial_backoff_ms == 500
                        && plan.retry.max_backoff_ms == 30_000,
                }
                &&& plan.buffer == match self.buffer {
                    Some(buffer) => buffer,
                    None => 64,
                }
                &&& plan.max_inflight_bytes == match self.max_inflight_bytes {
                    Some(bytes) => room(bytes),
                    None => 67_108_864,
                }
                &&& plan.require_healthy == self.require_healthy
                &&& plan.on_error == match self.on_error {
                    Some(on_error) => on_error,
                    None => OnError::Stop,
                }
            },
    {
        if !has_source {
            return Err(Error::config("缺少 source"));
        }
        if !has_sink {
            return Err(Error::config("缺少 sink"));
        }
        Ok(
            Plan {
                batch: match self.batch {
                    Some(batch) => batch,
                    None => BatchConfig::default(),
                },
                retry: match self.retry {
                    Some(retry) => retry,
                    None => RetryConfig::default(),
                },
                buffer: match self.buffer {
                    Some(buffer) => buffer,
                    None => 64,
                },
                max_inflight_bytes: match self.max_inflight_bytes {
                    Some(bytes) => to_room(bytes),
                    None => 67_108_864,
                },
                require_healthy: self.require_healthy,
                on_error: match self.on_error {
                    Some(on_error) => on_error,
                    None => OnError::Stop,
                },
            },
        )
    }
}

} // verus!
