//! Receipts, stored offsets and waits.

use vstd::prelude::*;

use crate::batch::{at_most, pow2, RetryConfig};
use crate::event::LogEvent;
use crate::pipeline::{reserved, Deed, Flight, OnError, Owed};
use crate::source::checkpoint::{advanced, committed, edition_of, renewed, restarted, Receipt};
use crate::source::checkpoint::RecordView;

verus! {

/// What has become of events and receipts so far.
pub struct Books<A> {
    /// What is gathered.
    pub gathered: Owed<A>,
    /// What was handed over to be stored.
    pub flight: Owed<A>,
    /// What has been stored.
    pub stored: Seq<LogEvent>,
    /// The receipts that were given out.
    pub given: Seq<A>,
}

/// What has become of them after a deed. Nothing is handed over as long as something
/// is on its way.
pub open spec fn booked<A>(b: Books<A>, deed: Deed<A>) -> Books<A> {
    match deed {
        Deed::Taken { .. } => Books { gathered: b.gathered.after(deed).0, ..b },
        Deed::Handed => if b.flight == Owed::<A>::nothing() {
            Books { gathered: b.gathered.after(deed).0, flight: b.gathered, ..b }
        } else {
            b
        },
        _ => {
            let (flight, given) = b.flight.after(deed);
            Books {
                flight,
                stored: if deed is Stored {
                    b.stored + b.flight.events
                } else {
                    b.stored
                },
                given: b.given + given,
                ..b
            }
        },
    }
}

/// What has become of them after some deeds.
pub open spec fn all_booked<A>(deeds: Seq<Deed<A>>) -> Books<A>
    decreases deeds.len(),
{
    if deeds.len() == 0 {
        Books {
            gathered: Owed::nothing(),
            flight: Owed::nothing(),
            stored: Seq::empty(),
            given: Seq::empty(),
        }
    } else {
        booked(all_booked(deeds.drop_last()), deeds.last())
    }
}

/// Whether each receipt says what batch it is for.
pub open spec fn named(deeds: Seq<Deed<Seq<LogEvent>>>) -> bool {
    forall|i: int|
        0 <= i < deeds.len() ==> (#[trigger] deeds[i] matches Deed::Taken { events, receipt }
            ==> (receipt matches Some(batch) ==> batch == events))
}

/// Whether all events of a batch stand among others.
pub open spec fn all_among(batch: Seq<LogEvent>, events: Seq<LogEvent>) -> bool {
    forall|i: int| 0 <= i < batch.len() ==> #[trigger] events.contains(batch[i])
}

proof fn lemma_among_more(batch: Seq<LogEvent>, a: Seq<LogEvent>, b: Seq<LogEvent>)
    ensures
        all_among(batch, a) ==> all_among(batch, a + b),
        all_among(batch, b) ==> all_among(batch, a + b),
{
    assert forall|e: LogEvent| a.contains(e) implies #[trigger] (a + b).contains(e) by {
        let k = choose|k: int| 0 <= k < a.len() && a[k] == e;
        assert((a + b)[k] == e);
    }
    assert forall|e: LogEvent| b.contains(e) implies #[trigger] (a + b).contains(e) by {
        let k = choose|k: int| 0 <= k < b.len() && b[k] == e;
        assert((a + b)[a.len() + k] == e);
    }
}

/// A receipt is given out only when all events of its batch are stored. So an
/// offset that moves on by receipts never passes an event that is not stored.
///
/// Here a receipt is the batch that it is for.
pub proof fn law_receipts_follow_storage(deeds: Seq<Deed<Seq<LogEvent>>>)
    requires
        named(deeds),
    ensures
        forall|i: int|
            0 <= i < all_booked(deeds).given.len() ==> all_among(
                #[trigger] all_booked(deeds).given[i],
                all_booked(deeds).stored,
            ),
{
    lemma_books(deeds);
}

/// Whether each receipt is for a batch all of whose events are there.
spec fn covered(owed: Owed<Seq<LogEvent>>) -> bool {
    forall|i: int|
        0 <= i < owed.receipts.len() ==> all_among(#[trigger] owed.receipts[i], owed.events)
}

proof fn lemma_covered(
    owed: Owed<Seq<LogEvent>>,
    events: Seq<LogEvent>,
    receipt: Option<Seq<LogEvent>>,
)
    requires
        covered(owed),
        receipt matches Some(batch) ==> batch == events,
    ensures
        covered(owed.with(events, receipt)),
{
    let more = owed.with(events, receipt);
    assert forall|i: int| 0 <= i < more.receipts.len() implies all_among(
        #[trigger] more.receipts[i],
        more.events,
    ) by {
        if i < owed.receipts.len() {
            assert(more.receipts[i] == owed.receipts[i]);
            lemma_among_more(owed.receipts[i], owed.events, events);
        } else {
            assert(more.receipts[i] == events);
            assert(all_among(events, events));
            lemma_among_more(events, owed.events, events);
        }
    }
}

proof fn lemma_books(deeds: Seq<Deed<Seq<LogEvent>>>)
    requires
        named(deeds),
    ensures
        ({
            let b = all_booked(deeds);
            &&& forall|i: int|
                0 <= i < b.given.len() ==> all_among(#[trigger] b.given[i], b.stored)
            &&& covered(b.gathered)
            &&& covered(b.flight)
        }),
    decreases deeds.len(),
{
    if deeds.len() > 0 {
        let before = deeds.drop_last();
        assert forall|i: int| 0 <= i < before.len() implies (
            #[trigger] before[i] matches Deed::Taken { events, receipt }
            ==> (receipt matches Some(batch) ==> batch == events)) by {
            assert(deeds[i] == before[i]);
        }
        lemma_books(before);
        let b = all_booked(before);
        let b1 = all_booked(deeds);
        assert(deeds.last() == deeds[deeds.len() - 1]);
        match deeds.last() {
            Deed::Taken { events, receipt } => {
                lemma_covered(b.gathered, events, receipt);
            },
            Deed::Stored => {
                assert forall|i: int| 0 <= i < b1.given.len() implies all_among(
                    #[trigger] b1.given[i],
                    b1.stored,
                ) by {
                    if i < b.given.len() {
                        assert(b1.given[i] == b.given[i]);
                    } else {
                        assert(b1.given[i] == b.flight.receipts[i - b.given.len()]);
                    }
                    lemma_among_more(b1.given[i], b.stored, b.flight.events);
                }
            },
            Deed::Empty => {
                assert forall|i: int| 0 <= i < b1.given.len() implies all_among(
                    #[trigger] b1.given[i],
                    b1.stored,
                ) by {
                    if i < b.given.len() {
                        assert(b1.given[i] == b.given[i]);
                    } else {
                        let batch = b.flight.receipts[i - b.given.len()];
                        assert(b1.given[i] == batch);
                        if batch.len() > 0 {
                            assert(b.flight.events.contains(batch[0]));
                        }
                    }
                }
            },
            _ => {
                assert(b1.given =~= b.given);
            },
        }
    }
}

/// What the sink says gives receipts out only where it has stored the batch.
/// Where it has not, the batch goes on waiting, unless it is asked to be thrown away.
pub proof fn law_only_storage_gives_receipts<A>(
    b: Flight<A>,
    ok: bool,
    retry: RetryConfig,
    on_error: OnError,
)
    ensures
        !ok ==> b.owed().after(b.outcome(ok, &retry, on_error)).1 == Seq::<A>::empty(),
        !ok && on_error == OnError::Stop ==> b.owed().after(b.outcome(ok, &retry, on_error)).0
            == b.owed(),
{
}

/// What has come in is stored, is on its way, is gathered, or was thrown away: where
/// nothing is thrown away, no event is lost and none changes its place.
pub proof fn law_events_are_stored_in_order<A>(deeds: Seq<Deed<A>>)
    requires
        forall|i: int| 0 <= i < deeds.len() ==> !(#[trigger] deeds[i] is Dropped),
    ensures
        ({
            let b = all_booked(deeds);
            b.stored + b.flight.events + b.gathered.events == all_taken(deeds)
        }),
    decreases deeds.len(),
{
    let b = all_booked(deeds);
    if deeds.len() > 0 {
        let before = deeds.drop_last();
        assert forall|i: int| 0 <= i < before.len() implies !(#[trigger] before[i] is Dropped) by {
            assert(deeds[i] == before[i]);
        }
        law_events_are_stored_in_order(before);
        assert(!(deeds[deeds.len() - 1] is Dropped));
    }
    assert(b.stored + b.flight.events + b.gathered.events =~= all_taken(deeds));
}

/// All events that have come in.
pub open spec fn all_taken<A>(deeds: Seq<Deed<A>>) -> Seq<LogEvent>
    decreases deeds.len(),
{
    if deeds.len() == 0 {
        Seq::empty()
    } else {
        all_taken(deeds.drop_last()) + match deeds.last() {
            Deed::Taken { events, .. } => events,
            _ => Seq::empty(),
        }
    }
}

/// A stored offset goes only forward by receipts: it becomes the greater of the
/// two. No other file's is touched.
pub proof fn law_offsets_only_advance(
    m: Map<Seq<char>, RecordView>,
    key: Seq<char>,
    path: Seq<char>,
    offset: u64,
    other: Seq<char>,
)
    ensures
        ({
            let m1 = advanced(m, key, path, offset);
            &&& m1.dom() == m.dom().insert(key)
            &&& m1[key].offset == if m.dom().contains(key) && m[key].offset > offset {
                m[key].offset
            } else {
                offset
            }
            &&& other != key && m.dom().contains(other) ==> m1[other] == m[other]
        }),
{
    assert(advanced(m, key, path, offset).dom() =~= m.dom().insert(key));
}

/// Receipts may come in any order: the offset is the same in the end.
pub proof fn law_receipts_commute(
    m: Map<Seq<char>, RecordView>,
    key: Seq<char>,
    a: (Seq<char>, u64),
    b: (Seq<char>, u64),
)
    ensures
        advanced(advanced(m, key, a.0, a.1), key, b.0, b.1)[key].offset == advanced(
            advanced(m, key, b.0, b.1),
            key,
            a.0,
            a.1,
        )[key].offset,
{
}

/// After a file was cut off, its offset is zero and receipts count again, however
/// small.
pub proof fn law_a_cut_file_starts_over(
    m: Map<Seq<char>, RecordView>,
    key: Seq<char>,
    path: Seq<char>,
    offset: u64,
)
    requires
        m.dom().contains(key),
    ensures
        restarted(m, key)[key].offset == 0,
        advanced(restarted(m, key), key, path, offset)[key].offset == offset,
{
}

/// What a map is after some receipts.
pub open spec fn all_committed(
    m: Map<Seq<char>, RecordView>,
    editions: Map<Seq<char>, u64>,
    receipts: Seq<Receipt>,
) -> Map<Seq<char>, RecordView>
    decreases receipts.len(),
{
    if receipts.len() == 0 {
        m
    } else {
        committed(all_committed(m, editions, receipts.drop_last()), editions, receipts.last())
    }
}

/// After a file was cut off, receipts for what was read of it before change nothing,
/// whenever and in whatever order they come: its offset stays where reading starts
/// over.
pub proof fn law_late_receipts_do_not_count(
    m: Map<Seq<char>, RecordView>,
    editions: Map<Seq<char>, u64>,
    key: Seq<char>,
    receipts: Seq<Receipt>,
)
    requires
        forall|i: int|
            0 <= i < receipts.len() && (#[trigger] receipts[i]).key == key ==> receipts[i].edition
                == edition_of(editions, key),
    ensures
        ({
            let m0 = restarted(m, key);
            let m1 = all_committed(m0, renewed(editions, key), receipts);
            &&& m1.dom().contains(key) <==> m0.dom().contains(key)
            &&& m0.dom().contains(key) ==> m1[key] == m0[key] && m1[key].offset == 0
        }),
    decreases receipts.len(),
{
    if receipts.len() > 0 {
        let before = receipts.drop_last();
        assert forall|i: int|
            0 <= i < before.len() && (#[trigger] before[i]).key == key implies before[i].edition
            == edition_of(editions, key) by {
            assert(receipts[i] == before[i]);
        }
        law_late_receipts_do_not_count(m, editions, key, before);
        assert(receipts.last() == receipts[receipts.len() - 1]);
    }
}

/// Of a file that was cut off, an offset is stored only by a receipt for just that
/// much of what is in it now.
pub proof fn law_a_cut_file_counts_its_own_receipts(
    m: Map<Seq<char>, RecordView>,
    editions: Map<Seq<char>, u64>,
    key: Seq<char>,
    receipts: Seq<Receipt>,
)
    ensures
        ({
            let now = renewed(editions, key);
            let m1 = all_committed(restarted(m, key), now, receipts);
            m1.dom().contains(key) ==> m1[key].offset == 0 || exists|i: int|
                0 <= i < receipts.len() && (#[trigger] receipts[i]).key == key
                    && receipts[i].counts(now) && receipts[i].offset == m1[key].offset
        }),
    decreases receipts.len(),
{
    if receipts.len() > 0 {
        let now = renewed(editions, key);
        let before = receipts.drop_last();
        law_a_cut_file_counts_its_own_receipts(m, editions, key, before);
        let m0 = all_committed(restarted(m, key), now, before);
        let m1 = all_committed(restarted(m, key), now, receipts);
        let last = receipts.last();
        assert(last == receipts[receipts.len() - 1]);
        if m0.dom().contains(key) && m1[key] == m0[key] && m0[key].offset != 0 {
            let i = choose|i: int|
                0 <= i < before.len() && (#[trigger] before[i]).key == key && before[i].counts(now)
                    && before[i].offset == m0[key].offset;
            assert(receipts[i] == before[i]);
        }
    }
}

proof fn lemma_pow2_grows(a: nat, b: nat)
    requires
        a <= b,
    ensures
        1 <= pow2(a) <= pow2(b),
    decreases b,
{
    if a < b {
        lemma_pow2_grows(a, (b - 1) as nat);
    } else if a > 0 {
        lemma_pow2_grows((a - 1) as nat, (a - 1) as nat);
    }
}

/// Waits never get shorter from one attempt to a later one, and never longer than
/// the longest.
pub proof fn law_waits_grow_to_a_limit(retry: RetryConfig, a: nat, b: nat)
    requires
        a <= b,
    ensures
        retry.wait_after(a) <= retry.wait_after(b) <= retry.max_backoff_ms,
{
    let x: nat = if a == 0 {
        0
    } else {
        (a - 1) as nat
    };
    let y: nat = if b == 0 {
        0
    } else {
        (b - 1) as nat
    };
    lemma_pow2_grows(x, y);
    let i = retry.initial_backoff_ms as nat;
    let p = pow2(x);
    let q = pow2(y);
    assert(i * p <= i * q) by (nonlinear_arith)
        requires
            p <= q,
    ;
}

/// Each wait is twice the one before it, up to the longest.
pub proof fn law_waits_double(retry: RetryConfig, attempt: nat)
    requires
        attempt >= 1,
    ensures
        retry.wait_after(1) == at_most(
            retry.initial_backoff_ms as nat,
            retry.max_backoff_ms as nat,
        ),
        retry.wait_after(attempt + 1) == at_most(
            2 * retry.wait_after(attempt),
            retry.max_backoff_ms as nat,
        ),
{
    let i = retry.initial_backoff_ms as nat;
    let p = pow2((attempt - 1) as nat);
    assert(pow2(attempt) == 2 * p);
    assert(i * (2 * p) == 2 * (i * p)) by (nonlinear_arith);
    assert(pow2(0) == 1);
    assert(i * 1 == i);
}

/// A batch takes some of the room for events on their way, and never more than
/// there is.
pub proof fn law_every_batch_has_room(size: nat, capacity: u32)
    requires
        capacity >= 1,
    ensures
        1 <= reserved(size, capacity) <= capacity,
{
}

} // verus!
