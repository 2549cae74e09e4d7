//! The files that are collected from, and what is to be done about them.

use vstd::prelude::*;
use vstd::string::*;

use crate::event::LogEvent;
use crate::map::{ascending, lemma_map_of_entry, place, StrMap};
use crate::parser::api::Parser;
use crate::source::checkpoint::{edition_of, Checkpointer, RecordView};
use crate::source::k8s::{PodMeta, PodView};
use crate::source::read::Delivery;
use crate::source::tail::{delivers, let_go, Watcher};
use crate::text::{has_text, same, texts_view};

verus! {

/// The files that are watched.
pub struct Collection<P: Parser> {
    /// The files by their fingerprints.
    pub watchers: StrMap<Watcher<P>>,
    /// The fingerprints in the order in which the files were found; that is the
    /// order in which they are read.
    pub order: Vec<String>,
    /// How often the label of a file's pod has been asked for, as long as it is
    /// not known.
    pub unresolved: StrMap<u32>,
    /// The labels that are known, by `namespace/pod`; `None` where a pod has
    /// none.
    pub labels: StrMap<Option<String>>,
    /// Files that are gone, whose stored offsets are to be dropped as soon as no
    /// reply for them can come any more.
    pub leaving: Vec<String>,
}

/// What a pod goes by among the labels.
pub open spec fn pod_name(meta: PodView) -> Seq<char> {
    meta.namespace + "/"@ + meta.pod
}

/// The name of a pod among the labels.
pub fn pod_key(meta: &PodMeta) -> (r: String)
    ensures
        r@ == pod_name(meta@),
{
    let mut out = meta.namespace.clone();
    out.append("/");
    out.append(meta.pod.as_str());
    out
}

/// A pod to ask the API server for.
pub struct Lookup {
    /// The pod's name among the labels.
    pub pod_key: String,
    pub meta: PodMeta,
}

/// `list` without `text`.
pub open spec fn without_text(list: Seq<Seq<char>>, text: Seq<char>) -> Seq<Seq<char>>
    decreases list.len(),
{
    if list.len() == 0 {
        Seq::empty()
    } else {
        let rest = without_text(list.drop_last(), text);
        if list.last() == text {
            rest
        } else {
            rest.push(list.last())
        }
    }
}

proof fn lemma_without_text(list: Seq<Seq<char>>, text: Seq<char>)
    ensures
        forall|x: Seq<char>| #[trigger]
            without_text(list, text).contains(x) <==> list.contains(x) && x != text,
        list.no_duplicates() ==> without_text(list, text).no_duplicates(),
    decreases list.len(),
{
    if list.len() > 0 {
        let init = list.drop_last();
        let rest = without_text(init, text);
        lemma_without_text(init, text);
        assert forall|x: Seq<char>| #[trigger] without_text(list, text).contains(x) <==> (
        list.contains(x) && x != text) by {
            let out = without_text(list, text);
            if out.contains(x) {
                let i = out.index_of(x);
                if i < rest.len() {
                    assert(rest[i] == x);
                    assert(rest.contains(x));
                    let j = init.index_of(x);
                    assert(list[j] == x);
                } else {
                    assert(list[list.len() - 1] == x);
                }
            }
            if list.contains(x) && x != text {
                let i = list.index_of(x);
                if i < init.len() {
                    assert(init[i] == x);
                    assert(rest.contains(x));
                    let j = rest.index_of(x);
                    assert(out[j] == x);
                } else {
                    assert(out[rest.len() as int] == x);
                }
            }
        }
        if list.no_duplicates() {
            assert(init.no_duplicates());
            if list.last() != text {
                assert(!rest.contains(list.last())) by {
                    if rest.contains(list.last()) {
                        let j = init.index_of(list.last());
                        assert(list[j] == list[list.len() - 1]);
                    }
                }
                assert(without_text(list, text) =~= rest.push(list.last()));
                assert forall|i: int, j: int|
                    0 <= i < rest.len() + 1 && 0 <= j < rest.len() + 1 && i != j implies rest.push(
                    list.last(),
                )[i] != rest.push(list.last())[j] by {
                    if i == rest.len() {
                        assert(rest.contains(rest[j]));
                    } else if j == rest.len() {
                        assert(rest.contains(rest[i]));
                    }
                }
            }
        }
    }
}

/// Whether one of the files that are gone has a stored offset and waits for no reply.
pub open spec fn drops_any(
    records: Map<Seq<char>, RecordView>,
    gone: Seq<Seq<char>>,
    waiting: Set<Seq<char>>,
) -> bool {
    exists|key: Seq<char>| #[trigger]
        records.dom().contains(key) && gone.contains(key) && !waiting.contains(key)
}

/// Takes a text out of a list.
fn drop_text(list: Vec<String>, text: &str) -> (r: Vec<String>)
    ensures
        texts_view(r@) == without_text(texts_view(list@), text@),
{
    let ghost all = texts_view(list@);
    let mut out: Vec<String> = Vec::new();
    proof {
        assert(texts_view(out@) =~= without_text(all.take(0), text@));
    }
    for i in 0..list.len()
        invariant
            all == texts_view(list@),
            texts_view(out@) == without_text(all.take(i as int), text@),
    {
        let ghost before = out@;
        proof {
            assert(all.take(i + 1).drop_last() =~= all.take(i as int));
        }
        if !same(list[i].as_str(), text) {
            out.push(list[i].clone());
            proof {
                assert(texts_view(out@) =~= texts_view(before).push(all[i as int]));
            }
        }
    }
    proof {
        assert(all.take(list@.len() as int) =~= all);
    }
    out
}

impl<P: Parser> Collection<P> {
    /// Every watched file stands under its own fingerprint, and just the watched
    /// ones are in order.
    pub open spec fn wf(&self) -> bool {
        &&& self.watchers.wf()
        &&& self.unresolved.wf()
        &&& self.labels.wf()
        &&& forall|key: Seq<char>| #[trigger]
            self.watchers@.dom().contains(key) ==> self.watchers@[key].wf()
                && self.watchers@[key].key@ == key
        &&& texts_view(self.order@).no_duplicates()
        &&& forall|key: Seq<char>| #[trigger]
            self.watchers@.dom().contains(key) <==> texts_view(self.order@).contains(key)
        &&& self.unresolved@.dom().subset_of(self.watchers@.dom())
    }

    /// No file.
    pub fn new() -> (r: Self)
        ensures
            r.wf(),
            r.watchers@ == Map::<Seq<char>, Watcher<P>>::empty(),
            r.order@ == Seq::<String>::empty(),
            r.unresolved@ == Map::<Seq<char>, u32>::empty(),
            r.labels@ == Map::<Seq<char>, Option<String>>::empty(),
            r.leaving@ == Seq::<String>::empty(),
    {
        let r = Collection {
            watchers: StrMap::new(),
            order: Vec::new(),
            unresolved: StrMap::new(),
            labels: StrMap::new(),
            leaving: Vec::new(),
        };
        proof {
            assert(texts_view(r.order@) =~= Seq::empty());
        }
        r
    }

    /// Starts a scan: no file has been found by it yet.
    pub fn start_scan(&mut self)
        requires
            old(self).wf(),
        ensures
            final(self).wf(),
            final(self).watchers@.dom() == old(self).watchers@.dom(),
            forall|key: Seq<char>| #[trigger]
                old(self).watchers@.dom().contains(key) ==> final(self).watchers@[key] == (Watcher {
                    seen: false,
                    ..old(self).watchers@[key]
                }),
            final(self).order == old(self).order,
            final(self).unresolved == old(self).unresolved,
            final(self).labels == old(self).labels,
            final(self).leaving == old(self).leaving,
    {
        let ghost list = self.watchers.list();
        let count: usize = self.watchers.len();
        for i in 0..count
            invariant
                self.watchers.wf(),
                count == list.len(),
                self.watchers.list().len() == list.len(),
                ascending(list),
                old(self).watchers.list() == list,
                self.watchers@.dom() == old(self).watchers@.dom(),
                self.order == old(self).order,
                self.unresolved == old(self).unresolved,
                self.labels == old(self).labels,
                self.leaving == old(self).leaving,
                forall|k: int|
                    0 <= k < list.len() ==> (#[trigger] self.watchers.list()[k]).0 == list[k].0,
                forall|k: int|
                    0 <= k < i ==> (#[trigger] self.watchers.list()[k]).1 == (Watcher {
                        seen: false,
                        ..list[k].1
                    }),
                forall|k: int|
                    i <= k < list.len() ==> (#[trigger] self.watchers.list()[k]).1 == list[k].1,
        {
            proof {
                lemma_map_of_entry(self.watchers.list(), i as int);
                assert(self.watchers@.dom().contains(list[i as int].0));
            }
            let ghost dom = self.watchers@.dom();
            let watcher = self.watchers.value_mut(i);
            watcher.seen = false;
            proof {
                assert(self.watchers@.dom() =~= dom);
            }
        }
        proof {
            assert forall|key: Seq<char>| #[trigger]
                old(self).watchers@.dom().contains(key) implies self.watchers@[key] == (Watcher {
                seen: false,
                ..old(self).watchers@[key]
            }) by {
                let k = place(list, key);
                lemma_map_of_entry(list, k);
                lemma_map_of_entry(self.watchers.list(), k);
            }
        }
    }

    /// Notes that a scan found a file, and tells whether it is watched.
    pub fn found(&mut self, key: &str, path: &str) -> (r: bool)
        requires
            old(self).wf(),
        ensures
            final(self).wf(),
            r == old(self).watchers@.dom().contains(key@),
            r ==> {
                &&& final(self).watchers@[key@].is_found_at(&old(self).watchers@[key@], path@)
                &&& final(self).watchers@ == old(self).watchers@.insert(
                    key@,
                    final(self).watchers@[key@],
                )
            },
            !r ==> final(self).watchers@ == old(self).watchers@,
            final(self).order == old(self).order,
            final(self).unresolved == old(self).unresolved,
            final(self).labels == old(self).labels,
            final(self).leaving == old(self).leaving,
    {
        match self.watchers.get_mut(key) {
            Some(watcher) => {
                watcher.found_at(path);
                true
            },
            None => false,
        }
    }

    /// Starts to watch a file. `wants_label` says that a label of its pod is to
    /// be asked for.
    pub fn watch(&mut self, watcher: Watcher<P>, wants_label: bool)
        requires
            old(self).wf(),
            watcher.wf(),
            !old(self).watchers@.dom().contains(watcher.key@),
        ensures
            final(self).wf(),
            final(self).watchers@ == old(self).watchers@.insert(watcher.key@, watcher),
            texts_view(final(self).order@) == texts_view(old(self).order@).push(watcher.key@),
            final(self).unresolved@ == (if wants_label && watcher.pod is Some {
                old(self).unresolved@.insert(watcher.key@, 0)
            } else {
                old(self).unresolved@
            }),
            final(self).labels == old(self).labels,
            final(self).leaving == old(self).leaving,
    {
        let key = watcher.key.clone();
        if wants_label && watcher.pod.is_some() {
            self.unresolved.insert(key.clone(), 0);
        }
        let ghost order = texts_view(self.order@);
        self.order.push(key.clone());
        self.watchers.insert(key, watcher);
        proof {
            let now = texts_view(self.order@);
            assert(now =~= order.push(watcher.key@));
            assert(!order.contains(watcher.key@));
            assert forall|x: Seq<char>| #[trigger]
                self.watchers@.dom().contains(x) <==> now.contains(x) by {
                if order.contains(x) {
                    let i = order.index_of(x);
                    assert(now[i] == x);
                }
                if now.contains(x) {
                    let i = now.index_of(x);
                    if i < order.len() {
                        assert(order[i] == x);
                    }
                }
                if x == watcher.key@ {
                    assert(now[order.len() as int] == x);
                }
            }
            assert forall|i: int, j: int|
                0 <= i < now.len() && 0 <= j < now.len() && i != j implies now[i] != now[j] by {
                if i == order.len() {
                    assert(order.contains(order[j]));
                } else if j == order.len() {
                    assert(order.contains(order[i]));
                }
            }
        }
    }

    /// Stops watching a file that is gone and has been read to its end, and gives
    /// out what is left of it, to be sent. Its stored offset is dropped later, when
    /// no reply for it can come any more.
    pub fn finish(&mut self, key: &str, checkpointer: &Checkpointer) -> (r: Option<Delivery>)
        requires
            old(self).wf(),
        ensures
            final(self).wf(),
            final(self).watchers@ == old(self).watchers@.remove(key@),
            texts_view(final(self).order@) == without_text(texts_view(old(self).order@), key@),
            final(self).unresolved@ == old(self).unresolved@.remove(key@),
            final(self).labels == old(self).labels,
            texts_view(final(self).leaving@) == (if texts_view(old(self).leaving@).contains(key@) {
                texts_view(old(self).leaving@)
            } else {
                texts_view(old(self).leaving@).push(key@)
            }),
            if old(self).watchers@.dom().contains(key@) {
                let w = old(self).watchers@[key@];
                let (t, es) = let_go(w.aggregator.rules(), w.tail());
                &&& r is Some <==> es.len() > 0
                &&& r matches Some(d) ==> {
                    &&& delivers(d.events@, es, w.origin())
                    &&& d.key@ == key@
                    &&& d.path@ == w.path@
                    &&& d.offset == t.safe
                    &&& d.edition == edition_of(checkpointer.editions(), key@)
                }
            } else {
                r is None
            },
    {
        let last = match self.watchers.remove(key) {
            Some(watcher) => {
                let mut watcher = watcher;
                let mut events: Vec<LogEvent> = Vec::new();
                watcher.let_go(&mut events);
                proof {
                    assert(events@.skip(0) =~= events@);
                }
                Delivery::new(events, &watcher, checkpointer)
            },
            None => None,
        };
        let mut order: Vec<String> = Vec::new();
        std::mem::swap(&mut order, &mut self.order);
        self.order = drop_text(order, key);
        self.unresolved.remove(key);
        let ghost before = self.leaving@;
        if !has_text(&self.leaving, key) {
            self.leaving.push(key.to_owned());
            proof {
                assert(texts_view(self.leaving@) =~= texts_view(before).push(key@));
            }
        }
        proof {
            lemma_without_text(texts_view(old(self).order@), key@);
        }
        last
    }

    /// Drops the stored offsets of files that are gone, but for those that a
    /// reply may still come for.
    ///
    /// Fingerprints are used again: an offset that stays would have another file
    /// read from somewhere in the middle. One that is dropped too early would be
    /// put back by a late reply.
    pub fn forget_left(&mut self, waiting: &Vec<String>, checkpointer: &mut Checkpointer)
        requires
            old(self).wf(),
        ensures
            final(self).wf(),
            final(self).watchers == old(self).watchers,
            final(self).order == old(self).order,
            final(self).unresolved == old(self).unresolved,
            final(self).labels == old(self).labels,
            forall|key: Seq<char>| #[trigger]
                texts_view(final(self).leaving@).contains(key) <==> texts_view(
                    old(self).leaving@,
                ).contains(key) && texts_view(waiting@).contains(key),
            final(checkpointer)@ == old(checkpointer)@.remove_keys(
                texts_view(old(self).leaving@).to_set().difference(texts_view(waiting@).to_set()),
            ),
            final(checkpointer).unsaved() == (old(checkpointer).unsaved() || drops_any(
                old(checkpointer)@,
                texts_view(old(self).leaving@),
                texts_view(waiting@).to_set(),
            )),
            final(checkpointer).editions() == old(checkpointer).editions(),
    {
        let mut leaving: Vec<String> = Vec::new();
        std::mem::swap(&mut leaving, &mut self.leaving);
        let ghost all = texts_view(leaving@);
        let ghost wait = texts_view(waiting@).to_set();
        let ghost before = checkpointer@;
        let mut stay: Vec<String> = Vec::new();
        proof {
            assert(all.take(0).to_set().difference(wait) =~= Set::<Seq<char>>::empty());
            assert(before.remove_keys(all.take(0).to_set().difference(wait)) =~= before);
        }
        for i in 0..leaving.len()
            invariant
                all == texts_view(leaving@),
                wait == texts_view(waiting@).to_set(),
                self.watchers == old(self).watchers,
                self.order == old(self).order,
                self.unresolved == old(self).unresolved,
                self.labels == old(self).labels,
                checkpointer@ == before.remove_keys(all.take(i as int).to_set().difference(wait)),
                before == old(checkpointer)@,
                checkpointer.unsaved() == (old(checkpointer).unsaved() || drops_any(
                    before,
                    all.take(i as int),
                    wait,
                )),
                checkpointer.editions() == old(checkpointer).editions(),
                forall|key: Seq<char>| #[trigger]
                    texts_view(stay@).contains(key) <==> all.take(i as int).contains(key)
                        && wait.contains(key),
        {
            let ghost had = stay@;
            let ghost key = all[i as int];
            proof {
                assert forall|x: Seq<char>| all.take(i + 1).contains(x) <==> (all.take(
                    i as int,
                ).contains(x) || x == key) by {
                    if all.take(i as int).contains(x) {
                        let j = all.take(i as int).index_of(x);
                        assert(all.take(i + 1)[j] == x);
                    }
                    if all.take(i + 1).contains(x) {
                        let j = all.take(i + 1).index_of(x);
                        if j < i {
                            assert(all.take(i as int)[j] == x);
                        }
                    }
                    if x == key {
                        assert(all.take(i + 1)[i as int] == x);
                    }
                }
            }
            if has_text(waiting, leaving[i].as_str()) {
                stay.push(leaving[i].clone());
                proof {
                    let now = texts_view(stay@);
                    assert(now =~= texts_view(had).push(key));
                    assert forall|x: Seq<char>| #[trigger] now.contains(x) <==> (all.take(
                        i + 1,
                    ).contains(x) && wait.contains(x)) by {
                        if texts_view(had).contains(x) {
                            let j = texts_view(had).index_of(x);
                            assert(now[j] == x);
                        }
                        if now.contains(x) {
                            let j = now.index_of(x);
                            if j < had.len() {
                                assert(texts_view(had)[j] == x);
                            }
                        }
                        if x == key {
                            assert(now[had.len() as int] == x);
                        }
                    }
                    assert(all.take(i + 1).to_set().difference(wait) =~= all.take(
                        i as int,
                    ).to_set().difference(wait));
                    assert(drops_any(before, all.take(i + 1), wait) == drops_any(
                        before,
                        all.take(i as int),
                        wait,
                    ));
                }
            } else {
                checkpointer.forget(leaving[i].as_str());
                proof {
                    assert(drops_any(before, all.take(i + 1), wait) == (drops_any(
                        before,
                        all.take(i as int),
                        wait,
                    ) || before.dom().contains(key))) by {
                        if before.dom().contains(key) {
                            assert(all.take(i + 1).contains(key));
                        }
                    }
                    assert(all.take(i + 1).to_set().difference(wait) =~= all.take(
                        i as int,
                    ).to_set().difference(wait).insert(key));
                    assert(before.remove_keys(
                        all.take(i as int).to_set().difference(wait),
                    ).remove(key) =~= before.remove_keys(
                        all.take(i + 1).to_set().difference(wait),
                    ));
                }
            }
        }
        proof {
            assert(all.take(leaving@.len() as int) =~= all);
        }
        self.leaving = stay;
    }

    /// Drops the stored offsets of files that were not found by the first scan, but
    /// for those that are watched and those whose paths are still there, and
    /// returns how many that was. `present` tells whether there is something at a
    /// path.
    pub fn prune<F: Fn(&str) -> bool + Copy>(&self, checkpointer: &mut Checkpointer, present: F) -> (r:
        usize)
        requires
            self.wf(),
            forall|path: &str| #[trigger] call_requires(present, (path,)),
        ensures
            final(checkpointer)@.submap_of(old(checkpointer)@),
            forall|key: Seq<char>| #[trigger]
                old(checkpointer)@.dom().contains(key) ==> if self.watchers@.dom().contains(key) {
                    final(checkpointer)@.dom().contains(key)
                } else {
                    answered(
                        present,
                        old(checkpointer)@[key].path,
                        final(checkpointer)@.dom().contains(key),
                    )
                },
            r == old(checkpointer)@.dom().difference(final(checkpointer)@.dom()).len(),
            final(checkpointer).unsaved() == (old(checkpointer).unsaved() || r > 0),
            final(checkpointer).editions() == old(checkpointer).editions(),
    {
        let watchers = &self.watchers;
        let keep = |key: &str, path: &str| -> (stays: bool)
            requires
                watchers.wf(),
                forall|path: &str| #[trigger] call_requires(present, (path,)),
            ensures
                if watchers@.dom().contains(key@) {
                    stays
                } else {
                    call_ensures(present, (path,), stays)
                },
            { watchers.contains_key(key) || present(path) };
        checkpointer.prune(keep)
    }
}

/// Whether `present` may have answered `yes` for a path.
pub open spec fn answered<F: Fn(&str) -> bool>(present: F, path: Seq<char>, yes: bool) -> bool {
    exists|p: &str| p@ == path && #[trigger] call_ensures(present, (p,), yes)
}

} // verus!
