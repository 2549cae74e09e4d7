//! Asking for the labels of pods.
//!
//! A pod is asked for once, however many files it has. What is settled, a label
//! or that there is none, is kept; what failed is asked for again at the next
//! scan, and collecting goes on meanwhile.

use vstd::prelude::*;

use crate::map::{ascending, lemma_key_unique, lemma_map_of_entry, place};
use crate::parser::api::Parser;
use crate::source::collection::{pod_key, pod_name, Collection, Lookup};
use crate::source::k8s::{pod_view, PodMeta, PodView};
use crate::source::tail::{is_of_pod, Watcher};
use crate::text::{opt_string_view, same};

verus! {

/// How often a label has been asked for, one time more.
pub open spec fn once_more(n: u32) -> u32 {
    if n < u32::MAX {
        (n + 1) as u32
    } else {
        n
    }
}

impl<P: Parser> Collection<P> {
    /// The pod that a file's label is to be asked for: the label is wanted, and
    /// it is not known yet.
    pub open spec fn waits_for(&self, key: Seq<char>) -> Option<PodView> {
        if self.watchers@.dom().contains(key) && self.unresolved@.dom().contains(key) {
            match pod_view(self.watchers@[key].pod) {
                Some(meta) => if self.labels@.dom().contains(pod_name(meta)) {
                    None
                } else {
                    Some(meta)
                },
                None => None,
            }
        } else {
            None
        }
    }

    /// Whether a file of `old` has been dealt with in `new`: a label that is known
    /// is taken in, and one that is not is asked for.
    pub open spec fn planned(
        old: &Self,
        key: Seq<char>,
        watcher: &Watcher<P>,
        unresolved: Map<Seq<char>, u32>,
    ) -> bool {
        if !old.unresolved@.dom().contains(key) {
            *watcher == old.watchers@[key] && !unresolved.dom().contains(key)
        } else {
            match pod_view(old.watchers@[key].pod) {
                None => *watcher == old.watchers@[key] && !unresolved.dom().contains(key),
                Some(meta) => if old.labels@.dom().contains(pod_name(meta)) {
                    &&& watcher.is_named(
                        &old.watchers@[key],
                        opt_string_view(old.labels@[pod_name(meta)]),
                    )
                    &&& !unresolved.dom().contains(key)
                } else {
                    &&& *watcher == old.watchers@[key]
                    &&& unresolved.dom().contains(key)
                    &&& unresolved[key] == once_more(old.unresolved@[key])
                },
            }
        }
    }

    /// Takes in the labels that are known, and gives out the pods to ask for, each
    /// of them once.
    pub fn plan_lookups(&mut self) -> (r: Vec<Lookup>)
        requires
            old(self).wf(),
        ensures
            final(self).wf(),
            final(self).order == old(self).order,
            final(self).labels == old(self).labels,
            final(self).leaving == old(self).leaving,
            final(self).watchers@.dom() == old(self).watchers@.dom(),
            forall|key: Seq<char>| #[trigger]
                old(self).watchers@.dom().contains(key) ==> Self::planned(
                    old(self),
                    key,
                    &final(self).watchers@[key],
                    final(self).unresolved@,
                ),
            forall|i: int|
                0 <= i < r@.len() ==> (#[trigger] r@[i]).pod_key@ == pod_name(r@[i].meta@),
            forall|i: int, j: int|
                0 <= i < j < r@.len() ==> #[trigger] r@[i].pod_key@ != #[trigger] r@[j].pod_key@,
            forall|i: int| 0 <= i < r@.len() ==> waited(old(self), #[trigger] r@[i].meta@),
            forall|key: Seq<char>|
                (#[trigger] old(self).waits_for(key)) matches Some(meta) ==> looks_up(
                    r@,
                    pod_name(meta),
                ),
    {
        let ghost list = self.watchers.list();
        let ghost start = *self;
        let mut out: Vec<Lookup> = Vec::new();
        let count: usize = self.watchers.len();
        for i in 0..count
            invariant
                start == *old(self),
                start.wf(),
                list == start.watchers.list(),
                count == list.len(),
                ascending(list),
                self.watchers.wf(),
                self.unresolved.wf(),
                self.labels.wf(),
                self.order == start.order,
                self.labels == start.labels,
                self.leaving == start.leaving,
                self.watchers@.dom() == start.watchers@.dom(),
                self.watchers.list().len() == list.len(),
                self.unresolved@.dom().subset_of(start.unresolved@.dom()),
                forall|k: int|
                    0 <= k < list.len() ==> (#[trigger] self.watchers.list()[k]).0 == list[k].0,
                forall|k: int|
                    0 <= k < i ==> Self::planned(
                        &start,
                        (#[trigger] self.watchers.list()[k]).0,
                        &self.watchers.list()[k].1,
                        self.unresolved@,
                    ),
                forall|k: int|
                    i <= k < list.len() ==> (#[trigger] self.watchers.list()[k]).1 == list[k].1,
                forall|k: int|
                    i <= k < list.len() ==> (self.unresolved@.dom().contains(
                        #[trigger] list[k].0,
                    ) == start.unresolved@.dom().contains(list[k].0)),
                forall|k: int|
                    i <= k < list.len() && self.unresolved@.dom().contains(#[trigger] list[k].0)
                        ==> self.unresolved@[list[k].0] == start.unresolved@[list[k].0],
                forall|k: int|
                    0 <= k < out@.len() ==> (#[trigger] out@[k]).pod_key@ == pod_name(
                        out@[k].meta@,
                    ),
                forall|a: int, b: int|
                    0 <= a < b < out@.len() ==> #[trigger] out@[a].pod_key@
                        != #[trigger] out@[b].pod_key@,
                forall|k: int| 0 <= k < out@.len() ==> waited(&start, #[trigger] out@[k].meta@),
                forall|k: int|
                    0 <= k < i ==> (start.waits_for(#[trigger] list[k].0) matches Some(meta)
                        ==> looks_up(out@, pod_name(meta))),
        {
            let ghost cur = self.watchers.list();
            let ghost was = self.unresolved@;
            let ghost had = out@;
            let ghost key0 = list[i as int].0;
            proof {
                lemma_map_of_entry(list, i as int);
                lemma_map_of_entry(cur, i as int);
                assert(start.watchers@.dom().contains(key0));
                assert(cur[i as int].0 == key0);
                assert(cur[i as int].1 == list[i as int].1);
                assert forall|k: int| 0 <= k < list.len() && k != i implies #[trigger] list[k].0
                    != key0 by {
                    if list[k].0 == key0 {
                        lemma_key_unique(list, k, i as int);
                    }
                }
            }
            let (key, watcher) = self.watchers.entry(i);
            let key = key.clone();
            let attempts: Option<u32> = match self.unresolved.get(key.as_str()) {
                Some(n) => Some(*n),
                None => None,
            };
            if let Some(attempts) = attempts {
                match &watcher.pod {
                    None => {
                        self.unresolved.remove(key.as_str());
                    },
                    Some(meta) => {
                        let meta = meta.duplicate();
                        let pod_key = pod_key(&meta);
                        let known: Option<Option<String>> = match self.labels.get(
                            pod_key.as_str(),
                        ) {
                            Some(name) => Some(
                                match name {
                                    Some(name) => Some(name.clone()),
                                    None => None,
                                },
                            ),
                            None => None,
                        };
                        match known {
                            Some(name) => {
                                let name: Option<&str> = match &name {
                                    Some(name) => Some(name.as_str()),
                                    None => None,
                                };
                                let ghost dom = self.watchers@.dom();
                                let watcher = self.watchers.value_mut(i);
                                watcher.set_service_name(name);
                                proof {
                                    assert(self.watchers@.dom() =~= dom);
                                }
                                self.unresolved.remove(key.as_str());
                            },
                            None => {
                                let more: u32 = attempts.saturating_add(1);
                                self.unresolved.insert(key, more);
                                if !is_looked_up(&out, pod_key.as_str()) {
                                    out.push(Lookup { pod_key, meta });
                                    proof {
                                        assert(start.waits_for(key0) == Some(meta@));
                                        assert(waited(&start, meta@));
                                        assert(out@[had.len() as int].pod_key@ == pod_key@);
                                        assert forall|a: int, b: int|
                                            0 <= a < b < out@.len() implies
                                            #[trigger] out@[a].pod_key@
                                            != #[trigger] out@[b].pod_key@ by {
                                            if b == had.len() {
                                                assert(had[a].pod_key@ != pod_key@);
                                            }
                                        }
                                    }
                                }
                            },
                        }
                    },
                }
            }
            proof {
                assert forall|name: Seq<char>| looks_up(had, name) implies looks_up(out@, name) by {
                    let a = choose|a: int| 0 <= a < had.len() && #[trigger] had[a].pod_key@ == name;
                    assert(out@[a].pod_key@ == name);
                }
                if let Some(meta) = start.waits_for(key0) {
                    assert(looks_up(out@, pod_name(meta)));
                }
                assert forall|k: int| 0 <= k < i + 1 implies Self::planned(
                    &start,
                    (#[trigger] self.watchers.list()[k]).0,
                    &self.watchers.list()[k].1,
                    self.unresolved@,
                ) by {
                    if k < i {
                        assert(self.watchers.list()[k] == cur[k]);
                        assert(Self::planned(&start, cur[k].0, &cur[k].1, was));
                        assert(list[k].0 != key0);
                    }
                }
            }
        }
        proof {
            assert forall|key: Seq<char>| #[trigger]
                start.watchers@.dom().contains(key) implies Self::planned(
                &start,
                key,
                &self.watchers@[key],
                self.unresolved@,
            ) by {
                let k = place(list, key);
                lemma_map_of_entry(list, k);
                lemma_map_of_entry(self.watchers.list(), k);
                assert(self.watchers.list()[k].0 == key);
            }
            assert forall|key: Seq<char>|
                (#[trigger] start.waits_for(key)) matches Some(meta) implies looks_up(
                out@,
                pod_name(start.waits_for(key)->0),
            ) by {
                let k = place(list, key);
                assert(list[k].0 == key);
            }
        }
        out
    }

    /// Takes in what the API server says of a pod: the label, or that there is
    /// none. No file of the pod is waiting for it then.
    pub fn apply_label(&mut self, meta: &PodMeta, name: Option<String>)
        requires
            old(self).wf(),
        ensures
            final(self).wf(),
            final(self).order == old(self).order,
            final(self).leaving == old(self).leaving,
            final(self).watchers@.dom() == old(self).watchers@.dom(),
            final(self).labels@ == old(self).labels@.insert(pod_name(meta@), name),
            forall|key: Seq<char>| #[trigger]
                old(self).watchers@.dom().contains(key) ==> labelled(
                    old(self),
                    key,
                    &final(self).watchers@[key],
                    final(self).unresolved@,
                    meta@,
                    opt_string_view(name),
                ),
    {
        let ghost list = self.watchers.list();
        let ghost start = *self;
        let count: usize = self.watchers.len();
        for i in 0..count
            invariant
                start == *old(self),
                start.wf(),
                list == start.watchers.list(),
                count == list.len(),
                ascending(list),
                self.watchers.wf(),
                self.unresolved.wf(),
                self.labels.wf(),
                self.order == start.order,
                self.labels == start.labels,
                self.leaving == start.leaving,
                self.watchers@.dom() == start.watchers@.dom(),
                self.watchers.list().len() == list.len(),
                self.unresolved@.dom().subset_of(start.unresolved@.dom()),
                forall|k: int|
                    0 <= k < list.len() ==> (#[trigger] self.watchers.list()[k]).0 == list[k].0,
                forall|k: int|
                    0 <= k < i ==> labelled(
                        &start,
                        (#[trigger] self.watchers.list()[k]).0,
                        &self.watchers.list()[k].1,
                        self.unresolved@,
                        meta@,
                        opt_string_view(name),
                    ),
                forall|k: int|
                    i <= k < list.len() ==> (#[trigger] self.watchers.list()[k]).1 == list[k].1,
                forall|k: int|
                    i <= k < list.len() ==> (self.unresolved@.dom().contains(
                        #[trigger] list[k].0,
                    ) == start.unresolved@.dom().contains(list[k].0)),
                forall|k: int|
                    i <= k < list.len() && self.unresolved@.dom().contains(#[trigger] list[k].0)
                        ==> self.unresolved@[list[k].0] == start.unresolved@[list[k].0],
        {
            let ghost cur = self.watchers.list();
            let ghost was = self.unresolved@;
            let ghost key0 = list[i as int].0;
            proof {
                lemma_map_of_entry(list, i as int);
                lemma_map_of_entry(cur, i as int);
                assert(start.watchers@.dom().contains(key0));
                assert(cur[i as int].0 == key0);
                assert(cur[i as int].1 == list[i as int].1);
                assert forall|k: int| 0 <= k < list.len() && k != i implies #[trigger] list[k].0
                    != key0 by {
                    if list[k].0 == key0 {
                        lemma_key_unique(list, k, i as int);
                    }
                }
            }
            let (key, watcher) = self.watchers.entry(i);
            let key = key.clone();
            if watcher.same_pod(meta) {
                let text: Option<&str> = match &name {
                    Some(name) => Some(name.as_str()),
                    None => None,
                };
                let ghost dom = self.watchers@.dom();
                let watcher = self.watchers.value_mut(i);
                watcher.set_service_name(text);
                proof {
                    assert(self.watchers@.dom() =~= dom);
                }
                self.unresolved.remove(key.as_str());
            }
            proof {
                assert forall|k: int| 0 <= k < i + 1 implies labelled(
                    &start,
                    (#[trigger] self.watchers.list()[k]).0,
                    &self.watchers.list()[k].1,
                    self.unresolved@,
                    meta@,
                    opt_string_view(name),
                ) by {
                    if k < i {
                        assert(self.watchers.list()[k] == cur[k]);
                        assert(labelled(
                            &start,
                            cur[k].0,
                            &cur[k].1,
                            was,
                            meta@,
                            opt_string_view(name),
                        ));
                        assert(list[k].0 != key0);
                    }
                }
            }
        }
        let pod_key = pod_key(meta);
        self.labels.insert(pod_key, name);
        proof {
            assert forall|key: Seq<char>| #[trigger]
                start.watchers@.dom().contains(key) implies labelled(
                &start,
                key,
                &self.watchers@[key],
                self.unresolved@,
                meta@,
                opt_string_view(name),
            ) by {
                let k = place(list, key);
                lemma_map_of_entry(list, k);
                lemma_map_of_entry(self.watchers.list(), k);
                assert(self.watchers.list()[k].0 == key);
            }
        }
    }

    /// Whether a failure to get a pod's label is the first one for one of its
    /// files.
    pub fn is_first_failure(&self, meta: &PodMeta) -> (r: bool)
        requires
            self.wf(),
        ensures
            r == exists|key: Seq<char>| #[trigger]
                self.watchers@.dom().contains(key) && self.fails_first(key, meta@),
    {
        let ghost list = self.watchers.list();
        let count: usize = self.watchers.len();
        for i in 0..count
            invariant
                self.wf(),
                list == self.watchers.list(),
                count == list.len(),
                forall|k: int| 0 <= k < i ==> !self.fails_first(#[trigger] list[k].0, meta@),
        {
            proof {
                lemma_map_of_entry(list, i as int);
                assert(self.watchers@.dom().contains(list[i as int].0));
            }
            let (key, watcher) = self.watchers.entry(i);
            if watcher.same_pod(meta) {
                if let Some(attempts) = self.unresolved.get(key.as_str()) {
                    if *attempts <= 1 {
                        return true;
                    }
                }
            }
        }
        proof {
            assert forall|key: Seq<char>| #[trigger]
                self.watchers@.dom().contains(key) implies !self.fails_first(key, meta@) by {
                let k = place(list, key);
                assert(list[k].0 == key);
            }
        }
        false
    }

    /// Whether a file is one of the pod's, and its label was asked for no more
    /// than once.
    pub open spec fn fails_first(&self, key: Seq<char>, meta: PodView) -> bool {
        &&& is_of_pod(pod_view(self.watchers@[key].pod), meta)
        &&& self.unresolved@.dom().contains(key)
        &&& self.unresolved@[key] <= 1
    }
}

/// Whether a file waits for the label of this pod.
pub open spec fn waited<P: Parser>(c: &Collection<P>, meta: PodView) -> bool {
    exists|key: Seq<char>| #[trigger] c.waits_for(key) == Some(meta)
}

/// Whether a pod is among those to ask for.
pub open spec fn looks_up(list: Seq<Lookup>, name: Seq<char>) -> bool {
    exists|i: int| 0 <= i < list.len() && #[trigger] list[i].pod_key@ == name
}

fn is_looked_up(list: &Vec<Lookup>, name: &str) -> (r: bool)
    ensures
        r == looks_up(list@, name@),
{
    for i in 0..list.len()
        invariant
            forall|k: int| 0 <= k < i ==> #[trigger] list@[k].pod_key@ != name@,
    {
        if same(list[i].pod_key.as_str(), name) {
            return true;
        }
    }
    false
}

/// Whether a file of `old` has been dealt with: one of the pod has the label and
/// does not wait any more, any other is as it was.
pub open spec fn labelled<P: Parser>(
    old: &Collection<P>,
    key: Seq<char>,
    watcher: &Watcher<P>,
    unresolved: Map<Seq<char>, u32>,
    meta: PodView,
    name: Option<Seq<char>>,
) -> bool {
    if is_of_pod(pod_view(old.watchers@[key].pod), meta) {
        watcher.is_named(&old.watchers@[key], name) && !unresolved.dom().contains(key)
    } else {
        &&& *watcher == old.watchers@[key]
        &&& unresolved.dom().contains(key) == old.unresolved@.dom().contains(key)
        &&& unresolved.dom().contains(key) ==> unresolved[key] == old.unresolved@[key]
    }
}

} // verus!
