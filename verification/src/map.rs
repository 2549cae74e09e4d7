//! An ordered map from texts to values, kept as a sorted list of entries.

use vstd::prelude::*;

use crate::text::{lemma_precedes_irreflexive, lemma_precedes_total, lemma_precedes_transitive};
use crate::text::{less, precedes, same};

verus! {

/// A map from texts to values, in the order of its keys.
#[derive(Debug, PartialEq)]
pub struct StrMap<V> {
    entries: Vec<(String, V)>,
}

/// Whether no key of `list` comes at or before the key in front of it.
pub open spec fn ascending<V>(list: Seq<(Seq<char>, V)>) -> bool {
    forall|i: int, j: int|
        0 <= i < j < list.len() ==> precedes(#[trigger] list[i].0, #[trigger] list[j].0)
}

/// Whether `key` stands in `list`.
pub open spec fn listed<V>(list: Seq<(Seq<char>, V)>, key: Seq<char>) -> bool {
    exists|i: int| 0 <= i < list.len() && #[trigger] list[i].0 == key
}

/// A place of `list` where `key` stands.
pub open spec fn place<V>(list: Seq<(Seq<char>, V)>, key: Seq<char>) -> int {
    choose|i: int| 0 <= i < list.len() && #[trigger] list[i].0 == key
}

/// The map that a list of entries stands for.
pub open spec fn map_of<V>(list: Seq<(Seq<char>, V)>) -> Map<Seq<char>, V> {
    Map::new(|key: Seq<char>| listed(list, key), |key: Seq<char>| list[place(list, key)].1)
}

/// In an ascending list no key stands twice.
pub proof fn lemma_key_unique<V>(list: Seq<(Seq<char>, V)>, i: int, j: int)
    requires
        ascending(list),
        0 <= i < list.len(),
        0 <= j < list.len(),
        list[i].0 == list[j].0,
    ensures
        i == j,
{
    lemma_precedes_irreflexive(list[i].0);
    if i < j {
        assert(precedes(list[i].0, list[j].0));
    } else if j < i {
        assert(precedes(list[j].0, list[i].0));
    }
}

/// The map of an ascending list gives each entry's key that entry's value.
pub proof fn lemma_map_of_entry<V>(list: Seq<(Seq<char>, V)>, i: int)
    requires
        ascending(list),
        0 <= i < list.len(),
    ensures
        map_of(list).dom().contains(list[i].0),
        map_of(list)[list[i].0] == list[i].1,
{
    let key = list[i].0;
    assert(listed(list, key));
    lemma_key_unique(list, i, place(list, key));
}

proof fn lemma_insert_entry<V>(list: Seq<(Seq<char>, V)>, at: int, key: Seq<char>, value: V)
    requires
        ascending(list),
        0 <= at <= list.len(),
        forall|i: int| 0 <= i < at ==> precedes(#[trigger] list[i].0, key),
        forall|i: int| at <= i < list.len() ==> precedes(key, #[trigger] list[i].0),
    ensures
        ascending(list.insert(at, (key, value))),
        map_of(list.insert(at, (key, value))) == map_of(list).insert(key, value),
        !map_of(list).dom().contains(key),
{
    let new = list.insert(at, (key, value));
    assert(ascending(new)) by {
        assert forall|i: int, j: int| 0 <= i < j < new.len() implies precedes(
            #[trigger] new[i].0,
            #[trigger] new[j].0,
        ) by {
            let a = if i < at { i } else { i - 1 };
            let b = if j < at { j } else { j - 1 };
            if i != at && j != at {
                assert(new[i] == list[a]);
                assert(new[j] == list[b]);
                assert(precedes(list[a].0, list[b].0));
            }
        }
    }
    assert(!listed(list, key)) by {
        if listed(list, key) {
            let i = choose|i: int| 0 <= i < list.len() && #[trigger] list[i].0 == key;
            lemma_precedes_irreflexive(key);
        }
    }
    let lhs = map_of(new);
    let rhs = map_of(list).insert(key, value);
    assert forall|k: Seq<char>| lhs.dom().contains(k) <==> rhs.dom().contains(k) by {
        if listed(new, k) {
            let i = choose|i: int| 0 <= i < new.len() && #[trigger] new[i].0 == k;
            if i < at {
                assert(list[i].0 == k);
            } else if i > at {
                assert(list[i - 1].0 == k);
            }
        }
        if listed(list, k) {
            let i = choose|i: int| 0 <= i < list.len() && #[trigger] list[i].0 == k;
            if i < at {
                assert(new[i].0 == k);
            } else {
                assert(new[i + 1].0 == k);
            }
        }
        if k == key {
            assert(new[at].0 == k);
        }
    }
    assert forall|k: Seq<char>| lhs.dom().contains(k) implies lhs[k] == rhs[k] by {
        let i = choose|i: int| 0 <= i < new.len() && #[trigger] new[i].0 == k;
        lemma_map_of_entry(new, i);
        if i < at {
            lemma_map_of_entry(list, i);
            assert(k != key);
        } else if i > at {
            assert(new[i] == list[i - 1]);
            lemma_map_of_entry(list, i - 1);
        }
    }
    assert(lhs =~= rhs);
}

proof fn lemma_update_entry<V>(list: Seq<(Seq<char>, V)>, at: int, value: V)
    requires
        ascending(list),
        0 <= at < list.len(),
    ensures
        ascending(list.update(at, (list[at].0, value))),
        map_of(list.update(at, (list[at].0, value))) == map_of(list).insert(list[at].0, value),
{
    let key = list[at].0;
    let new = list.update(at, (key, value));
    assert forall|i: int| 0 <= i < list.len() implies #[trigger] new[i].0 == list[i].0 by {}
    assert(ascending(new)) by {
        assert forall|i: int, j: int| 0 <= i < j < new.len() implies precedes(
            #[trigger] new[i].0,
            #[trigger] new[j].0,
        ) by {
            assert(precedes(list[i].0, list[j].0));
        }
    }
    let lhs = map_of(new);
    let rhs = map_of(list).insert(key, value);
    assert forall|k: Seq<char>| lhs.dom().contains(k) <==> rhs.dom().contains(k) by {
        if listed(new, k) {
            let i = choose|i: int| 0 <= i < new.len() && #[trigger] new[i].0 == k;
            assert(list[i].0 == k);
        }
        if listed(list, k) {
            let i = choose|i: int| 0 <= i < list.len() && #[trigger] list[i].0 == k;
            assert(new[i].0 == k);
        }
        if k == key {
            assert(new[at].0 == k);
        }
    }
    assert forall|k: Seq<char>| lhs.dom().contains(k) implies lhs[k] == rhs[k] by {
        let i = choose|i: int| 0 <= i < new.len() && #[trigger] new[i].0 == k;
        lemma_map_of_entry(new, i);
        lemma_map_of_entry(list, i);
        if k == key {
            lemma_key_unique(list, i, at);
        }
    }
    assert(lhs =~= rhs);
}

proof fn lemma_remove_entry<V>(list: Seq<(Seq<char>, V)>, at: int)
    requires
        ascending(list),
        0 <= at < list.len(),
    ensures
        ascending(list.remove(at)),
        map_of(list.remove(at)) == map_of(list).remove(list[at].0),
{
    let key = list[at].0;
    let new = list.remove(at);
    assert(ascending(new)) by {
        assert forall|i: int, j: int| 0 <= i < j < new.len() implies precedes(
            #[trigger] new[i].0,
            #[trigger] new[j].0,
        ) by {
            let a = if i < at { i } else { i + 1 };
            let b = if j < at { j } else { j + 1 };
            assert(new[i] == list[a]);
            assert(new[j] == list[b]);
            assert(precedes(list[a].0, list[b].0));
        }
    }
    let lhs = map_of(new);
    let rhs = map_of(list).remove(key);
    assert forall|k: Seq<char>| lhs.dom().contains(k) <==> rhs.dom().contains(k) by {
        if listed(new, k) {
            let i = choose|i: int| 0 <= i < new.len() && #[trigger] new[i].0 == k;
            let a = if i < at { i } else { i + 1 };
            assert(list[a].0 == k);
            if k == key {
                lemma_key_unique(list, a, at);
            }
        }
        if listed(list, k) && k != key {
            let i = choose|i: int| 0 <= i < list.len() && #[trigger] list[i].0 == k;
            let a = if i < at { i } else { i - 1 };
            assert(new[a].0 == k);
        }
    }
    assert forall|k: Seq<char>| lhs.dom().contains(k) implies lhs[k] == rhs[k] by {
        let i = choose|i: int| 0 <= i < new.len() && #[trigger] new[i].0 == k;
        let a = if i < at { i } else { i + 1 };
        assert(new[i] == list[a]);
        lemma_map_of_entry(new, i);
        lemma_map_of_entry(list, a);
    }
    assert(lhs =~= rhs);
}

/// The map of a list grows entry by entry.
pub proof fn lemma_map_step<V>(list: Seq<(Seq<char>, V)>, i: int)
    requires
        ascending(list),
        0 <= i < list.len(),
    ensures
        map_of(list.take(i + 1)) == map_of(list.take(i)).insert(list[i].0, list[i].1),
{
    let a = list.take(i);
    let b = list.take(i + 1);
    assert(ascending(a)) by {
        assert forall|x: int, y: int| 0 <= x < y < a.len() implies precedes(
            #[trigger] a[x].0,
            #[trigger] a[y].0,
        ) by {
            assert(precedes(list[x].0, list[y].0));
        }
    }
    assert(ascending(b)) by {
        assert forall|x: int, y: int| 0 <= x < y < b.len() implies precedes(
            #[trigger] b[x].0,
            #[trigger] b[y].0,
        ) by {
            assert(precedes(list[x].0, list[y].0));
        }
    }
    let lhs = map_of(b);
    let rhs = map_of(a).insert(list[i].0, list[i].1);
    assert forall|k: Seq<char>| lhs.dom().contains(k) <==> rhs.dom().contains(k) by {
        if listed(b, k) {
            let j = choose|j: int| 0 <= j < b.len() && #[trigger] b[j].0 == k;
            if j < i {
                assert(a[j].0 == k);
            }
        }
        if listed(a, k) {
            let j = choose|j: int| 0 <= j < a.len() && #[trigger] a[j].0 == k;
            assert(b[j].0 == k);
        }
        if k == list[i].0 {
            assert(b[i].0 == k);
        }
    }
    assert forall|k: Seq<char>| lhs.dom().contains(k) implies lhs[k] == rhs[k] by {
        let j = choose|j: int| 0 <= j < b.len() && #[trigger] b[j].0 == k;
        lemma_map_of_entry(b, j);
        if j < i {
            assert(a[j] == b[j]);
            lemma_map_of_entry(a, j);
            if k == list[i].0 {
                lemma_key_unique(list, i, j);
            }
        }
    }
    assert(lhs =~= rhs);
}

impl<V> StrMap<V> {
    /// The entries in the order of their keys.
    pub closed spec fn list(&self) -> Seq<(Seq<char>, V)> {
        self.entries@.map_values(|e: (String, V)| (e.0@, e.1))
    }

    /// The entries as a map.
    pub open spec fn view(&self) -> Map<Seq<char>, V> {
        map_of(self.list())
    }

    /// The keys are in order, and none stands twice.
    pub open spec fn wf(&self) -> bool {
        ascending(self.list())
    }

    /// The map without entries.
    pub fn new() -> (r: Self)
        ensures
            r.wf(),
            r.list() == Seq::<(Seq<char>, V)>::empty(),
            r@ == Map::<Seq<char>, V>::empty(),
    {
        let r = StrMap { entries: Vec::new() };
        proof {
            assert(r.list() =~= Seq::<(Seq<char>, V)>::empty());
            assert(r@ =~= Map::<Seq<char>, V>::empty());
        }
        r
    }

    /// The number of entries.
    pub fn len(&self) -> (r: usize)
        ensures
            r == self.list().len(),
    {
        self.entries.len()
    }

    /// Whether there is no entry.
    pub fn is_empty(&self) -> (r: bool)
        requires
            self.wf(),
        ensures
            r == (self.list().len() == 0),
            r == (self@ == Map::<Seq<char>, V>::empty()),
    {
        proof {
            if self.list().len() == 0 {
                assert(self@ =~= Map::<Seq<char>, V>::empty());
            } else {
                lemma_map_of_entry(self.list(), 0);
            }
        }
        self.entries.len() == 0
    }

    /// The entry at a position in the order of the keys.
    pub fn entry(&self, i: usize) -> (r: (&String, &V))
        requires
            i < self.list().len(),
        ensures
            r.0@ == self.list()[i as int].0,
            *r.1 == self.list()[i as int].1,
    {
        let e = &self.entries[i];
        (&e.0, &e.1)
    }

    /// The first position whose key does not come before `key`.
    fn position(&self, key: &str) -> (r: usize)
        requires
            self.wf(),
        ensures
            0 <= r <= self.list().len(),
            forall|i: int| 0 <= i < r ==> precedes(#[trigger] self.list()[i].0, key@),
            r < self.list().len() ==> !precedes(self.list()[r as int].0, key@),
    {
        let mut low: usize = 0;
        let mut high: usize = self.entries.len();
        while low < high
            invariant
                self.wf(),
                0 <= low <= high <= self.entries@.len(),
                self.list().len() == self.entries@.len(),
                forall|i: int| 0 <= i < low ==> precedes(#[trigger] self.list()[i].0, key@),
                forall|i: int| high <= i < self.list().len() ==> !precedes(#[trigger] self.list()[i].0, key@),
            decreases high - low,
        {
            let mid: usize = low + (high - low) / 2;
            if less(self.entries[mid].0.as_str(), key) {
                proof {
                    assert forall|i: int| 0 <= i < mid + 1 implies precedes(#[trigger] self.list()[i].0, key@) by {
                        if i < mid {
                            assert(precedes(self.list()[i].0, self.list()[mid as int].0));
                            lemma_precedes_transitive(self.list()[i].0, self.list()[mid as int].0, key@);
                        }
                    }
                }
                low = mid + 1;
            } else {
                proof {
                    assert forall|i: int| mid <= i < self.list().len() implies !precedes(#[trigger] self.list()[i].0, key@) by {
                        if i > mid && precedes(self.list()[i].0, key@) {
                            assert(precedes(self.list()[mid as int].0, self.list()[i].0));
                            lemma_precedes_transitive(self.list()[mid as int].0, self.list()[i].0, key@);
                        }
                    }
                }
                high = mid;
            }
        }
        low
    }

    /// Where `key` stands, if it does.
    fn find(&self, key: &str) -> (r: Result<usize, usize>)
        requires
            self.wf(),
        ensures
            match r {
                Ok(at) => at < self.list().len() && self.list()[at as int].0 == key@,
                Err(at) => {
                    &&& at <= self.list().len()
                    &&& forall|i: int| 0 <= i < at ==> precedes(#[trigger] self.list()[i].0, key@)
                    &&& forall|i: int|
                        at <= i < self.list().len() ==> precedes(key@, #[trigger] self.list()[i].0)
                    &&& !self@.dom().contains(key@)
                },
            },
    {
        let at: usize = self.position(key);
        if at < self.entries.len() && same(self.entries[at].0.as_str(), key) {
            Ok(at)
        } else {
            proof {
                assert forall|i: int| at <= i < self.list().len() implies precedes(key@, #[trigger] self.list()[i].0) by {
                    lemma_precedes_total(self.list()[at as int].0, key@);
                    if i > at {
                        assert(precedes(self.list()[at as int].0, self.list()[i].0));
                        lemma_precedes_transitive(key@, self.list()[at as int].0, self.list()[i].0);
                    }
                }
                if listed(self.list(), key@) {
                    let i = choose|i: int| 0 <= i < self.list().len() && #[trigger] self.list()[i].0 == key@;
                    lemma_precedes_irreflexive(key@);
                }
            }
            Err(at)
        }
    }

    /// Whether `key` has an entry.
    pub fn contains_key(&self, key: &str) -> (r: bool)
        requires
            self.wf(),
        ensures
            r == self@.dom().contains(key@),
    {
        match self.find(key) {
            Ok(at) => {
                proof {
                    lemma_map_of_entry(self.list(), at as int);
                }
                true
            },
            Err(_) => false,
        }
    }

    /// The value of `key`.
    pub fn get(&self, key: &str) -> (r: Option<&V>)
        requires
            self.wf(),
        ensures
            r is Some <==> self@.dom().contains(key@),
            r matches Some(v) ==> *v == self@[key@],
    {
        match self.find(key) {
            Ok(at) => {
                proof {
                    lemma_map_of_entry(self.list(), at as int);
                }
                Some(&self.entries[at].1)
            },
            Err(_) => None,
        }
    }

    /// The value of `key`, to be changed.
    pub fn get_mut(&mut self, key: &str) -> (r: Option<&mut V>)
        requires
            old(self).wf(),
        ensures
            final(self).wf(),
            r is Some <==> old(self)@.dom().contains(key@),
            match r {
                Some(v) => {
                    &&& *v == old(self)@[key@]
                    &&& final(self)@ == old(self)@.insert(key@, *final(v))
                },
                None => final(self)@ == old(self)@,
            },
    {
        match self.find(key) {
            Ok(at) => {
                proof {
                    lemma_map_of_entry(self.list(), at as int);
                }
                let ghost before = self.list();
                let r = &mut self.entries[at].1;
                proof {
                    lemma_update_entry(before, at as int, *final(r));
                    assert(after_borrow(self).list() =~= before.update(at as int, (key@, *final(r))));
                }
                Some(r)
            },
            Err(_) => None,
        }
    }

    /// The value at a position in the order of the keys, to be changed.
    pub fn value_mut(&mut self, i: usize) -> (r: &mut V)
        requires
            old(self).wf(),
            i < old(self).list().len(),
        ensures
            final(self).wf(),
            *r == old(self).list()[i as int].1,
            final(self).list() == old(self).list().update(
                i as int,
                (old(self).list()[i as int].0, *final(r)),
            ),
            final(self)@ == old(self)@.insert(old(self).list()[i as int].0, *final(r)),
    {
        let ghost before = self.list();
        let r = &mut self.entries[i].1;
        proof {
            lemma_update_entry(before, i as int, *final(r));
            assert(after_borrow(self).list() =~= before.update(
                i as int,
                (before[i as int].0, *final(r)),
            ));
        }
        r
    }

    /// Gives `key` a value and returns the one it had.
    pub fn insert(&mut self, key: String, value: V) -> (r: Option<V>)
        requires
            old(self).wf(),
        ensures
            final(self).wf(),
            final(self)@ == old(self)@.insert(key@, value),
            r is Some <==> old(self)@.dom().contains(key@),
            r matches Some(v) ==> v == old(self)@[key@],
    {
        match self.find(key.as_str()) {
            Ok(at) => {
                proof {
                    lemma_map_of_entry(self.list(), at as int);
                    lemma_update_entry(self.list(), at as int, value);
                }
                let mut entry = (key, value);
                std::mem::swap(&mut self.entries[at], &mut entry);
                proof {
                    assert(self.list() =~= old(self).list().update(at as int, (key@, value)));
                }
                Some(entry.1)
            },
            Err(at) => {
                proof {
                    lemma_insert_entry(self.list(), at as int, key@, value);
                }
                self.entries.insert(at, (key, value));
                proof {
                    assert(self.list() =~= old(self).list().insert(at as int, (key@, value)));
                }
                None
            },
        }
    }

    /// Takes the entry of `key` away and returns its value.
    pub fn remove(&mut self, key: &str) -> (r: Option<V>)
        requires
            old(self).wf(),
        ensures
            final(self).wf(),
            final(self)@ == old(self)@.remove(key@),
            r is Some <==> old(self)@.dom().contains(key@),
            r matches Some(v) ==> v == old(self)@[key@],
    {
        match self.find(key) {
            Ok(at) => {
                proof {
                    lemma_map_of_entry(self.list(), at as int);
                    lemma_remove_entry(self.list(), at as int);
                }
                let entry = self.entries.remove(at);
                proof {
                    assert(self.list() =~= old(self).list().remove(at as int));
                }
                Some(entry.1)
            },
            Err(_) => {
                proof {
                    assert(self@ =~= self@.remove(key@));
                }
                None
            },
        }
    }
}

} // verus!
