//! How far each file has been collected.
//!
//! An offset moves on only when the data up to it has been stored, and a process
//! that starts again goes on from it.

use vstd::prelude::*;
use vstd::string::*;

use crate::error::{Error, ErrorView};
use crate::list::reversed;
use crate::map::{lemma_key_unique, lemma_map_of_entry, lemma_map_step, map_of, place, StrMap};
use crate::source::path::{components, PathView, UnixPath};
use crate::text::{precedes, texts_view};

verus! {

/// How far one file has been collected.
#[derive(Debug)]
pub struct Record {
    /// Where the file was last seen.
    pub path: String,
    pub offset: u64,
}

/// What a [`Record`] holds.
pub struct RecordView {
    pub path: Seq<char>,
    pub offset: u64,
}

impl Record {
    pub open spec fn view(&self) -> RecordView {
        RecordView { path: self.path@, offset: self.offset }
    }
}

/// What came of reading the stored offsets.
pub enum Stored {
    /// There is no file yet.
    Missing,
    /// The file is there but could not be read as what it should be.
    Damaged,
    /// Each key with what was stored for it.
    Records(Vec<(String, Record)>),
    /// Reading failed.
    Failed {
        /// The file.
        path: String,
        /// What the system said.
        cause: String,
    },
}

impl Stored {
    /// The offsets that were stored; a file that is damaged counts for nothing.
    pub open spec fn offsets(self) -> Map<Seq<char>, RecordView> {
        match self {
            Stored::Records(list) => records_map(list@),
            _ => Map::empty(),
        }
    }
}

/// The offsets of all files, by the files' fingerprints.
#[derive(Debug)]
pub struct Checkpointer {
    files: StrMap<Record>,
    dirty: bool,
    /// How often a file was started anew.
    editions: StrMap<u64>,
}

/// The records of a map.
pub open spec fn record_views(m: Map<Seq<char>, Record>) -> Map<Seq<char>, RecordView> {
    m.map_values(|r: Record| r@)
}

/// The map of a list, where what comes later counts.
pub open spec fn records_map(list: Seq<(String, Record)>) -> Map<Seq<char>, RecordView>
    decreases list.len(),
{
    if list.len() == 0 {
        Map::empty()
    } else {
        records_map(list.drop_last()).insert(list.last().0@, list.last().1@)
    }
}

/// The directory that a record's file stands in.
pub open spec fn directory(r: RecordView) -> Option<PathView> {
    components(r.path).parent()
}

/// Whether a known file stands in a directory.
pub open spec fn known_dir(m: Map<Seq<char>, RecordView>, dir: PathView) -> bool {
    exists|key: Seq<char>| #[trigger] m.dom().contains(key) && directory(m[key]) == Some(dir)
}

/// Whether a path stands in a list.
pub open spec fn holds_path(list: Seq<UnixPath>, p: PathView) -> bool {
    exists|a: int| 0 <= a < list.len() && #[trigger] list[a]@ == p
}

/// What a map is after `key` was found stored up to `offset`.
pub open spec fn advanced(
    m: Map<Seq<char>, RecordView>,
    key: Seq<char>,
    path: Seq<char>,
    offset: u64,
) -> Map<Seq<char>, RecordView> {
    if !m.dom().contains(key) {
        m.insert(key, RecordView { path, offset })
    } else if offset > m[key].offset {
        m.insert(
            key,
            RecordView {
                path: if components(m[key].path) == components(path) {
                    m[key].path
                } else {
                    path
                },
                offset,
            },
        )
    } else {
        m
    }
}

/// Whether an offset moves on when `key` was found stored up to `offset`.
pub open spec fn moves_on(m: Map<Seq<char>, RecordView>, key: Seq<char>, offset: u64) -> bool {
    if m.dom().contains(key) {
        offset > m[key].offset
    } else {
        offset > 0
    }
}

/// What a map is after `key` starts again.
pub open spec fn restarted(m: Map<Seq<char>, RecordView>, key: Seq<char>) -> Map<
    Seq<char>,
    RecordView,
> {
    if m.dom().contains(key) {
        m.insert(key, RecordView { offset: 0, ..m[key] })
    } else {
        m
    }
}

/// The edition of a file: a file that is cut off and written anew is another one
/// from then on.
pub open spec fn edition_of(editions: Map<Seq<char>, u64>, key: Seq<char>) -> u64 {
    if editions.dom().contains(key) {
        editions[key]
    } else {
        0
    }
}

/// The edition that follows another.
pub open spec fn next_edition(edition: u64) -> u64 {
    if edition == u64::MAX {
        0
    } else {
        (edition + 1) as u64
    }
}

/// The editions when a file is started anew.
pub open spec fn renewed(editions: Map<Seq<char>, u64>, key: Seq<char>) -> Map<Seq<char>, u64> {
    editions.insert(key, next_edition(edition_of(editions, key)))
}

/// What became of events whose receipt was waited for.
pub struct Receipt {
    /// The file that they are from.
    pub key: Seq<char>,
    pub path: Seq<char>,
    /// How far the file is stored with them.
    pub offset: u64,
    /// The edition of the file that they were read from.
    pub edition: u64,
    /// Whether they were stored.
    pub stored: bool,
}

impl Receipt {
    /// Whether the events were stored, and are from the file as it is now.
    pub open spec fn counts(self, editions: Map<Seq<char>, u64>) -> bool {
        self.stored && self.edition == edition_of(editions, self.key)
    }
}

/// What a map is after a receipt.
pub open spec fn committed(
    m: Map<Seq<char>, RecordView>,
    editions: Map<Seq<char>, u64>,
    receipt: Receipt,
) -> Map<Seq<char>, RecordView> {
    if receipt.counts(editions) {
        advanced(m, receipt.key, receipt.path, receipt.offset)
    } else {
        m
    }
}

impl Checkpointer {
    /// The records by key.
    pub closed spec fn view(&self) -> Map<Seq<char>, RecordView> {
        record_views(self.files@)
    }

    /// Whether there is something that has not been saved.
    pub closed spec fn unsaved(&self) -> bool {
        self.dirty
    }

    #[verifier::type_invariant]
    spec fn inv(&self) -> bool {
        self.files.wf() && self.editions.wf()
    }

    /// The edition of each file that was started anew.
    pub closed spec fn editions(&self) -> Map<Seq<char>, u64> {
        self.editions@
    }

    /// No record.
    pub fn new() -> (r: Self)
        ensures
            r@ == Map::<Seq<char>, RecordView>::empty(),
            !r.unsaved(),
            r.editions() == Map::<Seq<char>, u64>::empty(),
    {
        let files: StrMap<Record> = StrMap::new();
        proof {
            assert(record_views(files@) =~= Map::empty());
        }
        Checkpointer { files, dirty: false, editions: StrMap::new() }
    }

    /// What was stored. A file that is damaged is left out of account, and
    /// collecting starts anew.
    pub fn load(stored: Stored) -> (r: Result<Self, Error>)
        ensures
            r is Err <==> stored is Failed,
            r matches Ok(c) ==> {
                &&& c@ == stored.offsets()
                &&& !c.unsaved()
                &&& c.editions() == Map::<Seq<char>, u64>::empty()
            },
            r matches Err(e) ==> e@ == (ErrorView::Io {
                context: "读取位点文件 "@ + stored->path@ + " 失败"@,
                cause: stored->cause@,
            }),
    {
        match stored {
            Stored::Missing => Ok(Self::new()),
            Stored::Damaged => Ok(Self::new()),
            Stored::Records(list) => {
                let ghost all = list@;
                let mut done = reversed(list);
                let mut files: StrMap<Record> = StrMap::new();
                proof {
                    assert(done@.reverse() =~= all.skip(0));
                    assert(record_views(files@) =~= records_map(all.take(0)));
                }
                let ghost mut n: int = 0;
                while done.len() > 0
                    invariant
                        files.wf(),
                        0 <= n <= all.len(),
                        done@.reverse() =~= all.skip(n),
                        record_views(files@) == records_map(all.take(n)),
                    decreases done@.len(),
                {
                    let ghost had = done@;
                    match done.pop() {
                        Some(entry) => {
                            proof {
                                assert(had.reverse().len() == all.skip(n).len());
                                assert(had.reverse()[0] == entry);
                                assert(all.skip(n)[0] == all[n]);
                                assert(had.reverse().drop_first() =~= done@.reverse());
                                assert(all.skip(n).drop_first() =~= all.skip(n + 1));
                                assert(all.take(n + 1).drop_last() =~= all.take(n));
                                n = n + 1;
                            }
                            let ghost before = files@;
                            let ghost key = entry.0@;
                            let ghost record = entry.1;
                            files.insert(entry.0, entry.1);
                            proof {
                                assert(record_views(before.insert(key, record)) =~= record_views(
                                    before,
                                ).insert(key, record@));
                            }
                        },
                        None => {},
                    }
                }
                proof {
                    assert(all.take(n) =~= all);
                }
                Ok(Checkpointer { files, dirty: false, editions: StrMap::new() })
            },
            Stored::Failed { path, cause } => {
                let mut context = "读取位点文件 ".to_owned();
                context.append(path.as_str());
                context.append(" 失败");
                Err(Error::Io { context, cause })
            },
        }
    }

    /// The offset of a file.
    pub fn get(&self, key: &str) -> (r: Option<u64>)
        ensures
            r == (if self@.dom().contains(key@) {
                Some(self@[key@].offset)
            } else {
                None
            }),
    {
        proof {
            use_type_invariant(&*self);
        }
        match self.files.get(key) {
            Some(record) => Some(record.offset),
            None => None,
        }
    }

    /// The edition of a file that is read now.
    pub fn edition(&self, key: &str) -> (r: u64)
        ensures
            r == edition_of(self.editions(), key@),
    {
        proof {
            use_type_invariant(&*self);
        }
        match self.editions.get(key) {
            Some(edition) => *edition,
            None => 0,
        }
    }

    /// Takes in what became of events whose receipt was waited for: the offset
    /// moves on only where they were stored, and only if the file was not cut off
    /// since they were read.
    pub fn commit(&mut self, key: &str, path: &str, offset: u64, edition: u64, stored: bool)
        ensures
            ({
                let receipt = Receipt { key: key@, path: path@, offset, edition, stored };
                &&& final(self)@ == committed(old(self)@, old(self).editions(), receipt)
                &&& final(self).unsaved() == (old(self).unsaved() || (receipt.counts(
                    old(self).editions(),
                ) && moves_on(old(self)@, key@, offset)))
            }),
            final(self).editions() == old(self).editions(),
    {
        if stored && edition == self.edition(key) {
            self.advance(key, path, offset);
        }
    }

    /// Moves an offset on. It never goes back: replies may come out of order.
    pub fn advance(&mut self, key: &str, path: &str, offset: u64)
        ensures
            final(self)@ == advanced(old(self)@, key@, path@, offset),
            final(self).unsaved() == (old(self).unsaved() || moves_on(old(self)@, key@, offset)),
            final(self).editions() == old(self).editions(),
    {
        proof {
            use_type_invariant(&*self);
        }
        let mut record = Record { path: path.to_owned(), offset };
        match self.files.get(key) {
            Some(known) => {
                if offset <= known.offset {
                    return ;
                }
                if UnixPath::new(known.path.as_str()).is_same(&UnixPath::new(path)) {
                    record.path = known.path.clone();
                }
                self.put(key, record);
                proof {
                    use_type_invariant(&*self);
                }
                self.dirty = true;
            },
            None => {
                self.put(key, record);
                proof {
                    use_type_invariant(&*self);
                }
                if offset > 0 {
                    self.dirty = true;
                }
            },
        }
    }

    fn put(&mut self, key: &str, record: Record)
        ensures
            final(self)@ == old(self)@.insert(key@, record@),
            final(self).dirty == old(self).dirty,
            final(self).editions == old(self).editions,
    {
        proof {
            use_type_invariant(&*self);
        }
        let ghost before = self.files@;
        let mut files: StrMap<Record> = StrMap::new();
        std::mem::swap(&mut files, &mut self.files);
        files.insert(key.to_owned(), record);
        proof {
            assert(record_views(before.insert(key@, record)) =~= record_views(before).insert(
                key@,
                record@,
            ));
        }
        self.files = files;
    }

    /// Goes back to the start of a file that was cut off and written anew. Receipts
    /// for what was read of it before do not count any more.
    pub fn reset(&mut self, key: &str)
        ensures
            final(self)@ == restarted(old(self)@, key@),
            final(self).unsaved() == (old(self).unsaved() || old(self)@.dom().contains(key@)),
            final(self).editions() == renewed(old(self).editions(), key@),
    {
        let edition: u64 = self.edition(key);
        proof {
            use_type_invariant(&*self);
        }
        let mut editions: StrMap<u64> = StrMap::new();
        std::mem::swap(&mut editions, &mut self.editions);
        editions.insert(
            key.to_owned(),
            if edition == u64::MAX {
                0
            } else {
                edition + 1
            },
        );
        self.editions = editions;
        match self.files.get(key) {
            Some(known) => {
                let record = Record { path: known.path.clone(), offset: 0 };
                self.put(key, record);
                proof {
                    use_type_invariant(&*self);
                }
                self.dirty = true;
            },
            None => {},
        }
    }

    /// Drops a file.
    pub fn forget(&mut self, key: &str)
        ensures
            final(self)@ == old(self)@.remove(key@),
            final(self).unsaved() == (old(self).unsaved() || old(self)@.dom().contains(key@)),
            final(self).editions() == old(self).editions(),
    {
        proof {
            use_type_invariant(&*self);
        }
        let ghost before = self.files@;
        let mut files: StrMap<Record> = StrMap::new();
        std::mem::swap(&mut files, &mut self.files);
        let gone = files.remove(key);
        proof {
            assert(record_views(before.remove(key@)) =~= record_views(before).remove(key@));
        }
        self.files = files;
        if gone.is_some() {
            self.dirty = true;
        }
    }

    /// Whether a file of this directory is known: then its container has been
    /// collected from before. Only the directory itself counts, not those above
    /// it.
    pub fn has_dir(&self, dir: &str) -> (r: bool)
        ensures
            r == known_dir(self@, components(dir@)),
    {
        proof {
            use_type_invariant(&*self);
        }
        let want = UnixPath::new(dir);
        let count: usize = self.files.len();
        for i in 0..count
            invariant
                self.files.wf(),
                count == self.files.list().len(),
                want@ == components(dir@),
                forall|k: int|
                    0 <= k < i ==> directory(#[trigger] self.files.list()[k].1@) != Some(
                        components(dir@),
                    ),
        {
            let (key, record) = self.files.entry(i);
            if let Some(parent) = UnixPath::new(record.path.as_str()).parent() {
                if parent.is_same(&want) {
                    proof {
                        lemma_map_of_entry(self.files.list(), i as int);
                        assert(self@.dom().contains(key@));
                    }
                    return true;
                }
            }
        }
        proof {
            assert forall|key: Seq<char>| #[trigger] self@.dom().contains(key) implies directory(
                self@[key],
            ) != Some(components(dir@)) by {
                let k = place(self.files.list(), key);
                lemma_map_of_entry(self.files.list(), k);
                assert(directory(self.files.list()[k].1@) != Some(components(dir@)));
            }
        }
        false
    }

    /// All directories that a known file stands in, each of them once.
    pub fn dirs(&self) -> (r: Vec<UnixPath>)
        ensures
            forall|p: PathView| #[trigger] holds_path(r@, p) <==> known_dir(self@, p),
            forall|i: int, j: int|
                0 <= i < j < r@.len() ==> #[trigger] r@[i]@ != #[trigger] r@[j]@,
    {
        proof {
            use_type_invariant(&*self);
        }
        let mut out: Vec<UnixPath> = Vec::new();
        let count: usize = self.files.len();
        for i in 0..count
            invariant
                self.files.wf(),
                count == self.files.list().len(),
                forall|a: int, b: int|
                    0 <= a < b < out@.len() ==> #[trigger] out@[a]@ != #[trigger] out@[b]@,
                forall|a: int|
                    0 <= a < out@.len() ==> listed_dir(self.files.list().take(i as int), (#[trigger] out@[a])@),
                forall|k: int, p: PathView|
                    0 <= k < i && directory(#[trigger] self.files.list()[k].1@) == Some(p)
                        ==> #[trigger] holds_path(out@, p),
        {
            let ghost list = self.files.list();
            let (key, record) = self.files.entry(i);
            let ghost before = out@;
            proof {
                assert forall|a: int| 0 <= a < out@.len() implies listed_dir(
                    list.take(i + 1),
                    (#[trigger] out@[a])@,
                ) by {
                    let k = choose|k: int| 0 <= k < list.take(i as int).len() && directory(
                        #[trigger] list.take(i as int)[k].1@,
                    ) == Some(out@[a]@);
                    assert(directory(list.take(i + 1)[k].1@) == Some(out@[a]@));
                }
            }
            if let Some(parent) = UnixPath::new(record.path.as_str()).parent() {
                let ghost p = parent@;
                proof {
                    assert(directory(list.take(i + 1)[i as int].1@) == Some(p));
                    assert(listed_dir(list.take(i + 1), p));
                }
                if !has_path(&out, &parent) {
                    out.push(parent);
                    proof {
                        assert forall|a: int, b: int| 0 <= a < b < out@.len() implies
                            #[trigger] out@[a]@ != #[trigger] out@[b]@ by {
                            if b == before.len() {
                                assert(before[a]@ != p);
                            }
                        }
                        assert(out@[before.len() as int]@ == p);
                    }
                }
                proof {
                    assert(holds_path(out@, p)) by {
                        if holds_path(before, p) {
                            let a = choose|a: int| 0 <= a < before.len() && #[trigger] before[a]@ == p;
                            assert(out@[a]@ == p);
                        }
                    }
                }
            }
            proof {
                assert forall|k: int, q: PathView| 0 <= k < i + 1 && directory(
                    #[trigger] self.files.list()[k].1@,
                ) == Some(q) implies #[trigger] holds_path(out@, q) by {
                    if k < i {
                        assert(holds_path(before, q));
                        let a = choose|a: int| 0 <= a < before.len() && #[trigger] before[a]@ == q;
                        assert(out@[a]@ == q);
                    }
                }
            }
        }
        proof {
            let list = self.files.list();
            assert(list.take(count as int) =~= list);
            assert forall|p: PathView| #[trigger] holds_path(out@, p) <==> known_dir(self@, p) by {
                if holds_path(out@, p) {
                    let i = choose|i: int| 0 <= i < out@.len() && #[trigger] out@[i]@ == p;
                    assert(listed_dir(list, out@[i]@));
                    let k = choose|k: int| 0 <= k < list.len() && directory(#[trigger] list[k].1@)
                        == Some(p);
                    lemma_map_of_entry(list, k);
                    assert(self@.dom().contains(list[k].0));
                }
                if known_dir(self@, p) {
                    let key = choose|key: Seq<char>| #[trigger]
                        self@.dom().contains(key) && directory(self@[key]) == Some(p);
                    let k = place(list, key);
                    lemma_map_of_entry(list, k);
                    assert(directory(list[k].1@) == Some(p));
                    assert(holds_path(out@, p));
                }
            }
        }
        out
    }

    /// Drops what is not to be kept, and returns how many that was.
    ///
    /// The keys are inodes, which are used again: a record of a file that is gone
    /// would have another file read from somewhere in the middle.
    pub fn prune<F: Fn(&str, &str) -> bool>(&mut self, keep: F) -> (r: usize)
        requires
            forall|key: &str, path: &str| #[trigger] call_requires(keep, (key, path)),
        ensures
            final(self)@.submap_of(old(self)@),
            forall|key: Seq<char>| #[trigger]
                old(self)@.dom().contains(key) ==> kept_as(
                    keep,
                    key,
                    old(self)@[key].path,
                    final(self)@.dom().contains(key),
                ),
            r == old(self)@.dom().difference(final(self)@.dom()).len(),
            final(self).unsaved() == (old(self).unsaved() || r > 0),
            final(self).editions() == old(self).editions(),
    {
        proof {
            use_type_invariant(&*self);
        }
        let ghost list = self.files.list();
        let ghost all = self@;
        let mut drop: Vec<String> = Vec::new();
        let count: usize = self.files.len();
        for i in 0..count
            invariant
                forall|key: &str, path: &str| #[trigger] call_requires(keep, (key, path)),
                self.files.wf(),
                list == self.files.list(),
                count == list.len(),
                drop@.len() <= i,
                forall|k: int|
                    0 <= k < i ==> kept_as(
                        keep,
                        #[trigger] list[k].0,
                        list[k].1@.path,
                        !texts_view(drop@).contains(list[k].0),
                    ),
                forall|d: int| 0 <= d < drop@.len() ==> among(list, i as int, (#[trigger] drop@[d])@),
                forall|c: int, d: int|
                    0 <= c < d < drop@.len() ==> #[trigger] drop@[c]@ != #[trigger] drop@[d]@,
        {
            let (key, record) = self.files.entry(i);
            let ghost before = drop@;
            let stays = keep(key.as_str(), record.path.as_str());
            proof {
                assert(kept_as(keep, key@, record@.path, stays));
                assert forall|d: int| 0 <= d < before.len() implies (#[trigger] before[d])@ != key@ by {
                    let k = choose|k: int| 0 <= k < i && #[trigger] list[k].0 == before[d]@;
                    if before[d]@ == key@ {
                        lemma_key_unique(list, k, i as int);
                    }
                }
            }
            if !stays {
                drop.push(key.clone());
            }
            proof {
                let views = texts_view(drop@);
                assert forall|k: int| 0 <= k < i + 1 implies kept_as(
                    keep,
                    #[trigger] list[k].0,
                    list[k].1@.path,
                    !views.contains(list[k].0),
                ) by {
                    let old_views = texts_view(before);
                    if k < i {
                        assert(views.contains(list[k].0) == old_views.contains(list[k].0)) by {
                            if old_views.contains(list[k].0) {
                                let d = old_views.index_of(list[k].0);
                                assert(views[d] == list[k].0);
                            }
                            if views.contains(list[k].0) {
                                let d = views.index_of(list[k].0);
                                if d < before.len() {
                                    assert(old_views[d] == list[k].0);
                                } else {
                                    lemma_key_unique(list, k, i as int);
                                }
                            }
                        }
                    } else {
                        if stays && views.contains(key@) {
                            let d = views.index_of(key@);
                            assert(before[d]@ == key@);
                        }
                        if !stays {
                            assert(views[before.len() as int] == key@);
                        }
                    }
                }
                assert forall|d: int| 0 <= d < drop@.len() implies among(
                    list,
                    i + 1,
                    (#[trigger] drop@[d])@,
                ) by {
                    if d < before.len() {
                        let k = choose|k: int| 0 <= k < i && #[trigger] list[k].0 == before[d]@;
                        assert(list[k].0 == drop@[d]@);
                    } else {
                        assert(list[i as int].0 == drop@[d]@);
                    }
                }
            }
        }
        let removed: usize = drop.len();
        let ghost views = texts_view(drop@);
        proof {
            assert forall|d: int| 0 <= d < drop@.len() implies all.dom().contains(#[trigger] views[d]) by {
                let k = choose|k: int| 0 <= k < list.len() && #[trigger] list[k].0 == drop@[d]@;
                lemma_map_of_entry(list, k);
            }
            assert(views.take(0).to_set() =~= Set::<Seq<char>>::empty());
            assert(all.remove_keys(views.take(0).to_set()) =~= all);
        }
        let was_dirty = self.dirty;
        for d in 0..removed
            invariant
                removed == drop@.len(),
                views == texts_view(drop@),
                self.editions() == old(self).editions(),
                self@ == all.remove_keys(views.take(d as int).to_set()),
        {
            proof {
                assert(views.take(d + 1) =~= views.take(d as int).push(views[d as int]));
                assert(all.remove_keys(views.take(d as int).to_set()).remove(views[d as int])
                    =~= all.remove_keys(views.take(d + 1).to_set())) by {
                    assert forall|x: Seq<char>| views.take(d + 1).to_set().contains(x) <==> (
                    views.take(d as int).to_set().contains(x) || x == views[d as int]) by {
                        if views.take(d as int).contains(x) {
                            let j = views.take(d as int).index_of(x);
                            assert(views.take(d + 1)[j] == x);
                        }
                        if views.take(d + 1).contains(x) {
                            let j = views.take(d + 1).index_of(x);
                            if j < d {
                                assert(views.take(d as int)[j] == x);
                            }
                        }
                        if x == views[d as int] {
                            assert(views.take(d + 1)[d as int] == x);
                        }
                    }
                }
            }
            self.forget(drop[d].as_str());
        }
        proof {
            use_type_invariant(&*self);
        }
        self.dirty = was_dirty || removed > 0;
        proof {
            assert(views.take(removed as int) =~= views);
            let gone = views.to_set();
            assert(all.dom().difference(self@.dom()) =~= gone) by {
                assert forall|x: Seq<char>| gone.contains(x) implies all.dom().contains(x) by {
                    let d = views.index_of(x);
                    assert(all.dom().contains(views[d]));
                }
            }
            assert(views.no_duplicates()) by {
                assert forall|c: int, d: int|
                    0 <= c < views.len() && 0 <= d < views.len() && c != d implies views[c]
                    != views[d] by {
                    if c < d {
                        assert(drop@[c]@ != drop@[d]@);
                    } else {
                        assert(drop@[d]@ != drop@[c]@);
                    }
                }
            }
            views.unique_seq_to_set();
            assert forall|key: Seq<char>| #[trigger] all.dom().contains(key) implies kept_as(
                keep,
                key,
                all[key].path,
                self@.dom().contains(key),
            ) by {
                let k = place(list, key);
                lemma_map_of_entry(list, k);
                assert(kept_as(keep, list[k].0, list[k].1@.path, !views.contains(list[k].0)));
            }
        }
        removed
    }

    /// Whether there is something to save. What is there counts as saved from
    /// then on.
    pub fn take_unsaved(&mut self) -> (r: bool)
        ensures
            r == old(self).unsaved(),
            !final(self).unsaved(),
            final(self)@ == old(self)@,
            final(self).editions() == old(self).editions(),
    {
        proof {
            use_type_invariant(&*self);
        }
        let r = self.dirty;
        self.dirty = false;
        r
    }

    /// All records in the order of their keys, to be stored. When they are loaded
    /// again, all offsets are as they are now.
    pub fn records(&self) -> (r: Vec<(String, Record)>)
        ensures
            Stored::Records(r).offsets() == self@,
            forall|i: int, j: int|
                0 <= i < j < r@.len() ==> precedes(
                    (#[trigger] r@[i]).0@,
                    (#[trigger] r@[j]).0@,
                ),
    {
        proof {
            use_type_invariant(&*self);
        }
        let ghost list = self.files.list();
        let mut out: Vec<(String, Record)> = Vec::new();
        let count: usize = self.files.len();
        proof {
            assert(records_map(out@) =~= record_views(map_of(list.take(0))));
        }
        for i in 0..count
            invariant
                self.files.wf(),
                list == self.files.list(),
                count == list.len(),
                out@.len() == i,
                forall|k: int| 0 <= k < i ==> (#[trigger] out@[k]).0@ == list[k].0,
                records_map(out@) == record_views(map_of(list.take(i as int))),
        {
            let (key, record) = self.files.entry(i);
            let ghost before = out@;
            out.push((key.clone(), Record { path: record.path.clone(), offset: record.offset }));
            proof {
                assert(out@.drop_last() =~= before);
                lemma_map_step(list, i as int);
                assert(record_views(map_of(list.take(i as int)).insert(key@, *record))
                    =~= record_views(map_of(list.take(i as int))).insert(key@, record@));
            }
        }
        proof {
            assert(list.take(count as int) =~= list);
        }
        out
    }
}

/// Whether `keep` may have answered `yes` for a key and its path.
pub open spec fn kept_as<F: Fn(&str, &str) -> bool>(
    keep: F,
    key: Seq<char>,
    path: Seq<char>,
    yes: bool,
) -> bool {
    exists|k: &str, p: &str| k@ == key && p@ == path && #[trigger] call_ensures(keep, (k, p), yes)
}

spec fn among(list: Seq<(Seq<char>, Record)>, n: int, key: Seq<char>) -> bool {
    exists|k: int| 0 <= k < n && #[trigger] list[k].0 == key
}

spec fn listed_dir(list: Seq<(Seq<char>, Record)>, p: PathView) -> bool {
    exists|k: int| 0 <= k < list.len() && directory(#[trigger] list[k].1@) == Some(p)
}

/// Whether a path stands in a list.
pub fn has_path(list: &Vec<UnixPath>, path: &UnixPath) -> (r: bool)
    ensures
        r == holds_path(list@, path@),
{
    for i in 0..list.len()
        invariant
            forall|a: int| 0 <= a < i ==> #[trigger] list@[a]@ != path@,
    {
        if list[i].is_same(path) {
            return true;
        }
    }
    false
}

} // verus!
