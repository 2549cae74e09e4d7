//! Files that are found, the containers that they are of, and the pods' labels.

use vstd::prelude::*;

use crate::error::Error;
use crate::event::field_views;
use crate::laws::choosing::{lemma_one_name_more, plain_name};
use crate::map::StrMap;
use crate::parser::api::Parser;
use crate::parser::chain::BoxedParser;
use crate::parser::cri::ContainerFormat;
use crate::source::checkpoint::{records_map, Checkpointer, Record, RecordView, Stored};
use crate::source::collection::{drops_any, pod_key, without_text, Collection, Lookup};
use crate::source::read::Delivery;
use crate::source::discover::{fingerprint, sort_found, still_present, tag, wanted};
use crate::source::discover::{Found, Presence, Tags};
use crate::source::file::{is_finished, Admission, FileSource};
use crate::source::k8s::{api_base, cluster_base, glob_matches, glob_texts, label_of_document};
use crate::source::k8s::{containers_layout, parse_pod_path, pod_url, pod_view, pods_layout, PodMeta};
use crate::source::k8s::{PodSelector, PodView};
use crate::source::path::{components, name_before, parts_before, PathView, UnixPath};
use crate::source::tail::Watcher;
use crate::text::{decimal, first_split, last_split, lemma_last_scan_unique, lemma_scan_unique};
use crate::text::{precedes, suffix_stripped, texts_view, trimmed_end_char, Stop};
use crate::value::{Value, ValueView};

verus! {

/// A file in a directory.
pub open spec fn inside(dir: Seq<char>, name: Seq<char>) -> Seq<char> {
    dir.push('/') + name
}

/// Whether an ending is that of a compressed file, or of one that is being written.
pub open spec fn is_no_log(ext: Seq<char>) -> bool {
    ||| ext == seq!['g', 'z']
    ||| ext == seq!['z', 's', 't']
    ||| ext == seq!['x', 'z']
    ||| ext == seq!['b', 'z', '2']
    ||| ext == seq!['z', 'i', 'p']
    ||| ext == seq!['t', 'm', 'p']
}

/// A file is looked at if and only if no pattern leaves it out and its ending is not that
/// of a file that holds no log text; only what stands behind its last dot counts.
pub proof fn law_files_without_text_are_passed_over(
    dir: Seq<char>,
    stem: Seq<char>,
    ext: Seq<char>,
    path: &str,
    excludes: &Vec<glob::Pattern>,
    r: bool,
)
    requires
        dir.len() > 0,
        stem.len() > 0,
        plain_name(stem.push('.') + ext),
        forall|i: int| 0 <= i < ext.len() ==> #[trigger] ext[i] != '.',
        path@ == inside(dir, stem.push('.') + ext),
        call_ensures(wanted, (path, excludes), r),
    ensures
        r <==> !is_no_log(ext) && forall|i: int|
            0 <= i < excludes@.len() ==> !#[trigger] glob_matches(glob_texts(excludes@)[i], path@),
{
    let name = stem.push('.') + ext;
    lemma_one_name_more(dir, name);
    assert(components(path@).parts.last() == name);
    assert forall|i: int| stem.len() < i < name.len() implies !Stop::Char('.').hit(
        #[trigger] name[i],
    ) by {
        assert(name[i] == ext[i - stem.len() - 1]);
    }
    assert(name[stem.len() as int] == '.');
    lemma_last_scan_unique(name, Stop::Char('.'), stem.len() as int);
    assert(name.take(stem.len() as int) =~= stem);
    assert(name.skip(stem.len() as int + 1) =~= ext);
    lemma_endings();
    let texts = glob_texts(excludes@);
    if crate::source::k8s::any_matches(texts, path@) {
        let i = choose|i: int| 0 <= i < texts.len() && glob_matches(#[trigger] texts[i], path@);
        assert(glob_matches(glob_texts(excludes@)[i], path@));
    } else {
        assert forall|i: int| 0 <= i < excludes@.len() implies !#[trigger] glob_matches(
            glob_texts(excludes@)[i],
            path@,
        ) by {
            assert(!glob_matches(texts[i], path@));
        }
    }
}

proof fn lemma_endings()
    ensures
        "gz"@ == seq!['g', 'z'],
        "zst"@ == seq!['z', 's', 't'],
        "xz"@ == seq!['x', 'z'],
        "bz2"@ == seq!['b', 'z', '2'],
        "zip"@ == seq!['z', 'i', 'p'],
        "tmp"@ == seq!['t', 'm', 'p'],
{
    reveal_strlit("gz");
    reveal_strlit("zst");
    reveal_strlit("xz");
    reveal_strlit("bz2");
    reveal_strlit("zip");
    reveal_strlit("tmp");
    assert("gz"@ =~= seq!['g', 'z']);
    assert("zst"@ =~= seq!['z', 's', 't']);
    assert("xz"@ =~= seq!['x', 'z']);
    assert("bz2"@ =~= seq!['b', 'z', '2']);
    assert("zip"@ =~= seq!['z', 'i', 'p']);
    assert("tmp"@ =~= seq!['t', 'm', 'p']);
}

/// Files are read in the order in which they were last written to: none is lost, none
/// comes twice, and none comes behind one that was written to later; where the time is not
/// known they come first.
pub proof fn law_older_files_are_read_first(found: Vec<Found>, r: Vec<Found>, i: int, j: int)
    requires
        call_ensures(sort_found, (found,), r),
    ensures
        r@.to_multiset() == found@.to_multiset(),
        0 <= i < j < r@.len() ==> match (r@[i].modified, r@[j].modified) {
            (Some(a), Some(b)) => a <= b,
            (Some(_), None) => false,
            (None, _) => true,
        },
{
    if 0 <= i < j < r@.len() {
        assert(!r@[j].before(&r@[i]));
    }
}

/// Whether one text comes before another: at the first difference it has the smaller
/// character, or it ends there.
pub open spec fn comes_first(a: Seq<char>, b: Seq<char>, k: int) -> bool {
    &&& 0 <= k <= a.len()
    &&& k < b.len()
    &&& a.take(k) == b.take(k)
    &&& k == a.len() || a[k] < b[k]
}

proof fn lemma_precedes(a: Seq<char>, b: Seq<char>, k: int)
    requires
        comes_first(a, b, k),
    ensures
        precedes(a, b),
        !precedes(b, a),
    decreases k,
{
    if k > 0 {
        assert(a.take(k)[0] == a[0] && b.take(k)[0] == b[0]);
        let x = a.drop_first();
        let y = b.drop_first();
        assert(x.take(k - 1) =~= a.take(k).drop_first());
        assert(y.take(k - 1) =~= b.take(k).drop_first());
        lemma_precedes(x, y, k - 1);
    }
}

/// Of two files of one directory that were written to at the same time, the one whose name
/// comes first is read first.
pub proof fn law_names_settle_the_order(
    dir: Seq<char>,
    x: Seq<char>,
    y: Seq<char>,
    k: int,
    a: Found,
    b: Found,
)
    requires
        dir.len() > 0,
        plain_name(x),
        plain_name(y),
        comes_first(x, y, k),
        a.path@ == inside(dir, x),
        b.path@ == inside(dir, y),
        a.modified == b.modified,
    ensures
        a.before(&b),
        !b.before(&a),
{
    lemma_one_name_more(dir, x);
    lemma_one_name_more(dir, y);
    lemma_precedes(x, y, k);
    let parts = components(dir).parts;
    lemma_same_front(parts, x, y);
    lemma_same_front(parts, y, x);
}

proof fn lemma_same_front(parts: Seq<Seq<char>>, x: Seq<char>, y: Seq<char>)
    requires
        plain_name(x),
        plain_name(y),
        x != y,
    ensures
        parts_before(parts.push(x), parts.push(y)) == precedes(x, y),
    decreases parts.len(),
{
    let p = parts.push(x);
    let q = parts.push(y);
    if parts.len() == 0 {
        assert(p[0] == x && q[0] == y);
        assert(name_before(x, y) == precedes(x, y));
    } else {
        lemma_same_front(parts.drop_first(), x, y);
        assert(p.drop_first() =~= parts.drop_first().push(x));
        assert(q.drop_first() =~= parts.drop_first().push(y));
        assert(p[0] == parts[0] && q[0] == parts[0]);
    }
}

/// The names of a container are those in the path of its link,
/// `<a>/<b>/<pod>_<namespace>_<container>-<id>.log`, too; none of the four may be empty.
pub proof fn law_names_come_from_the_link(
    base: Seq<char>,
    a: Seq<char>,
    b: Seq<char>,
    meta: PodView,
    id: Seq<char>,
    path: &str,
    r: Option<PodMeta>,
)
    requires
        base.len() > 0,
        plain_name(a) && !a.contains('_'),
        plain_name(b),
        !meta.pod.contains('_') && !meta.pod.contains('/'),
        !meta.namespace.contains('_') && !meta.namespace.contains('/'),
        !meta.container.contains('/'),
        !id.contains('-') && !id.contains('/'),
        path@ == inside(
            inside(inside(base, a), b),
            meta.pod.push('_') + (meta.namespace.push('_') + (meta.container.push('-') + id))
                + seq!['.', 'l', 'o', 'g'],
        ),
        call_ensures(parse_pod_path, (path,), r),
    ensures
        meta.pod.len() > 0 && meta.namespace.len() > 0 && meta.container.len() > 0 && id.len() > 0
            ==> pod_view(r) == Some(meta),
        meta.pod.len() == 0 || meta.namespace.len() == 0 || meta.container.len() == 0 || id.len()
            == 0 ==> r is None,
{
    let stem = link_stem(meta, id);
    let name = stem + seq!['.', 'l', 'o', 'g'];
    let da = inside(base, a);
    let db = inside(da, b);
    lemma_link_plain(meta, id);
    lemma_one_name_more(base, a);
    lemma_one_name_more(da, b);
    lemma_one_name_more(db, name);
    let parts = components(base).parts;
    let path_view = components(path@);
    assert(path_view.parts == parts.push(a).push(b).push(name));
    assert(path_view.parts.drop_last() =~= parts.push(a).push(b));
    assert(parts.push(a).push(b).drop_last() =~= parts.push(a));
    // No names in the directory.
    assert forall|i: int| 0 <= i < a.len() implies !Stop::Char('_').hit(#[trigger] a[i]) by {
        assert(a.contains(a[i]));
    }
    lemma_scan_unique(a, Stop::Char('_'), a.len() as int);
    assert(pods_layout(path_view) is None);
    lemma_link_names(meta, id);
    assert(path_view.file_name() == Some(name));
    assert(containers_layout(path_view) is Some ==> containers_layout(path_view) == Some(meta));
}

/// The names in the link of a container's log.
spec fn link_stem(meta: PodView, id: Seq<char>) -> Seq<char> {
    meta.pod.push('_') + (meta.namespace.push('_') + (meta.container.push('-') + id))
}

proof fn lemma_unslashed(a: Seq<char>, c: char, b: Seq<char>)
    requires
        !a.contains('/'),
        c != '/',
        !b.contains('/'),
    ensures
        !(a.push(c) + b).contains('/'),
{
    let s = a.push(c) + b;
    if s.contains('/') {
        let i = s.index_of('/');
        if i < a.len() {
            assert(a[i] == '/');
        } else if i > a.len() {
            assert(b[i - a.len() - 1] == '/');
        }
    }
}

proof fn lemma_link_plain(meta: PodView, id: Seq<char>)
    requires
        !meta.pod.contains('/'),
        !meta.namespace.contains('/') && !meta.container.contains('/') && !id.contains('/'),
    ensures
        plain_name(link_stem(meta, id) + seq!['.', 'l', 'o', 'g']),
{
    let stem = link_stem(meta, id);
    let dot = seq!['.', 'l', 'o', 'g'];
    let name = stem + dot;
    lemma_unslashed(meta.container, '-', id);
    lemma_unslashed(meta.namespace, '_', meta.container.push('-') + id);
    lemma_unslashed(meta.pod, '_', meta.namespace.push('_') + (meta.container.push('-') + id));
    if name.contains('/') {
        let i = name.index_of('/');
        if i < stem.len() {
            assert(stem[i] == '/');
        } else {
            assert(dot[i - stem.len()] == '/');
        }
    }
    assert(name.len() >= 4);
}

proof fn lemma_link_names(meta: PodView, id: Seq<char>)
    requires
        !meta.pod.contains('_'),
        !meta.namespace.contains('_'),
        !id.contains('-'),
    ensures
        ({
            let stem = link_stem(meta, id);
            let tail = meta.container.push('-') + id;
            let rest = meta.namespace.push('_') + tail;
            &&& suffix_stripped(stem + seq!['.', 'l', 'o', 'g'], ".log"@) == Some(stem)
            &&& first_split(stem, '_') == Some((meta.pod, rest))
            &&& first_split(rest, '_') == Some((meta.namespace, tail))
            &&& last_split(tail, '-') == Some((meta.container, id))
        }),
{
    let tail = meta.container.push('-') + id;
    let rest = meta.namespace.push('_') + tail;
    let stem = link_stem(meta, id);
    let dot = seq!['.', 'l', 'o', 'g'];
    let name = stem + dot;
    reveal_strlit(".log");
    assert(".log"@ =~= dot);
    assert(dot.is_suffix_of(name));
    assert(name.take(name.len() - dot.len()) =~= stem);
    lemma_first_cut(meta.pod, '_', rest);
    lemma_first_cut(meta.namespace, '_', tail);
    lemma_last_cut(meta.container, '-', id);
}

proof fn lemma_first_cut(a: Seq<char>, c: char, b: Seq<char>)
    requires
        !a.contains(c),
    ensures
        first_split(a.push(c) + b, c) == Some((a, b)),
{
    let s = a.push(c) + b;
    let k = a.len() as int;
    assert forall|i: int| 0 <= i < k implies !Stop::Char(c).hit(#[trigger] s[i]) by {
        assert(a.contains(a[i]));
    }
    assert(s[k] == c);
    lemma_scan_unique(s, Stop::Char(c), k);
    assert(s.take(k) =~= a);
    assert(s.skip(k + 1) =~= b);
}

proof fn lemma_last_cut(a: Seq<char>, c: char, b: Seq<char>)
    requires
        !b.contains(c),
    ensures
        last_split(a.push(c) + b, c) == Some((a, b)),
{
    let s = a.push(c) + b;
    let k = a.len() as int;
    assert forall|i: int| k < i < s.len() implies !Stop::Char(c).hit(#[trigger] s[i]) by {
        assert(s[i] == b[i - k - 1]);
        assert(b.contains(b[i - k - 1]));
    }
    assert(s[k] == c);
    lemma_last_scan_unique(s, Stop::Char(c), k);
    assert(s.take(k) =~= a);
    assert(s.skip(k + 1) =~= b);
}

/// The events of a container's file carry its namespace, its pod and its name, whatever
/// fields of these names were given, and all other fields as they were given; those of any
/// other file carry just the fields that were given.
pub proof fn law_events_carry_their_names(
    format: ContainerFormat,
    selector: &Option<PodSelector>,
    fields: &StrMap<Value>,
    path: &str,
    r: Option<Tags>,
    found: Option<PodMeta>,
    key: Seq<char>,
)
    requires
        call_ensures(tag, (format, selector, fields, path), r),
        call_ensures(parse_pod_path, (path,), found),
    ensures
        format is Raw ==> r is Some && r->0.pod is None && field_views(r->0.shared@)
            == field_views(fields@),
        format is Cri && found is None ==> (r is Some <==> selector is None),
        format is Cri && found is Some && selector is None ==> r is Some,
        format is Cri && r is Some ==> pod_view(r->0.pod) == pod_view(found),
        format is Cri && r is Some && found is Some ==> {
            let shared = field_views(r->0.shared@);
            let meta = found->0@;
            &&& shared.dom().contains("namespace"@) && shared["namespace"@] == ValueView::Text(
                meta.namespace,
            )
            &&& shared.dom().contains("pod"@) && shared["pod"@] == ValueView::Text(meta.pod)
            &&& shared.dom().contains("container"@) && shared["container"@] == ValueView::Text(
                meta.container,
            )
            &&& key != "namespace"@ && key != "pod"@ && key != "container"@ ==> {
                &&& shared.dom().contains(key) <==> fields@.dom().contains(key)
                &&& fields@.dom().contains(key) ==> shared[key] == fields@[key]@
            }
        },
{
    reveal_strlit("namespace");
    reveal_strlit("pod");
    reveal_strlit("container");
    assert("namespace"@.len() == 9 && "pod"@.len() == 3 && "container"@.len() == 9);
    assert("namespace"@[0] == 'n' && "container"@[0] == 'c');
}

/// A watched file is still there if its own path holds it; another file in its place does
/// not count, and not being able to tell does.
pub proof fn law_only_what_is_gone_is_let_go(
    presence: &Presence,
    key: &str,
    present: bool,
    watcher: &Watcher<BoxedParser>,
    seen: bool,
    r: bool,
)
    requires
        call_ensures(still_present, (presence, key), present),
        call_ensures(is_finished, (watcher, seen), r),
    ensures
        presence is Gone ==> !present,
        presence is Unknown ==> present,
        *presence matches Presence::File(found) ==> (present <==> found@ == key@),
        r <==> !seen && !watcher.seen && watcher.at_eof,
{
}

/// A fingerprint is the device and the inode.
pub proof fn law_fingerprints_are_device_and_inode(device: u64, inode: u64, r: String)
    requires
        call_ensures(fingerprint, (device, inode), r),
    ensures
        r@ == decimal(device as nat) + seq!['-'] + decimal(inode as nat),
{
    reveal_strlit("-");
    assert("-"@ =~= seq!['-']);
}

/// A file that is not watched yet is read on from its stored offset, unless it is shorter
/// now; without one it is read from its start, unless it was there at the first look, only
/// what is new is asked for and nothing of its directory is known. Nothing but its own
/// stored offset is touched.
pub proof fn law_files_are_read_from_where_they_should(
    source: &FileSource,
    found: &Found,
    first_pass: bool,
    known: &Vec<UnixPath>,
    c: &mut Checkpointer,
    r: Option<Admission>,
    dir: PathView,
    other: Seq<char>,
)
    requires
        source.wf(),
        components(found.path@).parent() == Some(dir),
        call_ensures(FileSource::consider, (source, found, first_pass, known, c), r),
    ensures
        r matches Some(a) ==> {
            let at = a.watcher.offset;
            &&& a.watcher.safe_offset == at
            &&& a.watcher.key@ == found.key@ && a.watcher.path@ == found.path@
            &&& a.watcher.origin().host == source.host@
            &&& match old(c)@.dom().contains(found.key@) {
                true => at == if old(c)@[found.key@].offset <= found.len {
                    old(c)@[found.key@].offset
                } else {
                    0
                },
                false => at == if source.read_from_beginning || !first_pass || exists|i: int|
                    0 <= i < known@.len() && #[trigger] known@[i]@ == dir {
                    0
                } else {
                    found.len
                },
            }
        },
        other != found.key@ ==> (final(c)@.dom().contains(other) <==> old(c)@.dom().contains(other)),
        other != found.key@ && old(c)@.dom().contains(other) ==> final(c)@[other] == old(c)@[other],
        final(c)@.dom().contains(found.key@) <==> old(c)@.dom().contains(found.key@),
        old(c)@.dom().contains(found.key@) && old(c)@[found.key@].offset <= found.len ==> final(c)@
            == old(c)@,
{
    if let Some(a) = r {
        assert(a.watcher.tail().offset == a.watcher.offset);
        assert(a.watcher.tail().safe == a.watcher.safe_offset);
    }
}

/// A stored offset becomes the greater of the two when events were stored, for the file
/// that they were read from and no other; where they were not stored nothing changes. What
/// changes is to be saved.
pub proof fn law_receipts_move_their_own_offset(
    c: &mut Checkpointer,
    key: &str,
    path: &str,
    offset: u64,
    edition: u64,
    stored: bool,
    now: u64,
    other: Seq<char>,
)
    requires
        call_ensures(Checkpointer::commit, (c, key, path, offset, edition, stored), ()),
        call_ensures(Checkpointer::edition, (old(c), key), now),
    ensures
        !stored || edition != now ==> final(c)@ == old(c)@ && final(c).unsaved() == old(c).unsaved(),
        stored && edition == now ==> final(c)@.dom().contains(key@),
        stored && edition == now && !old(c)@.dom().contains(key@) ==> final(c)@[key@].offset
            == offset && final(c)@[key@].path == path@,
        stored && edition == now && old(c)@.dom().contains(key@) ==> final(c)@[key@].offset
            == if old(c)@[key@].offset > offset {
            old(c)@[key@].offset
        } else {
            offset
        },
        other != key@ ==> (final(c)@.dom().contains(other) <==> old(c)@.dom().contains(other)),
        other != key@ && old(c)@.dom().contains(other) ==> final(c)@[other] == old(c)@[other],
        stored && edition == now && offset > 0 && (!old(c)@.dom().contains(key@)
            || old(c)@[key@].offset < offset) ==> final(c).unsaved(),
        old(c).unsaved() ==> final(c).unsaved(),
{
}

/// A file that is cut off starts at zero, and receipts for what was read before are told
/// from those that come after; a file that is dropped is gone, and no other is touched.
pub proof fn law_offsets_start_over_and_go(
    c: &mut Checkpointer,
    d: &mut Checkpointer,
    key: &str,
    before: u64,
    after: u64,
    gone: &str,
    other: Seq<char>,
    offset: Option<u64>,
)
    requires
        call_ensures(Checkpointer::reset, (c, key), ()),
        call_ensures(Checkpointer::edition, (old(c), key), before),
        call_ensures(Checkpointer::edition, (&*final(c), key), after),
        call_ensures(Checkpointer::forget, (d, gone), ()),
        call_ensures(Checkpointer::get, (old(c), key), offset),
    ensures
        before != after,
        old(c)@.dom().contains(key@) ==> final(c)@.dom().contains(key@) && final(c)@[key@].offset
            == 0 && final(c)@[key@].path == old(c)@[key@].path && final(c).unsaved(),
        !old(c)@.dom().contains(key@) ==> final(c)@ == old(c)@,
        other != key@ && old(c)@.dom().contains(other) ==> final(c)@[other] == old(c)@[other],
        !final(d)@.dom().contains(gone@),
        other != gone@ ==> (final(d)@.dom().contains(other) <==> old(d)@.dom().contains(other)),
        other != gone@ && old(d)@.dom().contains(other) ==> final(d)@[other] == old(d)@[other],
        old(d)@.dom().contains(gone@) ==> final(d).unsaved(),
        offset is Some <==> old(c)@.dom().contains(key@),
        offset matches Some(n) ==> n == old(c)@[key@].offset,
{
}

/// What was stored is what is there after a start: nothing where there is no file or where
/// it cannot be read as one, and an error only where reading failed. Saving is asked for
/// once for each change.
pub proof fn law_stored_offsets_are_loaded(
    stored: Stored,
    r: Result<Checkpointer, Error>,
    c: &mut Checkpointer,
    unsaved: bool,
    kept: Checkpointer,
    list: Vec<(String, Record)>,
    again: Result<Checkpointer, Error>,
)
    requires
        call_ensures(Checkpointer::load, (stored,), r),
        call_ensures(Checkpointer::take_unsaved, (c,), unsaved),
        call_ensures(Checkpointer::records, (&kept,), list),
        call_ensures(Checkpointer::load, (Stored::Records(list),), again),
    ensures
        stored is Missing || stored is Damaged ==> r is Ok && r->Ok_0@ == Map::<
            Seq<char>,
            RecordView,
        >::empty(),
        stored is Failed <==> r is Err,
        unsaved == old(c).unsaved() && !final(c).unsaved() && final(c)@ == old(c)@,
        again is Ok && again->Ok_0@ == kept@ && !again->Ok_0.unsaved(),
{
}

/// Each record that is stored is an offset, the last one of a file counts, and there are no
/// others.
pub proof fn law_each_record_is_an_offset(
    list: Vec<(String, Record)>,
    r: Result<Checkpointer, Error>,
    i: int,
    key: Seq<char>,
)
    requires
        call_ensures(Checkpointer::load, (Stored::Records(list),), r),
    ensures
        r is Ok,
        0 <= i < list@.len() && list@[i].0@ == key && (forall|k: int|
            i < k < list@.len() ==> (#[trigger] list@[k]).0@ != key) ==> r->Ok_0@.dom().contains(key)
            && r->Ok_0@[key].offset == list@[i].1.offset && r->Ok_0@[key].path
            == list@[i].1.path@,
        (forall|k: int| 0 <= k < list@.len() ==> (#[trigger] list@[k]).0@ != key)
            ==> !r->Ok_0@.dom().contains(key),
{
    if 0 <= i < list@.len() && list@[i].0@ == key && (forall|k: int|
        i < k < list@.len() ==> (#[trigger] list@[k]).0@ != key) {
        lemma_last_record(list@, i, key);
    }
    if forall|k: int| 0 <= k < list@.len() ==> (#[trigger] list@[k]).0@ != key {
        lemma_no_record(list@, key);
    }
}

proof fn lemma_last_record(list: Seq<(String, Record)>, i: int, key: Seq<char>)
    requires
        0 <= i < list.len(),
        list[i].0@ == key,
        forall|k: int| i < k < list.len() ==> (#[trigger] list[k]).0@ != key,
    ensures
        records_map(list).dom().contains(key),
        records_map(list)[key] == list[i].1@,
    decreases list.len(),
{
    if i < list.len() - 1 {
        let less = list.drop_last();
        assert forall|k: int| i < k < less.len() implies (#[trigger] less[k]).0@ != key by {
            assert(less[k] == list[k]);
        }
        lemma_last_record(less, i, key);
        assert(list[list.len() - 1].0@ != key);
    }
}

proof fn lemma_no_record(list: Seq<(String, Record)>, key: Seq<char>)
    requires
        forall|k: int| 0 <= k < list.len() ==> (#[trigger] list[k]).0@ != key,
    ensures
        !records_map(list).dom().contains(key),
    decreases list.len(),
{
    if list.len() > 0 {
        let less = list.drop_last();
        assert forall|k: int| 0 <= k < less.len() implies (#[trigger] less[k]).0@ != key by {
            assert(less[k] == list[k]);
        }
        lemma_no_record(less, key);
        assert(list[list.len() - 1].0@ != key);
    }
}

/// A base address without the slashes behind it: only slashes are left out, and none
/// stands behind what is left.
pub proof fn law_slashes_at_the_end_do_not_count(base: &str, r: String)
    requires
        call_ensures(api_base, (base,), r),
    ensures
        r@.len() <= base@.len() && base@.take(r@.len() as int) == r@,
        forall|i: int| r@.len() <= i < base@.len() ==> #[trigger] base@[i] == '/',
        r@.len() > 0 ==> r@.last() != '/',
{
    lemma_end_char(base@, '/');
}

proof fn lemma_end_char(s: Seq<char>, c: char)
    ensures
        ({
            let r = trimmed_end_char(s, c);
            &&& r.len() <= s.len() && s.take(r.len() as int) == r
            &&& forall|i: int| r.len() <= i < s.len() ==> #[trigger] s[i] == c
            &&& r.len() > 0 ==> r.last() != c
        }),
    decreases s.len(),
{
    let r = trimmed_end_char(s, c);
    if s.len() > 0 && s.last() == c {
        let t = s.drop_last();
        lemma_end_char(t, c);
        assert(s.take(r.len() as int) =~= t.take(r.len() as int));
        assert forall|i: int| r.len() <= i < s.len() implies #[trigger] s[i] == c by {
            if i < t.len() {
                assert(t[i] == s[i]);
            }
        }
    } else {
        assert(s.take(s.len() as int) =~= s);
    }
}

/// A pod is asked for by its namespace and its name, at the address of the API server,
/// where an address of IPv6 stands in brackets.
pub proof fn law_pods_are_asked_for_by_name(
    base: &str,
    namespace: &str,
    pod: &str,
    url: String,
    host: &str,
    port: &str,
    r: Result<String, Error>,
)
    requires
        call_ensures(pod_url, (base, namespace, pod), url),
        call_ensures(cluster_base, (Some(host), Some(port)), r),
    ensures
        url@ == base@ + "/api/v1/namespaces/"@ + namespace@ + "/pods/"@ + pod@,
        r is Ok,
        (forall|i: int| 0 <= i < host@.len() ==> #[trigger] host@[i] != ':') ==> r->Ok_0@
            == "https://"@ + host@ + ":"@ + port@,
        host@.len() > 0 && host@[0] == '[' ==> r->Ok_0@ == "https://"@ + host@ + ":"@ + port@,
        host@.len() > 0 && host@[0] != '[' && host@.contains(':') ==> r->Ok_0@ == "https://["@
            + host@ + "]:"@ + port@,
{
    if forall|i: int| 0 <= i < host@.len() ==> #[trigger] host@[i] != ':' {
        assert(!host@.contains(':'));
    }
}

/// What the API server says of a label is settled where the pod is found or is gone, and
/// an error, to be tried again, in every other case.
pub proof fn law_replies_settle_labels(
    url: &str,
    status: u16,
    status_text: &str,
    body: &str,
    document: Result<Option<String>, String>,
    r: Result<Option<String>, Error>,
)
    requires
        call_ensures(label_of_document, (url, status, status_text, body, document), r),
    ensures
        status == 404 ==> r is Ok && r->Ok_0 is None,
        200 <= status < 300 && document is Ok ==> {
            &&& r is Ok
            &&& r->Ok_0 is Some <==> document->Ok_0 is Some
            &&& r->Ok_0 matches Some(label) ==> label@ == document->Ok_0->0@
        },
        200 <= status < 300 && document is Err ==> r is Err,
        status != 404 && (status < 200 || status >= 300) ==> r is Err,
        r matches Err(e) ==> e@ is Source,
{
}

/// A label that is settled reaches all files of its pod, of whatever container, as their
/// field `service_name`, and no other file; none of those files is waited for any more, and
/// the label is kept.
pub proof fn law_labels_reach_all_files_of_their_pod<P: Parser>(
    c: &mut Collection<P>,
    meta: &PodMeta,
    name: Option<String>,
    key: Seq<char>,
    pod: PodView,
    pod_name: String,
)
    requires
        old(c).wf(),
        call_ensures(Collection::<P>::apply_label, (c, meta, name), ()),
        call_ensures(pod_key, (meta,), pod_name),
        old(c).watchers@.dom().contains(key),
        pod_view(old(c).watchers@[key].pod) == Some(pod),
    ensures
        final(c).watchers@.dom().contains(key),
        pod_name@ == meta@.namespace + seq!['/'] + meta@.pod,
        final(c).labels@.dom().contains(pod_name@) && final(c).labels@[pod_name@] == name,
        pod.namespace == meta@.namespace && pod.pod == meta@.pod ==> {
            let before = old(c).watchers@[key].origin().shared;
            let after = final(c).watchers@[key].origin().shared;
            &&& !final(c).unresolved@.dom().contains(key)
            &&& name is None ==> after == before
            &&& name matches Some(label) ==> after is Some && after->0.dom().contains(
                "service_name"@,
            ) && after->0["service_name"@] == ValueView::Text(label@)
            &&& name is Some && before is Some ==> after->0.remove("service_name"@)
                == before->0.remove("service_name"@)
            &&& final(c).watchers@[key].tail() == old(c).watchers@[key].tail()
        },
        !(pod.namespace == meta@.namespace && pod.pod == meta@.pod) ==> {
            &&& final(c).watchers@[key] == old(c).watchers@[key]
            &&& final(c).unresolved@.dom().contains(key) <==> old(c).unresolved@.dom().contains(key)
        },
{
    reveal_strlit("/");
    assert("/"@ =~= seq!['/']);
    assert(pod_name@ =~= meta@.namespace + seq!['/'] + meta@.pod);
    if pod.namespace == meta@.namespace && pod.pod == meta@.pod {
        if let Some(label) = name {
            let before = old(c).watchers@[key].origin().shared;
            let after = final(c).watchers@[key].origin().shared;
            if let Some(had) = before {
                assert(had.insert("service_name"@, ValueView::Text(label@)).remove("service_name"@)
                    =~= had.remove("service_name"@));
            }
        }
    }
}

/// A pod whose label is wanted and not known is asked for, once; one that is known is not
/// asked for again.
pub proof fn law_unknown_labels_are_asked_for<P: Parser>(
    c: &mut Collection<P>,
    r: Vec<Lookup>,
    key: Seq<char>,
    pod: PodView,
    i: int,
    j: int,
)
    requires
        old(c).wf(),
        call_ensures(Collection::<P>::plan_lookups, (c,), r),
        old(c).watchers@.dom().contains(key),
        pod_view(old(c).watchers@[key].pod) == Some(pod),
        old(c).unresolved@.dom().contains(key),
    ensures
        ({
            let name = pod.namespace + seq!['/'] + pod.pod;
            &&& !old(c).labels@.dom().contains(name) ==> {
                &&& exists|k: int| 0 <= k < r@.len() && #[trigger] r@[k].pod_key@ == name
                &&& final(c).unresolved@.dom().contains(key)
                &&& final(c).watchers@[key] == old(c).watchers@[key]
            }
            &&& old(c).labels@.dom().contains(name) ==> {
                &&& !final(c).unresolved@.dom().contains(key)
                &&& forall|k: int| 0 <= k < r@.len() ==> #[trigger] r@[k].pod_key@ != name
                &&& old(c).labels@[name] matches Some(label)
                    ==> final(c).watchers@[key].origin().shared is Some
                    && final(c).watchers@[key].origin().shared->0["service_name"@]
                    == ValueView::Text(label@)
            }
        }),
        0 <= i < j < r@.len() ==> r@[i].pod_key@ != r@[j].pod_key@,
        0 <= i < r@.len() ==> r@[i].pod_key@ == r@[i].meta@.namespace + seq!['/']
            + r@[i].meta@.pod,
        0 <= i < r@.len() ==> exists|other: Seq<char>|
            {
                &&& #[trigger] old(c).unresolved@.dom().contains(other)
                &&& old(c).watchers@.dom().contains(other)
                &&& pod_view(old(c).watchers@[other].pod) == Some(r@[i].meta@)
            },
{
    reveal_strlit("/");
    assert("/"@ =~= seq!['/']);
    if 0 <= i < r@.len() {
        assert(crate::source::labels::waited(old(c), r@[i].meta@));
        let other = choose|other: Seq<char>| #[trigger]
            old(c).waits_for(other) == Some(r@[i].meta@);
        assert(old(c).unresolved@.dom().contains(other));
    }
    let name = pod.namespace + seq!['/'] + pod.pod;
    assert(crate::source::collection::pod_name(pod) =~= name);
    if !old(c).labels@.dom().contains(name) {
        assert(old(c).waits_for(key) == Some(pod));
        let k = choose|k: int| 0 <= k < r@.len() && #[trigger] r@[k].pod_key@ == name;
        assert(r@[k].pod_key@ == name);
    } else {
        assert forall|k: int| 0 <= k < r@.len() implies #[trigger] r@[k].pod_key@ != name by {
            assert(crate::source::labels::waited(old(c), r@[k].meta@));
        }
    }
}

/// A scan takes no file for found until it finds it; a file that it finds is where it was
/// found, and a file that is new is watched under its fingerprint, read behind those that
/// were there.
pub proof fn law_scans_find_files<P: Parser>(
    s: &mut Collection<P>,
    f: &mut Collection<P>,
    w: &mut Collection<P>,
    key: &str,
    path: &str,
    found: bool,
    watcher: Watcher<P>,
    wants_label: bool,
    other: Seq<char>,
)
    requires
        call_ensures(Collection::<P>::start_scan, (s,), ()),
        call_ensures(Collection::<P>::found, (f, key, path), found),
        call_ensures(Collection::<P>::watch, (w, watcher, wants_label), ()),
    ensures
        old(s).watchers@.dom().contains(other) ==> final(s).watchers@.dom().contains(other)
            && !final(s).watchers@[other].seen && final(s).watchers@[other].tail()
                == old(s).watchers@[other].tail(),
        found <==> old(f).watchers@.dom().contains(key@),
        found ==> final(f).watchers@[key@].seen && final(f).watchers@[key@].path@ == path@
            && final(f).watchers@[key@].tail() == old(f).watchers@[key@].tail(),
        found && other != key@ && old(f).watchers@.dom().contains(other)
            ==> final(f).watchers@[other] == old(f).watchers@[other],
        final(w).watchers@.dom().contains(watcher.key@) && final(w).watchers@[watcher.key@]
            == watcher,
        texts_view(final(w).order@).len() == texts_view(old(w).order@).len() + 1 && texts_view(
            final(w).order@,
        ).last() == watcher.key@,
        other != watcher.key@ && old(w).watchers@.dom().contains(other)
            ==> final(w).watchers@[other] == old(w).watchers@[other],
        final(w).unresolved@.dom().contains(watcher.key@) <==> (wants_label && watcher.pod is Some)
            || old(w).unresolved@.dom().contains(watcher.key@),
{
}

/// A file that is let go is not watched any more and waits to be forgotten; the others stay as
/// they are, in their order. What was left of it is sent, as of its end.
pub proof fn law_files_are_let_go<P: Parser>(
    c: &mut Collection<P>,
    key: &str,
    k: &Checkpointer,
    edition: u64,
    r: Option<Delivery>,
    other: Seq<char>,
)
    requires
        old(c).wf(),
        call_ensures(Collection::<P>::finish, (c, key, k), r),
        call_ensures(Checkpointer::edition, (k, key), edition),
    ensures
        !final(c).watchers@.dom().contains(key@) && !final(c).unresolved@.dom().contains(key@),
        !texts_view(final(c).order@).contains(key@),
        texts_view(final(c).leaving@).contains(key@),
        other != key@ ==> {
            &&& final(c).watchers@.dom().contains(other) <==> old(c).watchers@.dom().contains(other)
            &&& old(c).watchers@.dom().contains(other) ==> final(c).watchers@[other]
                == old(c).watchers@[other]
            &&& texts_view(final(c).order@).contains(other) <==> texts_view(
                old(c).order@,
            ).contains(other)
            &&& texts_view(final(c).leaving@).contains(other) <==> texts_view(
                old(c).leaving@,
            ).contains(other)
        },
        !old(c).watchers@.dom().contains(key@) ==> r is None,
        r matches Some(d) ==> {
            let w = old(c).watchers@[key@];
            &&& d.key@ == key@ && d.path@ == w.path@ && d.edition == edition
            &&& d.offset == w.offset + w.buf@.len()
            &&& d.events@.len() > 0
        },
        old(c).watchers@.dom().contains(key@) && old(c).watchers@[key@].aggregator.state().pending
            is Some ==> r is Some,
{
    let order = texts_view(old(c).order@);
    lemma_without(order, key@, key@);
    lemma_without(order, key@, other);
    let leaving = texts_view(old(c).leaving@);
    let left = texts_view(final(c).leaving@);
    if !leaving.contains(key@) {
        assert(left == leaving.push(key@));
        assert(left[leaving.len() as int] == key@);
        if leaving.contains(other) {
            let i = leaving.index_of(other);
            assert(left[i] == other);
        }
    }
    if old(c).watchers@.dom().contains(key@) {
        let w = old(c).watchers@[key@];
        assert(w.tail().gathered == w.aggregator.state());
        assert(w.tail().rest == w.buf@);
        assert(w.tail().offset == w.offset);
    }
}

proof fn lemma_without(list: Seq<Seq<char>>, text: Seq<char>, other: Seq<char>)
    ensures
        without_text(list, text).contains(other) <==> other != text && list.contains(other),
    decreases list.len(),
{
    if list.len() > 0 {
        let less = list.drop_last();
        lemma_without(less, text, other);
        let rest = without_text(less, text);
        if list.contains(other) {
            let i = list.index_of(other);
            if i < less.len() {
                assert(less[i] == other);
            }
        }
        if less.contains(other) {
            let i = less.index_of(other);
            assert(list[i] == other);
        }
        if list.last() != text {
            let all = rest.push(list.last());
            assert(all[rest.len() as int] == list.last());
            if rest.contains(other) {
                let i = rest.index_of(other);
                assert(all[i] == other);
            }
            if all.contains(other) && other != list.last() {
                let i = all.index_of(other);
                assert(rest[i] == other);
            }
            assert(list[list.len() - 1] == list.last());
        }
    }
}

/// The offset of a file that is let go is forgotten as soon as no receipt for it is waited
/// for, and not before; no other offset is touched.
pub proof fn law_offsets_of_left_files_are_forgotten<P: Parser>(
    c: &mut Collection<P>,
    waiting: &Vec<String>,
    k: &mut Checkpointer,
    key: Seq<char>,
)
    requires
        old(c).wf(),
        call_ensures(Collection::<P>::forget_left, (c, waiting, k), ()),
    ensures
        ({
            let left = texts_view(old(c).leaving@).contains(key);
            let waits = texts_view(waiting@).contains(key);
            &&& left && !waits ==> !final(k)@.dom().contains(key) && !texts_view(
                final(c).leaving@,
            ).contains(key)
            &&& left && waits ==> texts_view(final(c).leaving@).contains(key)
            &&& !left || waits ==> (final(k)@.dom().contains(key) <==> old(k)@.dom().contains(key))
            &&& (!left || waits) && old(k)@.dom().contains(key) ==> final(k)@[key] == old(k)@[key]
            &&& left && !waits && old(k)@.dom().contains(key) ==> final(k).unsaved()
        }),
        old(k).unsaved() ==> final(k).unsaved(),
        !old(k).unsaved() && final(k).unsaved() ==> exists|gone: Seq<char>|
            {
                &&& #[trigger] old(k)@.dom().contains(gone)
                &&& !final(k)@.dom().contains(gone)
            },
{
    let leaving = texts_view(old(c).leaving@);
    let wait = texts_view(waiting@);
    assert(leaving.to_set().contains(key) <==> leaving.contains(key));
    assert(wait.to_set().contains(key) <==> wait.contains(key));
    if drops_any(old(k)@, leaving, wait.to_set()) {
        let gone = choose|gone: Seq<char>| #[trigger]
            old(k)@.dom().contains(gone) && leaving.contains(gone) && !wait.to_set().contains(gone);
        assert(leaving.to_set().contains(gone));
        assert(old(k)@.dom().contains(gone) && !final(k)@.dom().contains(gone));
    }
    if leaving.contains(key) && !wait.contains(key) && old(k)@.dom().contains(key) {
        assert(drops_any(old(k)@, leaving, wait.to_set()));
    }
}

} // verus!
