//! Finding the files to collect from.

use vstd::prelude::*;
use vstd::string::*;

use crate::event::field_views;
use crate::map::StrMap;
use crate::parser::cri::ContainerFormat;
use crate::source::checkpoint::{has_path, holds_path, renewed, restarted, Checkpointer};
use crate::source::checkpoint::RecordView;
use crate::source::k8s::{any_matches, compile_glob, glob_error, glob_texts, matches_any};
use crate::source::k8s::{parse_pod_path, pod_of_path, pod_view, PodMeta, PodSelector, PodView};
use crate::source::k8s::SelectorView;
use crate::source::path::{components, name_before, parts_before, PathView, UnixPath};
use crate::source::tail::duplicate_fields;
use crate::text::{decimal, lemma_precedes_irreflexive, lemma_precedes_total};
use crate::text::{lemma_precedes_transitive, precedes, push_decimal, same, texts_view};
use crate::value::{Value, ValueView};

verus! {

/// Whether a path is that of a file that holds no log text: one that was
/// compressed, or is just being compressed.
pub open spec fn skipped(path: Seq<char>) -> bool {
    match components(path).extension() {
        Some(ext) => ext == "gz"@ || ext == "zst"@ || ext == "xz"@ || ext == "bz2"@ || ext
            == "zip"@ || ext == "tmp"@,
        None => false,
    }
}

/// Whether a file is to be passed over by its name.
pub fn should_skip(path: &str) -> (r: bool)
    ensures
        r == skipped(path@),
{
    let path = UnixPath::new(path);
    match path.extension() {
        Some(ext) => same(ext, "gz") || same(ext, "zst") || same(ext, "xz") || same(ext, "bz2")
            || same(ext, "zip") || same(ext, "tmp"),
        None => false,
    }
}

/// The texts that are patterns.
pub open spec fn usable(texts: Seq<Seq<char>>) -> Seq<Seq<char>>
    decreases texts.len(),
{
    if texts.len() == 0 {
        Seq::empty()
    } else {
        let rest = usable(texts.drop_last());
        if glob_error(texts.last()) is None {
            rest.push(texts.last())
        } else {
            rest
        }
    }
}

/// Compiles the patterns of files to leave out; what is no pattern is passed
/// over.
pub fn exclude_patterns(texts: &Vec<String>) -> (r: Vec<glob::Pattern>)
    ensures
        glob_texts(r@) == usable(texts_view(texts@)),
{
    let ghost all = texts_view(texts@);
    let mut out: Vec<glob::Pattern> = Vec::new();
    proof {
        assert(glob_texts(out@) =~= usable(all.take(0)));
    }
    for i in 0..texts.len()
        invariant
            all == texts_view(texts@),
            glob_texts(out@) == usable(all.take(i as int)),
    {
        let ghost before = out@;
        proof {
            assert(all.take(i + 1).drop_last() =~= all.take(i as int));
        }
        if let Ok(pattern) = compile_glob(texts[i].as_str()) {
            out.push(pattern);
            proof {
                assert(glob_texts(out@) =~= glob_texts(before).push(all[i as int]));
            }
        }
    }
    proof {
        assert(all.take(texts@.len() as int) =~= all);
    }
    out
}

/// Whether a path that was found is one to look at: not left out, and not of a
/// kind that is passed over.
pub fn wanted(path: &str, excludes: &Vec<glob::Pattern>) -> (r: bool)
    ensures
        r == (!any_matches(glob_texts(excludes@), path@) && !skipped(path@)),
{
    !matches_any(excludes, path) && !should_skip(path)
}

/// A file that was found.
pub struct Found {
    pub path: String,
    /// The file's fingerprint.
    pub key: String,
    pub len: u64,
    /// When it was last written to, in nanoseconds, where the system tells.
    pub modified: Option<i128>,
}

/// Whether a time comes before another; one that is not known comes first.
pub open spec fn time_before(a: Option<i128>, b: Option<i128>) -> bool {
    match (a, b) {
        (None, Some(_)) => true,
        (Some(a), Some(b)) => a < b,
        _ => false,
    }
}

impl Found {
    /// Whether this file is to be read before another: the one that was written
    /// to first, and of two of the same time the one whose path comes first.
    pub open spec fn before(&self, other: &Found) -> bool {
        time_before(self.modified, other.modified) || (self.modified == other.modified
            && components(self.path@).before(components(other.path@)))
    }

    fn is_before(&self, other: &Found) -> (r: bool)
        ensures
            r == self.before(other),
    {
        let (earlier, same_time) = match (self.modified, other.modified) {
            (None, Some(_)) => (true, false),
            (Some(a), Some(b)) => (a < b, a == b),
            (None, None) => (false, true),
            (Some(_), None) => (false, false),
        };
        earlier || (same_time && UnixPath::new(self.path.as_str()).is_before(
            &UnixPath::new(other.path.as_str()),
        ))
    }
}

/// Whether no file comes before one that stands in front of it.
pub open spec fn in_order(list: Seq<Found>) -> bool {
    forall|i: int, j: int|
        #![trigger list[i], list[j]]
        0 <= i < j < list.len() ==> !list[j].before(&list[i])
}

/// Puts files in the order in which they are to be read, so that what was
/// written first is read first.
pub fn sort_found(found: Vec<Found>) -> (r: Vec<Found>)
    ensures
        r@.to_multiset() == found@.to_multiset(),
        in_order(r@),
{
    let mut rest = found;
    let mut out: Vec<Found> = Vec::new();
    proof {
        vstd::seq_lib::lemma_multiset_commutative(rest@, out@);
        assert(rest@ + out@ =~= rest@);
    }
    while rest.len() > 0
        invariant
            (rest@ + out@).to_multiset() == found@.to_multiset(),
            in_order(out@),
        decreases rest@.len(),
    {
        let ghost rest0 = rest@;
        let ghost out0 = out@;
        let next = rest.pop().unwrap();
        // Behind everything that comes before it.
        let mut at: usize = 0;
        while at < out.len() && out[at].is_before(&next)
            invariant
                at <= out@.len(),
                out@ == out0,
                forall|k: int| 0 <= k < at ==> (#[trigger] out@[k]).before(&next),
            decreases out@.len() - at,
        {
            at += 1;
        }
        proof {
            assert(rest0 + out0 =~= rest@ + (seq![next] + out0));
            vstd::seq_lib::lemma_multiset_commutative(rest@, seq![next] + out0);
            vstd::seq_lib::lemma_multiset_commutative(rest@, out0.insert(at as int, next));
            assert(seq![next] + out0 =~= out0.insert(0, next));
            lemma_insert_multiset(out0, 0, next);
            lemma_insert_multiset(out0, at as int, next);
            lemma_insert_sorted(out0, at as int, next);
        }
        out.insert(at, next);
    }
    proof {
        assert(rest@ + out@ =~= out@);
    }
    out
}

proof fn lemma_insert_multiset(s: Seq<Found>, at: int, x: Found)
    requires
        0 <= at <= s.len(),
    ensures
        s.insert(at, x).to_multiset() == s.to_multiset().insert(x),
{
    s.to_multiset_ensures();
    s.insert(at, x).to_multiset_ensures();
    assert(s.insert(at, x) =~= s.take(at) + (seq![x] + s.skip(at)));
    assert(s =~= s.take(at) + s.skip(at));
    vstd::seq_lib::lemma_multiset_commutative(s.take(at), seq![x] + s.skip(at));
    vstd::seq_lib::lemma_multiset_commutative(seq![x], s.skip(at));
    vstd::seq_lib::lemma_multiset_commutative(s.take(at), s.skip(at));
    assert(seq![x] =~= Seq::<Found>::empty().push(x));
    Seq::<Found>::empty().to_multiset_ensures();
    assert(Seq::<Found>::empty().to_multiset() =~= vstd::multiset::Multiset::empty());
    assert(s.insert(at, x).to_multiset() =~= s.to_multiset().insert(x));
}

proof fn lemma_insert_sorted(s: Seq<Found>, at: int, x: Found)
    requires
        0 <= at <= s.len(),
        in_order(s),
        forall|k: int| 0 <= k < at ==> (#[trigger] s[k]).before(&x),
        at < s.len() ==> !s[at].before(&x),
    ensures
        in_order(s.insert(at, x)),
{
    let r = s.insert(at, x);
    assert forall|i: int, j: int|
        #![trigger r[i], r[j]]
        0 <= i < j < r.len() implies !r[j].before(&r[i]) by {
        let a = if i < at { i } else { i - 1 };
        let b = if j < at { j } else { j - 1 };
        if i != at && j != at {
            assert(r[i] == s[a]);
            assert(r[j] == s[b]);
            assert(!s[b].before(&s[a]));
        } else if j == at {
            lemma_before_asymmetric(s[i], x);
        } else {
            // `x` stands in front of what does not come before it.
            if b > at && s[b].before(&x) {
                lemma_before_through(s[b], x, s[at]);
                assert(!s[b].before(&s[at]));
            }
        }
    }
}

/// Of two files at most one comes before the other.
proof fn lemma_before_asymmetric(a: Found, b: Found)
    requires
        a.before(&b),
    ensures
        !b.before(&a),
{
    if b.before(&a) {
        lemma_path_asymmetric(components(a.path@), components(b.path@));
    }
}

/// What comes before `x` comes before all that do not.
proof fn lemma_before_through(a: Found, x: Found, c: Found)
    requires
        a.before(&x),
        !c.before(&x),
    ensures
        a.before(&c),
{
    if a.modified == x.modified && c.modified == x.modified {
        lemma_path_through(components(a.path@), components(x.path@), components(c.path@));
    }
}

proof fn lemma_path_asymmetric(a: PathView, b: PathView)
    requires
        a.before(b),
    ensures
        !b.before(a),
{
    if a.root == b.root {
        lemma_parts_asymmetric(a.parts, b.parts);
    }
}

proof fn lemma_parts_asymmetric(a: Seq<Seq<char>>, b: Seq<Seq<char>>)
    requires
        parts_before(a, b),
    ensures
        !parts_before(b, a),
    decreases a.len(),
{
    if a.len() > 0 && b.len() > 0 {
        if a[0] == b[0] {
            lemma_parts_asymmetric(a.drop_first(), b.drop_first());
        } else if precedes(a[0], b[0]) && precedes(b[0], a[0]) {
            lemma_precedes_transitive(a[0], b[0], a[0]);
            lemma_precedes_irreflexive(a[0]);
        }
    }
}

proof fn lemma_path_through(a: PathView, x: PathView, c: PathView)
    requires
        a.before(x),
        !c.before(x),
    ensures
        a.before(c),
{
    if a.root == x.root && c.root == x.root {
        lemma_parts_through(a.parts, x.parts, c.parts);
    }
}

proof fn lemma_parts_through(a: Seq<Seq<char>>, x: Seq<Seq<char>>, c: Seq<Seq<char>>)
    requires
        parts_before(a, x),
        !parts_before(c, x),
    ensures
        parts_before(a, c),
    decreases a.len(),
{
    if a.len() > 0 && c.len() > 0 && x.len() > 0 {
        if a[0] == x[0] && c[0] == x[0] {
            lemma_parts_through(a.drop_first(), x.drop_first(), c.drop_first());
        } else {
            lemma_name_through(a[0], x[0], c[0]);
        }
    }
}

proof fn lemma_name_through(a: Seq<char>, x: Seq<char>, c: Seq<char>)
    ensures
        name_before(a, x) && c == x ==> name_before(a, c)
            && a != c,
        name_before(a, x) && name_before(x, c) ==> name_before(a, c) && a != c,
        a != x && !name_before(a, x) ==> name_before(x, a),
        a != c && !name_before(a, c) ==> name_before(c, a),
        c != x && !name_before(c, x) ==> name_before(x, c),
        name_before(a, x) ==> a != x,
        name_before(c, x) ==> !name_before(x, c),
{
    if a != x {
        lemma_precedes_total(a, x);
    }
    if x != c {
        lemma_precedes_total(x, c);
    }
    if a != c {
        lemma_precedes_total(a, c);
    }
    lemma_precedes_irreflexive(a);
    lemma_precedes_irreflexive(x);
    lemma_precedes_irreflexive(c);
    if precedes(a, x) && precedes(x, c) {
        lemma_precedes_transitive(a, x, c);
    }
    if precedes(c, x) && precedes(x, c) {
        lemma_precedes_transitive(c, x, c);
    }
}

/// Where to start reading a file that has not been watched.
///
/// A stored offset is gone on from, unless the file is shorter than that: then it
/// is another file. Without one a file is read from its start, unless it was
/// there already when collecting started for the first time, and only what is
/// new is asked for.
pub open spec fn start_at(
    stored: Option<u64>,
    len: u64,
    read_from_beginning: bool,
    first_pass: bool,
    known_directory: bool,
) -> u64 {
    match stored {
        Some(offset) => if offset <= len {
            offset
        } else {
            0
        },
        None => if read_from_beginning || !first_pass || known_directory {
            0
        } else {
            len
        },
    }
}

/// Whether a stored offset lies behind the end of its file.
pub open spec fn is_void(records: Map<Seq<char>, RecordView>, found: &Found) -> bool {
    records.dom().contains(found.key@) && records[found.key@].offset > found.len
}

/// Settles where to start reading a file that has not been watched. A stored
/// offset that lies behind the end of the file is void.
pub fn start_offset(
    found: &Found,
    read_from_beginning: bool,
    first_pass: bool,
    known: &Vec<UnixPath>,
    checkpointer: &mut Checkpointer,
) -> (r: u64)
    ensures
        r == start_at(
            if old(checkpointer)@.dom().contains(found.key@) {
                Some(old(checkpointer)@[found.key@].offset)
            } else {
                None
            },
            found.len,
            read_from_beginning,
            first_pass,
            components(found.path@).parent() matches Some(dir) && holds_path(known@, dir),
        ),
        if is_void(old(checkpointer)@, found) {
            &&& final(checkpointer)@ == restarted(old(checkpointer)@, found.key@)
            &&& final(checkpointer).unsaved()
            &&& final(checkpointer).editions() == renewed(
                old(checkpointer).editions(),
                found.key@,
            )
        } else {
            *final(checkpointer) == *old(checkpointer)
        },
{
    match checkpointer.get(found.key.as_str()) {
        Some(offset) => {
            if offset <= found.len {
                offset
            } else {
                checkpointer.reset(found.key.as_str());
                0
            }
        },
        None => {
            let known_directory = match UnixPath::new(found.path.as_str()).parent() {
                Some(dir) => has_path(known, &dir),
                None => false,
            };
            if read_from_beginning || !first_pass || known_directory {
                0
            } else {
                found.len
            }
        },
    }
}

/// What the events of a file carry, and whose log it is.
pub struct Tags {
    pub pod: Option<PodMeta>,
    pub shared: StrMap<Value>,
}

/// What is known of a file.
pub struct TagsView {
    pub pod: Option<PodView>,
    pub shared: Map<Seq<char>, ValueView>,
}

/// The fields with a container's names.
pub open spec fn with_names(fields: Map<Seq<char>, ValueView>, meta: PodView) -> Map<
    Seq<char>,
    ValueView,
> {
    fields.insert("namespace"@, ValueView::Text(meta.namespace)).insert(
        "pod"@,
        ValueView::Text(meta.pod),
    ).insert("container"@, ValueView::Text(meta.container))
}

/// What is known of a file, or nothing where it is not to be collected from.
///
/// Names are looked for only where there is a container's shell. Where a choice
/// is asked for, a file without names cannot be chosen.
pub open spec fn tagged_as(
    format: ContainerFormat,
    selector: Option<SelectorView>,
    fields: Map<Seq<char>, ValueView>,
    path: Seq<char>,
) -> Option<TagsView> {
    if format != ContainerFormat::Cri {
        Some(TagsView { pod: None, shared: fields })
    } else {
        match (pod_of_path(path), selector) {
            (Some(meta), Some(selector)) => if selector.picks(meta) {
                Some(TagsView { pod: Some(meta), shared: with_names(fields, meta) })
            } else {
                None
            },
            (Some(meta), None) => Some(
                TagsView { pod: Some(meta), shared: with_names(fields, meta) },
            ),
            (None, Some(_)) => None,
            (None, None) => Some(TagsView { pod: None, shared: fields }),
        }
    }
}

/// What a selector that may be missing takes.
pub open spec fn selector_view(selector: Option<PodSelector>) -> Option<SelectorView> {
    match selector {
        Some(selector) => Some(selector@),
        None => None,
    }
}

/// Settles whether a file is to be collected from, and what its events carry.
pub fn tag(
    format: ContainerFormat,
    selector: &Option<PodSelector>,
    fields: &StrMap<Value>,
    path: &str,
) -> (r: Option<Tags>)
    requires
        fields.wf(),
    ensures
        match (r, tagged_as(format, selector_view(*selector), field_views(fields@), path@)) {
            (Some(got), Some(want)) => {
                &&& got.shared.wf()
                &&& pod_view(got.pod) == want.pod
                &&& field_views(got.shared@) == want.shared
            },
            (None, None) => true,
            _ => false,
        },
{
    let mut shared = duplicate_fields(fields);
    match format {
        ContainerFormat::Raw => {
            return Some(Tags { pod: None, shared });
        },
        ContainerFormat::Cri => {},
    }
    match parse_pod_path(path) {
        Some(meta) => {
            if let Some(selector) = selector {
                if !selector.matches(&meta) {
                    return None;
                }
            }
            put_text(&mut shared, "namespace", meta.namespace.as_str());
            put_text(&mut shared, "pod", meta.pod.as_str());
            put_text(&mut shared, "container", meta.container.as_str());
            Some(Tags { pod: Some(meta), shared })
        },
        None => {
            if selector.is_some() {
                return None;
            }
            Some(Tags { pod: None, shared })
        },
    }
}

fn put_text(fields: &mut StrMap<Value>, key: &str, text: &str)
    requires
        old(fields).wf(),
    ensures
        final(fields).wf(),
        field_views(final(fields)@) == field_views(old(fields)@).insert(
            key@,
            ValueView::Text(text@),
        ),
{
    let ghost before = fields@;
    let value = Value::text(text);
    fields.insert(key.to_owned(), value);
    proof {
        assert(field_views(before.insert(key@, value)) =~= field_views(before).insert(
            key@,
            value@,
        ));
    }
}

/// What a look at a watched file's path came to.
pub enum Presence {
    /// There is a file with this fingerprint.
    File(String),
    /// There is none.
    Gone,
    /// That could not be found out.
    Unknown,
}

/// Whether a watched file is still where it was. Another file in its place means
/// that it is gone; not knowing does not.
pub fn still_present(presence: &Presence, key: &str) -> (r: bool)
    ensures
        r == (match *presence {
            Presence::File(found) => found@ == key@,
            Presence::Gone => false,
            Presence::Unknown => true,
        }),
{
    match presence {
        Presence::File(found) => same(found.as_str(), key),
        Presence::Gone => false,
        Presence::Unknown => true,
    }
}

/// The fingerprint of a file with this inode on this device.
pub open spec fn fingerprint_text(device: nat, inode: nat) -> Seq<char> {
    decimal(device) + "-"@ + decimal(inode)
}

/// The fingerprint of a file: it stays when the file is renamed, and is another
/// when the file is made anew.
pub fn fingerprint(device: u64, inode: u64) -> (r: String)
    ensures
        r@ == fingerprint_text(device as nat, inode as nat),
{
    let mut out = String::new();
    push_decimal(&mut out, device);
    out.append("-");
    push_decimal(&mut out, inode);
    proof {
        assert(Seq::<char>::empty() + decimal(device as nat)
            =~= decimal(device as nat));
    }
    out
}

} // verus!
