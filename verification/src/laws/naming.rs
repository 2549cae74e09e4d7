//! Paths, and the names that files, pods and hosts go by.

use vstd::prelude::*;

use crate::error::Error;
use crate::laws::choosing::{lemma_names, plain_name};
use crate::laws::finding::inside;
use crate::parser::api::Parser;
use crate::source::checkpoint::Checkpointer;
use crate::source::collection::{pod_name, Collection, Lookup};
use crate::source::k8s::{host_or_unknown, json_text_at, label_of_reply, pod_view, PodMeta};
use crate::source::path::{components, name_before, names, parts_before, UnixPath};
use crate::source::tail::Watcher;
use crate::text::{lemma_last_scan_unique, lemma_scan, lemma_splits, opt_string_view, opt_view};
use crate::text::{scan, splits, Stop};
use crate::value::ValueView;

verus! {

proof fn lemma_one_piece(piece: Seq<char>)
    requires
        !piece.contains('/'),
    ensures
        splits(piece, '/') == seq![piece],
{
    lemma_scan(piece, Stop::Char('/'));
    let k = scan(piece, Stop::Char('/'));
    if k < piece.len() {
        assert(piece.contains(piece[k]));
    }
}

proof fn lemma_more(dir: Seq<char>, piece: Seq<char>)
    requires
        dir.len() > 0,
        !piece.contains('/'),
    ensures
        components(inside(dir, piece)).root == components(dir).root,
        components(inside(dir, piece)).parts == if piece.len() == 0 || piece == seq!['.'] {
            components(dir).parts
        } else {
            components(dir).parts.push(piece)
        },
{
    let path = inside(dir, piece);
    assert(path[0] == dir[0]);
    lemma_splits(dir, piece, '/');
    lemma_one_piece(piece);
    let root = dir[0] == '/';
    lemma_parts_of(dir);
    lemma_names(splits(dir, '/'), splits(piece, '/'), !root);
    reveal_with_fuel(names, 2);
    assert(splits(piece, '/').drop_first() =~= Seq::<Seq<char>>::empty());
    let more = names(splits(piece, '/'), false);
    if piece.len() == 0 || piece == seq!['.'] {
        assert(more =~= Seq::<Seq<char>>::empty());
        assert(components(dir).parts + more =~= components(dir).parts);
    } else {
        assert(more =~= seq![piece]);
        assert(components(dir).parts + more =~= components(dir).parts.push(piece));
    }
}

proof fn lemma_parts_of(s: Seq<char>)
    ensures
        splits(s, '/').len() > 0,
{
}

/// Slashes in a row and a dot on its own do not count in a path, but for a dot at its start.
pub proof fn law_dots_on_their_own_do_not_count(
    dir: Seq<char>,
    name: Seq<char>,
    plain: &str,
    dotted: &str,
    slashed: &str,
    a: UnixPath,
    b: UnixPath,
    c: UnixPath,
    same: bool,
    also: bool,
)
    requires
        dir.len() > 0,
        plain_name(name),
        plain@ == inside(dir, name),
        dotted@ == inside(inside(dir, seq!['.']), name),
        slashed@ == inside(inside(dir, Seq::empty()), name),
        call_ensures(UnixPath::new, (plain,), a),
        call_ensures(UnixPath::new, (dotted,), b),
        call_ensures(UnixPath::new, (slashed,), c),
        call_ensures(UnixPath::is_same, (&a, &b), same),
        call_ensures(UnixPath::is_same, (&a, &c), also),
    ensures
        same && also,
        a@.parts.len() > 0 && a@.parts.last() == name,
        a@.root <==> dir[0] == '/',
{
    lemma_more(dir, name);
    assert(!seq!['.'].contains('/'));
    assert(!Seq::<char>::empty().contains('/'));
    lemma_more(dir, seq!['.']);
    lemma_more(inside(dir, seq!['.']), name);
    lemma_more(dir, Seq::empty());
    lemma_more(inside(dir, Seq::empty()), name);
    assert(a@ == b@);
    assert(a@ == c@);
}

/// A dot at the start of a path is a part of it.
pub proof fn law_a_dot_at_the_start_counts(name: Seq<char>, path: &str, a: UnixPath)
    requires
        plain_name(name),
        path@ == inside(seq!['.'], name),
        call_ensures(UnixPath::new, (path,), a),
    ensures
        !a@.root,
        a@.parts == seq![seq!['.'], name],
{
    let dir = seq!['.'];
    assert(!dir.contains('/'));
    lemma_more(dir, name);
    lemma_one_piece(dir);
    reveal_with_fuel(names, 2);
    assert(splits(dir, '/').drop_first() =~= Seq::<Seq<char>>::empty());
    assert(components(dir).parts =~= seq![dir]);
    assert(a@.parts =~= seq![dir, name]);
}

/// A path that ends in a name lies in the directory before it and is called by the name; one
/// that ends in two dots has no name. The root lies nowhere.
pub proof fn law_paths_have_parents_and_names(
    dir: Seq<char>,
    name: Seq<char>,
    at: &str,
    path: UnixPath,
    above: Option<UnixPath>,
    called: Option<&str>,
    up: &str,
    upper: UnixPath,
    uncalled: Option<&str>,
    top: &str,
    root: UnixPath,
    nowhere: Option<UnixPath>,
)
    requires
        dir.len() > 0,
        plain_name(name),
        at@ == inside(dir, name),
        call_ensures(UnixPath::new, (at,), path),
        call_ensures(UnixPath::parent, (path,), above),
        call_ensures(UnixPath::file_name, (&path,), called),
        up@ == inside(dir, seq!['.', '.']),
        call_ensures(UnixPath::new, (up,), upper),
        call_ensures(UnixPath::file_name, (&upper,), uncalled),
        top@ == seq!['/'],
        call_ensures(UnixPath::new, (top,), root),
        call_ensures(UnixPath::parent, (root,), nowhere),
    ensures
        above is Some && above->0@ == components(dir),
        called is Some && called->0@ == name,
        uncalled is None,
        nowhere is None,
{
    lemma_more(dir, name);
    let dots = seq!['.', '.'];
    assert(!dots.contains('/'));
    lemma_more(dir, dots);
    assert(dots != seq!['.']) by {
        assert(dots.len() != seq!['.'].len());
    }
    assert(path@.parts.drop_last() =~= components(dir).parts);
    assert(opt_view(called) == Some(name));
    assert(upper@.parts.last() == dots);
    let empty = Seq::<char>::empty();
    assert(!empty.contains('/'));
    assert(seq!['/'] =~= empty.push('/') + empty);
    lemma_splits(empty, empty, '/');
    lemma_one_piece(empty);
    reveal_with_fuel(names, 3);
    let pieces = splits(seq!['/'], '/');
    assert(pieces =~= seq![empty, empty]);
    assert(pieces.drop_first() =~= seq![empty]);
    assert(pieces.drop_first().drop_first() =~= Seq::<Seq<char>>::empty());
    assert(root@.parts =~= Seq::<Seq<char>>::empty());
}

/// What stands behind the last dot of a name is its ending, unless nothing stands before it.
pub proof fn law_hidden_files_have_no_ending(
    dir: Seq<char>,
    stem: Seq<char>,
    ext: Seq<char>,
    at: &str,
    path: UnixPath,
    r: Option<&str>,
)
    requires
        dir.len() > 0,
        plain_name(stem.push('.') + ext),
        forall|i: int| 0 <= i < ext.len() ==> #[trigger] ext[i] != '.',
        at@ == inside(dir, stem.push('.') + ext),
        call_ensures(UnixPath::new, (at,), path),
        call_ensures(UnixPath::extension, (&path,), r),
    ensures
        stem.len() == 0 ==> r is None,
        stem.len() > 0 ==> r is Some && r->0@ == ext,
{
    let name = stem.push('.') + ext;
    lemma_more(dir, name);
    assert forall|i: int| stem.len() < i < name.len() implies !Stop::Char('.').hit(
        #[trigger] name[i],
    ) by {
        assert(name[i] == ext[i - stem.len() - 1]);
    }
    assert(name[stem.len() as int] == '.');
    lemma_last_scan_unique(name, Stop::Char('.'), stem.len() as int);
    assert(name.take(stem.len() as int) =~= stem);
    assert(name.skip(stem.len() as int + 1) =~= ext);
    assert(path@.parts.last() == name);
}

/// A directory comes before what lies in it, and two dots come before any name.
pub proof fn law_directories_come_first(
    dir: &str,
    name: Seq<char>,
    at: &str,
    up: &str,
    d: UnixPath,
    a: UnixPath,
    b: UnixPath,
    first: bool,
    second: bool,
    third: bool,
    fourth: bool,
)
    requires
        dir@.len() > 0,
        plain_name(name),
        at@ == inside(dir@, name),
        up@ == inside(dir@, seq!['.', '.']),
        call_ensures(UnixPath::new, (dir,), d),
        call_ensures(UnixPath::new, (at,), a),
        call_ensures(UnixPath::new, (up,), b),
        call_ensures(UnixPath::is_before, (&d, &a), first),
        call_ensures(UnixPath::is_before, (&a, &d), second),
        call_ensures(UnixPath::is_before, (&b, &a), third),
        call_ensures(UnixPath::is_before, (&a, &b), fourth),
    ensures
        first && !second && third && !fourth,
{
    let dots = seq!['.', '.'];
    assert(!dots.contains('/'));
    assert(dots != seq!['.']) by {
        assert(dots.len() != seq!['.'].len());
    }
    lemma_more(dir@, name);
    lemma_more(dir@, dots);
    lemma_front(d@.parts, name);
    lemma_fronts(d@.parts, dots, name);
    lemma_fronts(d@.parts, name, dots);
}

proof fn lemma_front(parts: Seq<Seq<char>>, x: Seq<char>)
    ensures
        parts_before(parts, parts.push(x)),
        !parts_before(parts.push(x), parts),
    decreases parts.len(),
{
    let p = parts.push(x);
    if parts.len() > 0 {
        lemma_front(parts.drop_first(), x);
        assert(p.drop_first() =~= parts.drop_first().push(x));
        assert(p[0] == parts[0]);
    }
}

proof fn lemma_fronts(parts: Seq<Seq<char>>, x: Seq<char>, y: Seq<char>)
    requires
        x != y,
    ensures
        parts_before(parts.push(x), parts.push(y)) == name_before(x, y),
    decreases parts.len(),
{
    let p = parts.push(x);
    let q = parts.push(y);
    if parts.len() == 0 {
        assert(p[0] == x && q[0] == y);
    } else {
        lemma_fronts(parts.drop_first(), x, y);
        assert(p.drop_first() =~= parts.drop_first().push(x));
        assert(q.drop_first() =~= parts.drop_first().push(y));
        assert(p[0] == q[0]);
    }
}

/// A host that does not tell its name is called unknown.
pub proof fn law_hosts_have_a_name(found: Option<String>, r: String)
    requires
        call_ensures(host_or_unknown, (found,), r),
    ensures
        found is Some ==> r@ == found->0@,
        found is None ==> r@ == seq!['u', 'n', 'k', 'n', 'o', 'w', 'n'],
{
    reveal_strlit("unknown");
    assert("unknown"@ =~= seq!['u', 'n', 'k', 'n', 'o', 'w', 'n']);
}

/// A stored path is the newest one, but it stays as it was written where it is the same path
/// in another writing; and offsets have to be stored again if and only if one has grown.
pub proof fn law_stored_paths_follow_the_file(
    c: &mut Checkpointer,
    key: &str,
    path: &str,
    offset: u64,
)
    requires
        call_ensures(Checkpointer::advance, (c, key, path, offset), ()),
    ensures
        ({
            let had = old(c)@.dom().contains(key@);
            let grows = offset > if had {
                old(c)@[key@].offset
            } else {
                0
            };
            &&& had && grows && components(old(c)@[key@].path) != components(path@)
                ==> final(c)@[key@].path == path@
            &&& had && grows && components(old(c)@[key@].path) == components(path@)
                ==> final(c)@[key@].path == old(c)@[key@].path
            &&& had && !grows ==> final(c)@ == old(c)@
            &&& grows ==> final(c)@[key@].offset == offset
            &&& final(c).unsaved() <==> old(c).unsaved() || grows
        }),
{
}

/// Each look for a label is counted, and a failure is not the first one of a pod any more when
/// all of its files have been asked for before.
pub proof fn law_looks_are_counted<P: Parser>(
    c: &mut Collection<P>,
    r: Vec<Lookup>,
    key: Seq<char>,
    meta: &PodMeta,
    after: &Collection<P>,
    first: bool,
)
    requires
        old(c).wf(),
        call_ensures(Collection::<P>::plan_lookups, (c,), r),
        old(c).watchers@.dom().contains(key),
        pod_view(old(c).watchers@[key].pod) == Some(meta@),
        old(c).unresolved@.dom().contains(key),
        !old(c).labels@.dom().contains(meta@.namespace + seq!['/'] + meta@.pod),
        *after == *final(c),
        call_ensures(Collection::<P>::is_first_failure, (after, meta), first),
    ensures
        old(c).unresolved@[key] < u32::MAX ==> final(c).unresolved@[key] == old(c).unresolved@[key]
            + 1,
        (forall|other: Seq<char>| #[trigger]
            old(c).unresolved@.dom().contains(other) ==> old(c).unresolved@[other] > 0) ==> !first,
{
    reveal_strlit("/");
    assert("/"@ =~= seq!['/']);
    let name = meta@.namespace + seq!['/'] + meta@.pod;
    assert(pod_name(meta@) =~= name);
    assert(Collection::<P>::planned(
        old(c),
        key,
        &final(c).watchers@[key],
        final(c).unresolved@,
    ));
    if (forall|other: Seq<char>| #[trigger]
        old(c).unresolved@.dom().contains(other) ==> old(c).unresolved@[other] > 0) && first {
        let other = choose|other: Seq<char>| #[trigger]
            after.watchers@.dom().contains(other) && after.fails_first(other, meta@);
        assert(old(c).watchers@.dom().contains(other));
        assert(Collection::<P>::planned(
            old(c),
            other,
            &final(c).watchers@[other],
            final(c).unresolved@,
        ));
        assert(old(c).unresolved@.dom().contains(other));
    }
}

/// A label becomes a field of all events of a file, and a file that is found somewhere else
/// has its events carry the new path; what was read of it stays.
pub proof fn law_files_are_renamed<P: Parser>(
    a: &mut Watcher<P>,
    name: Option<&str>,
    b: &mut Watcher<P>,
    path: &str,
    key: Seq<char>,
)
    requires
        old(a).wf(),
        call_ensures(Watcher::<P>::set_service_name, (a, name), ()),
        old(b).wf(),
        call_ensures(Watcher::<P>::found_at, (b, path), ()),
    ensures
        name is None ==> final(a).origin() == old(a).origin(),
        name is Some ==> {
            &&& final(a).origin().shared is Some
            &&& final(a).origin().shared->0.dom().contains("service_name"@)
            &&& final(a).origin().shared->0["service_name"@] == ValueView::Text(name->0@)
        },
        name is Some && old(a).origin().shared is Some && key != "service_name"@ ==> {
            let had = old(a).origin().shared->0;
            let has = final(a).origin().shared->0;
            &&& has.dom().contains(key) <==> had.dom().contains(key)
            &&& had.dom().contains(key) ==> has[key] == had[key]
        },
        final(a).origin().file == old(a).origin().file,
        final(a).origin().host == old(a).origin().host,
        final(a).tail() == old(a).tail() && final(a).path@ == old(a).path@,
        final(b).path@ == path@ && final(b).seen,
        old(b).path@ != path@ ==> final(b).origin().file == path@,
        old(b).path@ == path@ ==> final(b).origin().file == old(b).origin().file,
        final(b).origin().host == old(b).origin().host,
        final(b).origin().shared == old(b).origin().shared,
        final(b).tail() == old(b).tail() && final(b).key == old(b).key,
{
}

/// The label of a pod is the one of that name among the labels in what is said of the pod.
pub proof fn law_labels_are_looked_up_by_name(
    url: &str,
    status: u16,
    status_text: &str,
    body: &str,
    label: &str,
    r: Result<Option<String>, Error>,
)
    requires
        200 <= status <= 299,
        call_ensures(label_of_reply, (url, status, status_text, body, label), r),
    ensures
        match json_text_at(body@, "/metadata/labels"@, label@) {
            Ok(Some(name)) => r is Ok && r->Ok_0 is Some && r->Ok_0->0@ == name,
            Ok(None) => r is Ok && r->Ok_0 is None,
            Err(_) => r is Err && r->Err_0@ is Source,
        },
{
    assert(r is Ok ==> (opt_string_view(r->Ok_0) is Some <==> r->Ok_0 is Some));
}

} // verus!
