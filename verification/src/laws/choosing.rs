//! Which files are read, from where, and what columns their events have.

use vstd::prelude::*;

use crate::config::{field_columns, pod_columns, Config};
use crate::error::Error;
use crate::event::list_views;
use crate::parser::cri::ContainerFormat;
use crate::sink::clickhouse::{expected_names, lists_name, missing_names};
use crate::sink::clickhouse::{ClickhouseSink, HealthStep};
use crate::sink::ddl::{base_columns, columns_view, has_column, with_columns};
use crate::source::discover::{fingerprint_text, start_at, tagged_as};
use crate::source::k8s::{any_matches, glob_matches, pod_of_path, pods_layout, PodView};
use crate::source::k8s::{PodMeta, PodSelector, SelectorView};
use crate::source::path::{components, names, PathView};
use crate::source::schedule::{Schedule, Task};
use crate::text::{decimal, digit_char, lemma_last_scan_unique, lemma_scan_unique, lemma_splits};
use crate::text::{splits, texts_view, Stop};
use crate::value::ValueView;

verus! {

/// A selection without patterns takes everything.
pub proof fn law_an_empty_selection_takes_all(meta: PodView)
    ensures
        SelectorView::empty().picks(meta),
{
}

/// What is excluded is not taken, whatever else is asked for.
pub proof fn law_exclusion_wins(s: SelectorView, meta: PodView)
    ensures
        any_matches(s.exclude_namespaces, meta.namespace) ==> !s.picks(meta),
        any_matches(s.exclude_pods, meta.pod) ==> !s.picks(meta),
        any_matches(s.exclude_containers, meta.container) ==> !s.picks(meta),
{
}

/// Whether one of some patterns matches a name.
pub open spec fn one_matches(patterns: Seq<Seq<char>>, name: Seq<char>) -> bool {
    exists|i: int| 0 <= i < patterns.len() && #[trigger] glob_matches(patterns[i], name)
}

/// Whether a name gets past what is to be taken and what is to be left out.
pub open spec fn gets_past(take: Seq<Seq<char>>, leave: Seq<Seq<char>>, name: Seq<char>) -> bool {
    &&& take.len() > 0 ==> one_matches(take, name)
    &&& !one_matches(leave, name)
}

/// A container is picked if and only if each of its three names is: where patterns to
/// take are given one of them matches the name, and none of those to leave out does.
pub proof fn law_all_three_names_are_picked(selector: &PodSelector, meta: &PodMeta, r: bool)
    requires
        call_ensures(PodSelector::matches, (selector, meta), r),
    ensures
        r <==> {
            &&& gets_past(selector@.namespaces, selector@.exclude_namespaces, meta@.namespace)
            &&& gets_past(selector@.pods, selector@.exclude_pods, meta@.pod)
            &&& gets_past(selector@.containers, selector@.exclude_containers, meta@.container)
        },
{
    let s = selector@;
    lemma_one_matches(s.namespaces, meta@.namespace);
    lemma_one_matches(s.exclude_namespaces, meta@.namespace);
    lemma_one_matches(s.pods, meta@.pod);
    lemma_one_matches(s.exclude_pods, meta@.pod);
    lemma_one_matches(s.containers, meta@.container);
    lemma_one_matches(s.exclude_containers, meta@.container);
}

proof fn lemma_one_matches(patterns: Seq<Seq<char>>, name: Seq<char>)
    ensures
        any_matches(patterns, name) == one_matches(patterns, name),
{
    if any_matches(patterns, name) {
        let i = choose|i: int| 0 <= i < patterns.len() && glob_matches(#[trigger] patterns[i], name);
        assert(glob_matches(patterns[i], name));
    }
    if one_matches(patterns, name) {
        let i = choose|i: int| 0 <= i < patterns.len() && #[trigger] glob_matches(patterns[i], name);
        assert(glob_matches(patterns[i], name));
    }
}

/// Each list of a selection is the one that was given for it, and giving one leaves
/// the others as they were.
pub proof fn law_lists_go_where_they_are_given(
    selector: PodSelector,
    values: Vec<String>,
    r: Result<PodSelector, Error>,
)
    ensures
        call_ensures(PodSelector::namespaces, (selector, values), r) && r is Ok ==> r->Ok_0@
            == (SelectorView { namespaces: texts_view(values@), ..selector@ }),
        call_ensures(PodSelector::exclude_namespaces, (selector, values), r) && r is Ok
            ==> r->Ok_0@ == (SelectorView {
            exclude_namespaces: texts_view(values@),
            ..selector@
        }),
        call_ensures(PodSelector::pods, (selector, values), r) && r is Ok ==> r->Ok_0@ == (
        SelectorView { pods: texts_view(values@), ..selector@ }),
        call_ensures(PodSelector::exclude_pods, (selector, values), r) && r is Ok ==> r->Ok_0@
            == (SelectorView { exclude_pods: texts_view(values@), ..selector@ }),
        call_ensures(PodSelector::containers, (selector, values), r) && r is Ok ==> r->Ok_0@
            == (SelectorView { containers: texts_view(values@), ..selector@ }),
        call_ensures(PodSelector::exclude_containers, (selector, values), r) && r is Ok
            ==> r->Ok_0@ == (SelectorView {
            exclude_containers: texts_view(values@),
            ..selector@
        }),
{
}

/// To exclude more never takes more.
pub proof fn law_excluding_narrows(s: SelectorView, name: Seq<char>, meta: PodView)
    ensures
        s.excluding_pod(name).picks(meta) ==> s.picks(meta),
{
    let more = s.excluding_pod(name);
    if any_matches(s.exclude_pods, meta.pod) && more != s {
        let i = choose|i: int|
            0 <= i < s.exclude_pods.len() && glob_matches(
                #[trigger] s.exclude_pods[i],
                meta.pod,
            );
        assert(more.exclude_pods[i] == s.exclude_pods[i]);
        assert(any_matches(more.exclude_pods, meta.pod));
    }
}

/// A container that is not picked is not collected from.
pub proof fn law_only_picked_containers_are_read(
    selector: SelectorView,
    fields: Map<Seq<char>, ValueView>,
    path: Seq<char>,
)
    ensures
        tagged_as(ContainerFormat::Cri, Some(selector), fields, path) is Some <==> (pod_of_path(
            path,
        ) matches Some(meta) && selector.picks(meta)),
{
}

/// Only files that were there at the first start, in places that are not known,
/// are read from their end. Any file that comes later is read from its start.
pub proof fn law_new_files_are_read_from_the_start(
    len: u64,
    from_beginning: bool,
    first_pass: bool,
    known_directory: bool,
)
    ensures
        !first_pass ==> start_at(None, len, from_beginning, first_pass, known_directory) == 0,
        known_directory ==> start_at(None, len, from_beginning, first_pass, known_directory) == 0,
        from_beginning ==> start_at(None, len, from_beginning, first_pass, known_directory) == 0,
        !from_beginning && first_pass && !known_directory ==> start_at(
            None,
            len,
            from_beginning,
            first_pass,
            known_directory,
        ) == len,
{
}

/// A file with a stored offset is read on from there, unless it is shorter now.
pub proof fn law_known_files_are_read_on(
    offset: u64,
    len: u64,
    from_beginning: bool,
    first_pass: bool,
    known_directory: bool,
)
    ensures
        start_at(Some(offset), len, from_beginning, first_pass, known_directory) == if offset
            <= len {
            offset
        } else {
            0
        },
{
}

/// Only the first look for files counts as the first, however long it runs.
pub proof fn law_the_first_scan_comes_once(
    s: Schedule,
    now: u64,
    stop: bool,
    watched: usize,
    read_any: bool,
)
    requires
        s.last_scan is Some,
    ensures
        s.follows(now, stop, watched, read_any).0.last_scan is Some,
        s.follows(now, stop, watched, read_any).1 != (Task::Scan { first_pass: true }),
{
}

/// Told to stop, collecting comes to its end as soon as the round is over, and not
/// in the middle of one.
pub proof fn law_stopping_waits_for_the_round(
    s: Schedule,
    now: u64,
    stop: bool,
    watched: usize,
    read_any: bool,
)
    ensures
        s.follows(now, stop, watched, read_any).1 is Finish ==> stop && (s.done is Round
            || s.done is Tidied || s.done is Saved),
        stop && s.done is Round ==> s.follows(now, stop, watched, read_any).1 is Finish,
{
}

proof fn lemma_decimal_digits(n: nat)
    ensures
        decimal(n).len() > 0,
        forall|i: int| 0 <= i < decimal(n).len() ==> '0' <= #[trigger] decimal(n)[i] <= '9',
    decreases n,
{
    if n >= 10 {
        lemma_decimal_digits(n / 10);
        let front = decimal(n / 10);
        assert forall|i: int| 0 <= i < decimal(n).len() implies '0' <= #[trigger] decimal(
            n,
        )[i] <= '9' by {
            if i < front.len() {
                assert(decimal(n)[i] == front[i]);
            }
        }
    }
}

proof fn lemma_decimal_unique(a: nat, b: nat)
    requires
        decimal(a) == decimal(b),
    ensures
        a == b,
    decreases a,
{
    lemma_decimal_digits(a / 10);
    lemma_decimal_digits(b / 10);
    assert(decimal(a).last() == digit_char((a % 10) as int));
    assert(decimal(b).last() == digit_char((b % 10) as int));
    if a >= 10 && b >= 10 {
        assert(decimal(a).drop_last() =~= decimal(a / 10));
        assert(decimal(b).drop_last() =~= decimal(b / 10));
        lemma_decimal_unique(a / 10, b / 10);
    }
}

/// Two files have the same fingerprint only if they are the same inode of the same
/// device.
pub proof fn law_fingerprints_tell_files_apart(
    device: nat,
    inode: nat,
    other_device: nat,
    other_inode: nat,
)
    requires
        fingerprint_text(device, inode) == fingerprint_text(other_device, other_inode),
    ensures
        device == other_device,
        inode == other_inode,
{
    reveal_strlit("-");
    let s = fingerprint_text(device, inode);
    let a = decimal(device);
    let b = decimal(other_device);
    lemma_decimal_digits(device);
    lemma_decimal_digits(other_device);
    assert(s[a.len() as int] == '-' && s[b.len() as int] == '-');
    if a.len() < b.len() {
        assert(s[a.len() as int] == b[a.len() as int]);
    } else if b.len() < a.len() {
        assert(s[b.len() as int] == a[b.len() as int]);
    }
    assert(a =~= s.take(a.len() as int));
    assert(b =~= s.take(b.len() as int));
    assert(decimal(inode) =~= s.skip(a.len() as int + 1));
    assert(decimal(other_inode) =~= s.skip(b.len() as int + 1));
    lemma_decimal_unique(device, other_device);
    lemma_decimal_unique(inode, other_inode);
}

pub proof fn lemma_names(p: Seq<Seq<char>>, q: Seq<Seq<char>>, leading: bool)
    requires
        p.len() > 0,
    ensures
        names(p + q, leading) == names(p, leading) + names(q, false),
    decreases p.len(),
{
    let all = p + q;
    assert(all[0] == p[0]);
    if p.len() == 1 {
        assert(all.drop_first() =~= q);
        assert(p.drop_first() =~= Seq::<Seq<char>>::empty());
        assert(names(p.drop_first(), false) =~= Seq::<Seq<char>>::empty());
        assert(names(all, leading) =~= names(p, leading) + names(q, false));
    } else {
        assert(all.drop_first() =~= p.drop_first() + q);
        lemma_names(p.drop_first(), q, false);
        assert(names(all, leading) =~= names(p, leading) + names(q, false));
    }
}

/// A name that can stand in a path.
pub open spec fn plain_name(name: Seq<char>) -> bool {
    &&& name.len() > 0
    &&& !name.contains('/')
    &&& name != seq!['.']
    &&& name != seq!['.', '.']
}

pub proof fn lemma_one_name_more(dir: Seq<char>, name: Seq<char>)
    requires
        dir.len() > 0,
        plain_name(name),
    ensures
        components(dir.push('/') + name) == (PathView {
            root: components(dir).root,
            parts: components(dir).parts.push(name),
        }),
{
    let path = dir.push('/') + name;
    assert(path[0] == dir[0]);
    lemma_splits(dir, name, '/');
    let root = dir[0] == '/';
    lemma_names(splits(dir, '/'), splits(name, '/'), !root);
    assert forall|i: int| 0 <= i < name.len() implies !Stop::Char('/').hit(#[trigger] name[i]) by {
        assert(name.contains(name[i]));
    }
    lemma_scan_unique(name, Stop::Char('/'), name.len() as int);
    assert(splits(name, '/') =~= seq![name]);
    let one = seq![name];
    assert(one.drop_first() =~= Seq::<Seq<char>>::empty());
    assert(names(one.drop_first(), false) =~= Seq::<Seq<char>>::empty());
    assert(names(one, false) =~= seq![name]);
    assert(components(dir).parts + seq![name] =~= components(dir).parts.push(name));
}

/// The names of a container are those in the path of its log,
/// `<dir>/<namespace>_<pod>_<uid>/<container>/<file>`.
pub proof fn law_names_come_from_the_path(
    dir: Seq<char>,
    meta: PodView,
    uid: Seq<char>,
    file: Seq<char>,
)
    requires
        dir.len() > 0,
        meta.namespace.len() > 0,
        !meta.namespace.contains('_') && !meta.namespace.contains('/'),
        meta.pod.len() > 0,
        !meta.pod.contains('/'),
        !uid.contains('_') && !uid.contains('/'),
        plain_name(meta.container),
        plain_name(file),
    ensures
        pod_of_path(
            (dir.push('/') + (meta.namespace.push('_') + (meta.pod.push('_') + uid))).push('/')
                + meta.container.push('/') + file,
        ) == Some(meta),
{
    let rest = meta.pod.push('_') + uid;
    let name = meta.namespace.push('_') + rest;
    let pod_dir = dir.push('/') + name;
    let container_dir = pod_dir.push('/') + meta.container;
    let path = container_dir.push('/') + file;
    assert(path =~= (dir.push('/') + name).push('/') + meta.container.push('/') + file);
    assert forall|i: int| 0 <= i < name.len() implies #[trigger] name[i] != '/' by {
        if i < meta.namespace.len() {
            assert(meta.namespace.contains(meta.namespace[i]));
        } else if i > meta.namespace.len() {
            let j = i - meta.namespace.len() - 1;
            assert(name[i] == rest[j]);
            if j < meta.pod.len() {
                assert(meta.pod.contains(meta.pod[j]));
            } else if j > meta.pod.len() {
                assert(rest[j] == uid[j - meta.pod.len() - 1]);
                assert(uid.contains(uid[j - meta.pod.len() - 1]));
            }
        }
    }
    assert(name.len() >= 4);
    assert(plain_name(name));
    lemma_one_name_more(dir, name);
    lemma_one_name_more(pod_dir, meta.container);
    lemma_one_name_more(container_dir, file);
    let parts = components(dir).parts;
    assert(parts.push(name).push(meta.container).push(file).drop_last() =~= parts.push(name).push(
        meta.container,
    ));
    assert(parts.push(name).push(meta.container).drop_last() =~= parts.push(name));
    let k = meta.namespace.len() as int;
    assert forall|i: int| 0 <= i < k implies !Stop::Char('_').hit(#[trigger] name[i]) by {
        assert(meta.namespace.contains(meta.namespace[i]));
    }
    assert(name[k] == '_');
    lemma_scan_unique(name, Stop::Char('_'), k);
    assert(name.take(k) =~= meta.namespace);
    assert(name.skip(k + 1) =~= rest);
    let m = meta.pod.len() as int;
    assert forall|i: int| m < i < rest.len() implies !Stop::Char('_').hit(#[trigger] rest[i]) by {
        assert(rest[i] == uid[i - m - 1]);
        assert(uid.contains(uid[i - m - 1]));
    }
    assert(rest[m] == '_');
    lemma_last_scan_unique(rest, Stop::Char('_'), m);
    assert(rest.take(m) =~= meta.pod);
    assert(pods_layout(components(path)) == Some(meta));
}

/// Whether no two columns of a list have one name.
pub open spec fn distinct(columns: Seq<(Seq<char>, Seq<char>)>) -> bool {
    forall|i: int, j: int|
        0 <= i < j < columns.len() ==> #[trigger] columns[i].0 != #[trigger] columns[j].0
}

/// A table has no column twice, the time once, all usual columns in front, and a
/// column for everything that is asked for.
pub proof fn law_columns_are_distinct(extra: Seq<(Seq<char>, Seq<char>)>)
    ensures
        ({
            let all = with_columns(base_columns(), extra);
            &&& distinct(all)
            &&& !has_column(all, "timestamp"@)
            &&& base_columns().is_prefix_of(all)
            &&& forall|i: int|
                0 <= i < extra.len() && (#[trigger] extra[i]).0 != "timestamp"@ ==> has_column(
                    all,
                    extra[i].0,
                )
        }),
    decreases extra.len(),
{
    let all = with_columns(base_columns(), extra);
    if extra.len() == 0 {
        reveal_strlit("timestamp");
        reveal_strlit("level");
        reveal_strlit("trace_id");
        reveal_strlit("span_id");
        reveal_strlit("thread");
        reveal_strlit("logger");
        reveal_strlit("message");
        reveal_strlit("file");
        reveal_strlit("host");
        assert("trace_id"@[0] != "thread"@[0] || "trace_id"@[1] != "thread"@[1]);
        assert("level"@.len() == 5 && "trace_id"@.len() == 8 && "span_id"@.len() == 7
            && "thread"@.len() == 6 && "logger"@.len() == 6 && "message"@.len() == 7
            && "file"@.len() == 4 && "host"@.len() == 4 && "timestamp"@.len() == 9);
        assert("thread"@[0] == 't' && "logger"@[0] == 'l');
        assert("span_id"@[0] == 's' && "message"@[0] == 'm');
        assert("file"@[0] == 'f' && "host"@[0] == 'h');
        assert(distinct(all));
    } else {
        let before = extra.drop_last();
        law_columns_are_distinct(before);
        let had = with_columns(base_columns(), before);
        assert forall|i: int|
            0 <= i < extra.len() && (#[trigger] extra[i]).0 != "timestamp"@ implies has_column(
            all,
            extra[i].0,
        ) by {
            if i < before.len() {
                assert(before[i] == extra[i]);
                let k = choose|k: int| 0 <= k < had.len() && #[trigger] had[k].0 == extra[i].0;
                assert(all[k].0 == extra[i].0);
            } else if !has_column(had, extra[i].0) {
                assert(all[had.len() as int].0 == extra[i].0);
            }
        }
        if all != had {
            assert forall|i: int, j: int| 0 <= i < j < all.len() implies #[trigger] all[i].0
                != #[trigger] all[j].0 by {
                assert(all[i] == had[i]);
                if j < had.len() {
                    assert(all[j] == had[j]);
                }
            }
            assert(!has_column(all, "timestamp"@)) by {
                if has_column(all, "timestamp"@) {
                    let k = choose|k: int| 0 <= k < all.len() && #[trigger] all[k].0 == "timestamp"@;
                    if k < had.len() {
                        assert(had[k].0 == "timestamp"@);
                    }
                }
            }
        }
    }
}

/// The formats of a configuration do not change its table: the statements are the
/// same, whatever lines are read.
pub proof fn law_formats_do_not_change_the_table(a: Config, b: Config)
    requires
        a.source == b.source,
        a.fields == b.fields,
        a.sink == b.sink,
    ensures
        a.more_columns() == b.more_columns(),
        a.statements() == b.statements(),
{
}

/// A table has columns for the names of containers exactly where there are
/// containers, and for all fields.
pub proof fn law_all_fields_have_columns(c: Config, i: int)
    requires
        0 <= i < c.fields.list().len(),
    ensures
        has_column(c.more_columns(), c.fields.list()[i].0),
        c.source.has_pods() ==> pod_columns().is_prefix_of(c.more_columns()),
{
    let fields = field_columns(list_views(c.fields.list()));
    let front = if c.source.has_pods() {
        pod_columns()
    } else {
        Seq::empty()
    };
    assert(c.more_columns()[front.len() + i] == fields[i]);
    assert(fields[i].0 == c.fields.list()[i].0);
}

proof fn lemma_none_missing(expected: Seq<Seq<char>>, reply: Seq<char>, i: int)
    requires
        missing_names(expected, reply).len() == 0,
        0 <= i < expected.len(),
    ensures
        lists_name(reply, expected[i]),
    decreases expected.len(),
{
    if i < expected.len() - 1 {
        lemma_none_missing(expected.drop_last(), reply, i);
    }
}

/// A table that is found fit has a column for the time, for every usual part of an
/// event and for everything beside them, so that nothing is left out when a row is
/// stored.
pub proof fn law_a_fit_table_has_all_columns(sink: ClickhouseSink, reply: Seq<char>, name: Seq<char>)
    requires
        sink.health_fault(HealthStep::Columns, reply) is None,
    ensures
        name == "timestamp"@ || has_column(base_columns(), name) || has_column(
            columns_view(sink.extra_columns@),
            name,
        ) ==> lists_name(reply, name),
{
    let extra = columns_view(sink.extra_columns@);
    let base = base_columns();
    let expected = expected_names(extra);
    assert(expected[0] == "timestamp"@);
    if name == "timestamp"@ {
        lemma_none_missing(expected, reply, 0);
    }
    if has_column(base, name) {
        let i = choose|i: int| 0 <= i < base.len() && #[trigger] base[i].0 == name;
        assert(expected[1 + i] == name);
        lemma_none_missing(expected, reply, 1 + i);
    }
    if has_column(extra, name) {
        let i = choose|i: int| 0 <= i < extra.len() && #[trigger] extra[i].0 == name;
        assert(expected[1 + base.len() + i] == name);
        lemma_none_missing(expected, reply, 1 + base.len() + i);
    }
}

} // verus!
