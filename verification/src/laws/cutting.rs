//! Texts that are cut and put together, and small decisions about time and place.

use vstd::prelude::*;

use crate::error::Error;
use crate::laws::access::last_day;
use crate::laws::choosing::{lemma_one_name_more, plain_name};
use crate::laws::finding::inside;
use crate::laws::rows::{counted, lemma_counted};
use crate::parser::api::Parser;
use crate::sink::clickhouse::{ClickhouseSink, Request};
use crate::source::checkpoint::{directory, holds_path, known_dir, Checkpointer};
use crate::source::file::FileSource;
use crate::source::k8s::{picked_by, PodMeta, PodSelector};
use crate::source::path::{components, UnixPath};
use crate::source::schedule::{is_due, should_prune, Schedule};
use crate::source::stdin::{StdinReader, StdinSource};
use crate::source::tail::Watcher;
use crate::text::{decimal, has_part, holds_part, is_space, join, lemma_last_scan, lemma_scan, less};
use crate::text::{lemma_precedes_irreflexive, lemma_precedes_total, lemma_precedes_transitive};
use crate::text::{opt_string_view, precedes, push_decimal, rsplit_once, scan, split_once};
use crate::text::{strip_prefix, strip_suffix, texts_view, trim, trimmed, trimmed_start, Stop};
use crate::time::Timestamp;

verus! {

/// A text is split around the first or the last character of a kind, and nothing is lost; one
/// without such a character is not split.
pub proof fn law_texts_are_split(
    s: &str,
    c: char,
    a: Option<(&str, &str)>,
    b: Option<(&str, &str)>,
)
    requires
        call_ensures(split_once, (s, c), a),
        call_ensures(rsplit_once, (s, c), b),
    ensures
        a is Some <==> s@.contains(c),
        b is Some <==> s@.contains(c),
        a matches Some(p) ==> s@ == p.0@ + seq![c] + p.1@ && !p.0@.contains(c),
        b matches Some(p) ==> s@ == p.0@ + seq![c] + p.1@ && !p.1@.contains(c),
{
    let t = s@;
    lemma_scan(t, Stop::Char(c));
    lemma_last_scan(t, Stop::Char(c));
    if let Some(p) = a {
        assert(t =~= p.0@ + seq![c] + p.1@);
        assert(t.contains(t[p.0@.len() as int]));
        if p.0@.contains(c) {
            let i = p.0@.index_of(c);
            assert(t[i] == c);
        }
    }
    if let Some(p) = b {
        assert(t =~= p.0@ + seq![c] + p.1@);
        assert(t.contains(t[p.0@.len() as int]));
        if p.1@.contains(c) {
            let i = p.1@.index_of(c);
            assert(t[p.0@.len() + 1 + i] == c);
        }
    }
    if t.contains(c) {
        let i = t.index_of(c);
        assert(Stop::Char(c).hit(t[i]));
    }
}

/// Trimming takes off blanks at both ends, all of them and nothing else.
pub proof fn law_trimming_takes_off_blanks(s: &str, r: &str)
    requires
        call_ensures(trim, (s,), r),
    ensures
        r@.len() > 0 ==> !is_space(r@[0]) && !is_space(r@.last()),
        exists|i: int, j: int|
            {
                &&& 0 <= i <= j <= s@.len()
                &&& r@ == #[trigger] s@.subrange(i, j)
                &&& forall|k: int| 0 <= k < i ==> is_space(#[trigger] s@[k])
                &&& forall|k: int| j <= k < s@.len() ==> is_space(#[trigger] s@[k])
            },
{
    let t = s@;
    lemma_scan(t, Stop::NonSpace);
    let i = scan(t, Stop::NonSpace);
    let u = trimmed_start(t);
    lemma_last_scan(u, Stop::NonSpace);
    let j = i + trimmed(t).len();
    assert(r@ =~= t.subrange(i, j));
    assert forall|k: int| 0 <= k < i implies is_space(#[trigger] t[k]) by {
        assert(!Stop::NonSpace.hit(t[k]));
    }
    assert forall|k: int| j <= k < t.len() implies is_space(#[trigger] t[k]) by {
        assert(u[k - i] == t[k]);
        assert(!Stop::NonSpace.hit(u[k - i]));
    }
    if r@.len() > 0 {
        assert(u[0] == t[i]);
        assert(r@[0] == u[0]);
        assert(Stop::NonSpace.hit(t[i]));
    }
}

/// What stands before or behind a text is taken off if it is there.
pub proof fn law_ends_are_taken_off(
    s: &str,
    end: &str,
    a: Option<&str>,
    b: Option<&str>,
    rest: Seq<char>,
)
    requires
        call_ensures(strip_prefix, (s, end), a),
        call_ensures(strip_suffix, (s, end), b),
    ensures
        s@ == end@ + rest ==> a is Some && a->0@ == rest,
        s@ == rest + end@ ==> b is Some && b->0@ == rest,
        a matches Some(r) ==> s@ == end@ + r@,
        b matches Some(r) ==> s@ == r@ + end@,
{
    if s@ == end@ + rest {
        assert(end@.is_prefix_of(s@));
        assert(s@.skip(end@.len() as int) =~= rest);
    }
    if s@ == rest + end@ {
        assert(end@.is_suffix_of(s@));
        assert(s@.take(s@.len() - end@.len()) =~= rest);
    }
    if let Some(r) = a {
        assert(s@ =~= end@ + r@);
    }
    if let Some(r) = b {
        assert(s@ =~= r@ + end@);
    }
}

/// A text stands in another if and only if the other is it with something before and behind.
pub proof fn law_parts_are_found(s: &str, part: &str, r: bool, before: Seq<char>, after: Seq<char>)
    requires
        call_ensures(has_part, (s, part), r),
    ensures
        s@ == before + part@ + after ==> r,
        r ==> exists|a: Seq<char>, b: Seq<char>| s@ == #[trigger] (a + part@ + b),
{
    if s@ == before + part@ + after {
        lemma_found(before, part@, after);
    }
    if r {
        lemma_place(s@, part@);
    }
}

proof fn lemma_found(before: Seq<char>, part: Seq<char>, after: Seq<char>)
    ensures
        holds_part(before + part + after, part),
    decreases before.len(),
{
    let s = before + part + after;
    if before.len() == 0 {
        assert(s =~= part + after);
        assert(part.is_prefix_of(s));
    } else {
        lemma_found(before.drop_first(), part, after);
        assert(s.drop_first() =~= before.drop_first() + part + after);
    }
}

proof fn lemma_place(s: Seq<char>, part: Seq<char>)
    requires
        holds_part(s, part),
    ensures
        exists|a: Seq<char>, b: Seq<char>| s == #[trigger] (a + part + b),
    decreases s.len(),
{
    if part.is_prefix_of(s) {
        assert(s =~= Seq::<char>::empty() + part + s.skip(part.len() as int));
    } else {
        let t = s.drop_first();
        lemma_place(t, part);
        let (a, b) = choose|a: Seq<char>, b: Seq<char>| t == #[trigger] (a + part + b);
        assert(s =~= seq![s[0]] + t);
        assert(seq![s[0]] + (a + part + b) =~= (seq![s[0]] + a) + part + b);
    }
}

/// Texts are joined in order with the separator between any two of them.
pub proof fn law_texts_are_joined(
    list: &Vec<String>,
    sep: &str,
    r: String,
    more: &Vec<String>,
    longer: String,
    last: Seq<char>,
)
    requires
        call_ensures(join, (list, sep), r),
        call_ensures(join, (more, sep), longer),
        texts_view(more@) == texts_view(list@).push(last),
    ensures
        list@.len() == 0 ==> r@.len() == 0 && longer@ == last,
        list@.len() > 0 ==> longer@ == r@ + sep@ + last,
{
    let all = texts_view(list@);
    assert(all.len() == list@.len());
    assert(all.push(last).drop_last() =~= all);
}

/// A number is written in its decimal digits, behind what is there.
pub proof fn law_numbers_are_written(out: &mut String, n: u64)
    requires
        call_ensures(push_decimal, (out, n), ()),
    ensures
        old(out)@.is_prefix_of(final(out)@),
        counted(final(out)@.skip(old(out)@.len() as int)) == n,
        final(out)@.len() > old(out)@.len(),
        n > 0 ==> final(out)@[old(out)@.len() as int] != '0',
{
    lemma_counted(n as nat);
    assert(final(out)@.skip(old(out)@.len() as int) =~= decimal(n as nat));
    assert(final(out)@[old(out)@.len() as int] == decimal(n as nat)[0]);
}

/// One of two texts comes first unless they are the same, and a text comes before what starts
/// with it.
pub proof fn law_texts_have_an_order(
    a: &str,
    b: &str,
    x: bool,
    y: bool,
    longer: &str,
    more: Seq<char>,
    z: bool,
)
    requires
        call_ensures(less, (a, b), x),
        call_ensures(less, (b, a), y),
        longer@ == a@ + more,
        call_ensures(less, (a, longer), z),
    ensures
        x && y ==> false,
        !x && !y <==> a@ == b@,
        z <==> more.len() > 0,
{
    if a@ != b@ {
        lemma_precedes_total(a@, b@);
    }
    lemma_precedes_irreflexive(a@);
    if x && y {
        lemma_precedes_transitive(a@, b@, a@);
    }
    lemma_shorter_first(a@, more);
}

proof fn lemma_shorter_first(a: Seq<char>, more: Seq<char>)
    ensures
        precedes(a, a + more) == (more.len() > 0),
    decreases a.len(),
{
    if a.len() > 0 {
        lemma_shorter_first(a.drop_first(), more);
        assert((a + more).drop_first() =~= a.drop_first() + more);
    }
}

/// A time is real if and only if its date exists and its clock shows it.
pub proof fn law_real_times_exist(ts: &Timestamp, r: bool)
    requires
        call_ensures(Timestamp::is_real, (ts,), r),
    ensures
        r <==> {
            &&& -262143 <= ts.year <= 262142
            &&& 1 <= ts.month <= 12
            &&& 1 <= ts.day <= last_day(ts.year as int, ts.month as int)
            &&& ts.hour < 24 && ts.minute < 60 && ts.second < 60 && ts.nano < 2_000_000_000
        },
{
}

/// Something that is done every so often is due when so much time has passed, and the first
/// time at once; nothing is tidied away after a look that found nothing, or after a later one.
pub proof fn law_what_is_due(
    last: u64,
    now: u64,
    ms: u64,
    first: bool,
    again: bool,
    first_pass: bool,
    watched: usize,
    prune: bool,
    scan_ms: u64,
    save_ms: u64,
    rest_ms: u64,
    s: Schedule,
)
    requires
        call_ensures(is_due, (None, now, ms), first),
        call_ensures(is_due, (Some(last), now, ms), again),
        call_ensures(should_prune, (first_pass, watched), prune),
        call_ensures(Schedule::new, (now, scan_ms, save_ms, rest_ms), s),
    ensures
        first,
        now >= last ==> (again <==> now - last >= ms),
        now < last ==> (again <==> ms == 0),
        prune <==> first_pass && watched > 0,
        s.last_scan is None && s.last_save == now && s.scan_interval_ms == scan_ms,
        s.save_interval_ms == save_ms && s.rest_ms == rest_ms,
{
}

/// A directory is known if a file in it has an offset; a directory above it is not for that.
pub proof fn law_known_directories_are_those_of_files(
    c: &Checkpointer,
    key: Seq<char>,
    dir: &str,
    name: Seq<char>,
    r: bool,
    source: &FileSource,
    first_pass: bool,
    known: Vec<UnixPath>,
)
    requires
        dir@.len() > 0,
        plain_name(name),
        c@.dom().contains(key),
        c@[key].path == inside(dir@, name),
        call_ensures(Checkpointer::has_dir, (c, dir), r),
        call_ensures(FileSource::known_dirs, (source, first_pass, c), known),
    ensures
        r,
        first_pass && !source.read_from_beginning ==> holds_path(known@, components(dir@)),
        !first_pass || source.read_from_beginning ==> known@.len() == 0,
{
    lemma_one_name_more(dir@, name);
    let path = components(inside(dir@, name));
    assert(path.parts.drop_last() =~= components(dir@).parts);
    assert(path.parent() == Some(components(dir@)));
    assert(directory(c@[key]) == Some(components(dir@)));
    assert(known_dir(c@, components(dir@)));
}

/// Settings of the standard input and of a table go where they belong.
pub proof fn law_more_settings_go_where_they_belong(
    input: StdinSource,
    n: usize,
    a: StdinSource,
    reader: StdinReader,
    line: Seq<char>,
    sink: ClickhouseSink,
    name: &str,
    b: ClickhouseSink,
    columns: Vec<(String, String)>,
    c: ClickhouseSink,
    local: String,
    s: FileSource,
    selector: PodSelector,
    d: FileSource,
    taken: bool,
    excluded: bool,
    picked: bool,
)
    requires
        call_ensures(StdinSource::batch_lines, (input, n), a),
        call_ensures(StdinReader::new, (&input,), reader),
        call_ensures(ClickhouseSink::cluster, (sink, name), b),
        call_ensures(ClickhouseSink::extra_columns, (sink, columns), c),
        call_ensures(ClickhouseSink::local_table, (&sink,), local),
        call_ensures(FileSource::pod_selector, (s, selector), d),
        call_ensures(picked_by, (taken, excluded), picked),
    ensures
        n >= 1 ==> a.batch_lines == n,
        n == 0 ==> a.batch_lines == 1,
        a.file == input.file && a.host == input.host,
        reader.pending@.len() == 0 && reader.batch_lines == input.batch_lines,
        reader.file == input.file && reader.host == input.host,
        reader.aggregator.state().pending is None && reader.aggregator.state().held is None,
        (reader.aggregator.rules().reads)(line) == input.parser.reads(line),
        b.cluster is Some && b.cluster->0@ == name@ && b.table == sink.table,
        b.database == sink.database && b.endpoint == sink.endpoint,
        c.extra_columns == columns && c.table == sink.table && c.cluster == sink.cluster,
        local@ == sink.table@ + "_local"@,
        d.pod_selector == Some(selector) && d.includes == s.includes,
        picked <==> taken && !excluded,
{
    assert(opt_string_view(b.cluster) is Some <==> b.cluster is Some);
}

/// The last event of the standard input is given out too, and carries its file.
pub proof fn law_the_last_input_is_given_out(a: &mut StdinReader)
    requires
        old(a).wf(),
        call_ensures(StdinReader::settle, (a,), ()),
        old(a).aggregator.state().held is None,
    ensures
        final(a).aggregator.state().pending is None,
        old(a).aggregator.state().pending is None ==> final(a).pending@ == old(a).pending@,
        old(a).aggregator.state().pending is Some ==> {
            &&& final(a).pending@.len() == old(a).pending@.len() + 1
            &&& final(a).pending@.drop_last() == old(a).pending@
            &&& final(a).pending@.last().body().file == old(a).file@
            &&& old(a).aggregator.state().pending matches Some((_, body))
                && final(a).pending@.last().body().message == body.message
        },
{
}

/// A body that was compressed is sent as such; one that could not be is an error.
pub proof fn law_compressed_bodies_are_marked(
    sink: &ClickhouseSink,
    sql: &str,
    packed: Result<Vec<u8>, String>,
    r: Result<Request, Error>,
)
    requires
        call_ensures(ClickhouseSink::packed_request, (sink, sql, packed), r),
    ensures
        r is Ok <==> packed is Ok,
        r matches Ok(q) ==> q.compressed && q.body@ == packed->Ok_0@ && q.endpoint@
            == sink.endpoint@ && q.timeout_ms == sink.timeout_ms,
        r matches Err(e) ==> e@ is Io && e@->cause == packed->Err_0@,
{
}

/// A file is of a pod if the pod's namespace and name are those of its path.
pub proof fn law_files_are_of_their_pod<P: Parser>(w: &Watcher<P>, meta: &PodMeta, r: bool)
    requires
        call_ensures(Watcher::<P>::same_pod, (w, meta), r),
    ensures
        r <==> w.pod is Some && w.pod->0.namespace@ == meta.namespace@ && w.pod->0.pod@ == meta.pod@,
{
}

} // verus!
