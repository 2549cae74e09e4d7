//! What events and maps hold, and what errors say.

use vstd::prelude::*;

use crate::error::{Error, ErrorView};
use crate::event::{field_views, LogEvent};
use crate::map::StrMap;
use crate::parser::aggregate::Aggregator;
use crate::parser::api::Parser;
use crate::parser::cri::{ContainerFormat, LineDecoder};
use crate::source::discover::{exclude_patterns, usable};
use crate::source::k8s::{glob_error, glob_texts};
use crate::text::texts_view;
use crate::value::{Value, ValueView};

verus! {

/// A field that an event is given is its own, and the value that it had comes back; all else
/// of the event stays.
pub proof fn law_fields_are_given(
    e: &mut LogEvent,
    key: String,
    value: Value,
    r: Option<Value>,
    other: Seq<char>,
)
    requires
        old(e).wf(),
        call_ensures(LogEvent::insert, (e, key, value), r),
    ensures
        final(e).fields@.dom().contains(key@) && final(e).fields@[key@]@ == value@,
        other != key@ ==> (final(e).fields@.dom().contains(other) <==> old(e).fields@.dom().contains(
            other,
        )),
        other != key@ && old(e).fields@.dom().contains(other) ==> final(e).fields@[other]@
            == old(e).fields@[other]@,
        r is Some <==> old(e).fields@.dom().contains(key@),
        r is Some ==> r->0@ == old(e).fields@[key@]@,
        final(e).timestamp == old(e).timestamp,
        final(e).level@ == old(e).level@ && final(e).trace_id@ == old(e).trace_id@,
        final(e).span_id@ == old(e).span_id@ && final(e).thread@ == old(e).thread@,
        final(e).logger@ == old(e).logger@ && final(e).message@ == old(e).message@,
        final(e).file == old(e).file && final(e).host == old(e).host,
{
    let was = old(e).body();
    let is = final(e).body();
    assert(is.fields.dom() =~= final(e).fields@.dom());
    assert(was.fields.dom() =~= old(e).fields@.dom());
    assert(is.fields[key@] == final(e).fields@[key@]@);
    assert(was.fields.dom().contains(key@) ==> was.fields[key@] == old(e).fields@[key@]@);
    assert(is.fields.dom().contains(key@));
    assert(is.fields.dom().contains(other) ==> is.fields[other] == final(e).fields@[other]@);
    assert(was.fields.dom().contains(other) ==> was.fields[other] == old(e).fields@[other]@);
    assert(is.level == final(e).level@ && is.trace_id == final(e).trace_id@);
    assert(is.span_id == final(e).span_id@ && is.thread == final(e).thread@);
    assert(is.logger == final(e).logger@ && is.message == final(e).message@);
}

/// An event's own field counts before its source's; where neither has one, there is none.
pub proof fn law_own_fields_count_first(e: &LogEvent, key: &str, r: Option<&Value>)
    requires
        e.wf(),
        call_ensures(LogEvent::get, (e, key), r),
    ensures
        e.fields@.dom().contains(key@) ==> r is Some && r->0@ == e.fields@[key@]@,
        !e.fields@.dom().contains(key@) ==> match e.shared {
            Some(shared) => {
                &&& r is Some <==> shared@.dom().contains(key@)
                &&& r is Some ==> r->0@ == shared@[key@]@
            },
            None => r is None,
        },
{
    let body = e.body();
    assert(body.fields.dom() =~= e.fields@.dom());
    assert(body.fields.dom().contains(key@) ==> body.fields[key@] == e.fields@[key@]@);
    if let Some(shared) = e.shared {
        let all = field_views(shared@);
        assert(body.shared == Some(all));
        assert(all.dom() =~= shared@.dom());
        assert(all.dom().contains(key@) ==> all[key@] == shared@[key@]@);
    }
}

/// A new event has a message, the present time and nothing else; a line that is added comes on
/// a line of its own behind the message.
pub proof fn law_events_start_with_a_message(
    message: String,
    a: LogEvent,
    e: &mut LogEvent,
    line: &str,
)
    requires
        call_ensures(LogEvent::new, (message,), a),
        call_ensures(LogEvent::append_line, (e, line), ()),
    ensures
        a.message@ == message@ && a.level@.len() == 0 && a.trace_id@.len() == 0,
        a.span_id@.len() == 0 && a.thread@.len() == 0 && a.logger@.len() == 0,
        a.file@.len() == 0 && a.host@.len() == 0 && a.shared is None,
        a.fields@.dom() == Set::<Seq<char>>::empty(),
        final(e).message@ == old(e).message@ + seq!['\n'] + line@,
        final(e).level@ == old(e).level@ && final(e).logger@ == old(e).logger@,
        final(e).trace_id@ == old(e).trace_id@ && final(e).span_id@ == old(e).span_id@,
        final(e).timestamp == old(e).timestamp,
{
    let body = a.body();
    assert(body.message == a.message@ && body.level == a.level@ && body.trace_id == a.trace_id@);
    assert(body.span_id == a.span_id@ && body.thread == a.thread@ && body.logger == a.logger@);
    assert(body.file == a.file@ && body.host == a.host@);
    assert(body.fields.dom() =~= a.fields@.dom());
    let is = final(e).body();
    let was = old(e).body();
    assert(is.message == final(e).message@ && is.level == final(e).level@);
    assert(is.trace_id == final(e).trace_id@ && is.span_id == final(e).span_id@);
    assert(is.logger == final(e).logger@);
    assert(was.message.push('\n') + line@ =~= was.message + seq!['\n'] + line@);
}

/// A map gives back what was put into it, and nothing that was taken out of it; other entries
/// stay.
pub proof fn law_maps_give_back<V>(
    m: &mut StrMap<V>,
    key: String,
    value: V,
    had: Option<V>,
    after: &StrMap<V>,
    at: &str,
    got: Option<&V>,
    n: &mut StrMap<V>,
    out: Option<V>,
    left: &StrMap<V>,
    still: bool,
)
    requires
        old(m).wf(),
        call_ensures(StrMap::<V>::insert, (m, key, value), had),
        *after == *final(m),
        call_ensures(StrMap::<V>::get, (after, at), got),
        old(n).wf(),
        call_ensures(StrMap::<V>::remove, (n, at), out),
        *left == *final(n),
        call_ensures(StrMap::<V>::contains_key, (left, at), still),
    ensures
        at@ == key@ ==> got is Some && *got->0 == value,
        at@ != key@ ==> (got is Some <==> old(m)@.dom().contains(at@)),
        at@ != key@ && got is Some ==> *got->0 == old(m)@[at@],
        had is Some <==> old(m)@.dom().contains(key@),
        out is Some <==> old(n)@.dom().contains(at@),
        out is Some ==> out->0 == old(n)@[at@],
        !still,
{
}

/// Patterns that can be used are used, and those that cannot are passed over.
pub proof fn law_bad_patterns_are_passed_over(
    texts: &Vec<String>,
    r: Vec<glob::Pattern>,
    text: Seq<char>,
)
    requires
        call_ensures(exclude_patterns, (texts,), r),
    ensures
        glob_texts(r@).contains(text) <==> texts_view(texts@).contains(text) && glob_error(text)
            is None,
        r@.len() <= texts@.len(),
{
    lemma_usable(texts_view(texts@), text);
    assert(glob_texts(r@).len() == r@.len());
}

proof fn lemma_usable(texts: Seq<Seq<char>>, text: Seq<char>)
    ensures
        usable(texts).contains(text) <==> texts.contains(text) && glob_error(text) is None,
        usable(texts).len() <= texts.len(),
    decreases texts.len(),
{
    if texts.len() > 0 {
        let less = texts.drop_last();
        lemma_usable(less, text);
        let rest = usable(less);
        if texts.contains(text) {
            let i = texts.index_of(text);
            if i < less.len() {
                assert(less[i] == text);
            }
        }
        if less.contains(text) {
            let i = less.index_of(text);
            assert(texts[i] == text);
        }
        assert(texts[texts.len() - 1] == texts.last());
        let all = rest.push(texts.last());
        assert(all[rest.len() as int] == texts.last());
        if rest.contains(text) {
            let i = rest.index_of(text);
            assert(all[i] == text);
        }
        if all.contains(text) && text != texts.last() {
            let i = all.index_of(text);
            assert(rest[i] == text);
        }
    }
}

/// The limits of an aggregator are those that it was given, and it holds what it holds.
pub proof fn law_limits_are_as_given<P: Parser>(
    a: Aggregator<P>,
    lines: usize,
    bytes: usize,
    x: Aggregator<P>,
    y: Aggregator<P>,
    line: Seq<char>,
    pending: bool,
    parts: bool,
    format: ContainerFormat,
    decoder: LineDecoder,
)
    requires
        call_ensures(Aggregator::<P>::max_lines, (a, lines), x),
        call_ensures(Aggregator::<P>::max_bytes, (a, bytes), y),
        call_ensures(Aggregator::<P>::has_pending, (&a,), pending),
        call_ensures(Aggregator::<P>::has_parts, (&a,), parts),
        call_ensures(ContainerFormat::decoder, (format,), decoder),
    ensures
        x.rules().max_lines == lines && x.rules().max_bytes == a.rules().max_bytes,
        y.rules().max_bytes == bytes && y.rules().max_lines == a.rules().max_lines,
        x.state() == a.state() && y.state() == a.state(),
        (x.rules().reads)(line) == (a.rules().reads)(line),
        pending <==> a.state().pending is Some,
        parts <==> a.state().held is Some && a.state().held->0.len() > 0,
        format is Cri <==> decoder is Cri,
{
}

/// Errors are of their kind and say what they were told; those of reading and writing say what
/// was done and why it failed.
pub proof fn law_errors_say_what_they_were_told(
    a: &str,
    b: &str,
    config: Error,
    io: Error,
    source: Error,
    sink: Error,
    other: Error,
    said: String,
    told: String,
    heard: String,
)
    requires
        call_ensures(Error::config, (a,), config),
        call_ensures(Error::io, (a, b), io),
        call_ensures(Error::source, (a,), source),
        call_ensures(Error::sink, (a,), sink),
        call_ensures(Error::other, (a,), other),
        call_ensures(Error::message, (&config,), said),
        call_ensures(Error::message, (&io,), told),
        call_ensures(Error::message, (&sink,), heard),
    ensures
        config@ is Config && source@ is Source && sink@ is Sink && other@ is Other && io@ is Io,
        said@ == a@ && heard@ == a@,
        told@ == a@ + seq![':', ' '] + b@,
        source@ == ErrorView::Source(a@) && other@ == ErrorView::Other(a@),
{
    reveal_strlit(": ");
    assert(": "@ =~= seq![':', ' ']);
}

/// A copy of a value is the same value, and a text's value is the text.
pub proof fn law_copies_are_the_same(v: &Value, copy: Value, t: &str, text: Value)
    requires
        call_ensures(Value::duplicate, (v,), copy),
        call_ensures(Value::text, (t,), text),
    ensures
        copy@ == v@,
        text@ == ValueView::Text(t@),
{
}

} // verus!
