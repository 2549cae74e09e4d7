//! Lines out of the container runtime's shell, and the events that they make.

use std::sync::Arc;

use vstd::prelude::*;

use crate::event::Body;
use crate::laws::reading::{gathered_all, with_lines};
use crate::map::StrMap;
use crate::parser::aggregate::{flushed, gathered, Aggregator, Gathered, Rules};
use crate::parser::api::Parser;
use crate::parser::cri::{cri_shell, decoded, ContainerFormat, Shell};
use crate::parser::stamp::When;
use crate::source::k8s::PodMeta;
use crate::source::tail::Watcher;
use crate::text::{byte_len, lemma_encode_add, lemma_scan, lemma_scan_unique, scan, Stop};
use crate::time::rfc3339_instant;
use crate::value::{Value, ValueView};

verus! {

/// Whether a text has no blank in it.
pub open spec fn unbroken(s: Seq<char>) -> bool {
    forall|i: int| 0 <= i < s.len() ==> #[trigger] s[i] != ' '
}

/// A line in the container runtime's shell.
pub open spec fn in_shell(
    time: Seq<char>,
    stream: Seq<char>,
    tag: Seq<char>,
    content: Seq<char>,
) -> Seq<char> {
    time + seq![' '] + stream + seq![' '] + tag + seq![' '] + content
}

/// The two streams of a container.
pub open spec fn is_stream(stream: Seq<char>) -> bool {
    stream == seq!['s', 't', 'd', 'o', 'u', 't'] || stream == seq!['s', 't', 'd', 'e', 'r', 'r']
}

/// Whether a tag says `mark`: it is that, or that with a colon and more behind it.
pub open spec fn says(tag: Seq<char>, mark: char) -> bool {
    unbroken(tag) && tag.len() > 0 && tag[0] == mark && (tag.len() == 1 || tag[1] == ':')
}

proof fn lemma_words()
    ensures
        "stdout"@ == seq!['s', 't', 'd', 'o', 'u', 't'],
        "stderr"@ == seq!['s', 't', 'd', 'e', 'r', 'r'],
        "P"@ == seq!['P'],
        "F"@ == seq!['F'],
        "stream"@ == seq!['s', 't', 'r', 'e', 'a', 'm'],
{
    reveal_strlit("stdout");
    reveal_strlit("stderr");
    reveal_strlit("P");
    reveal_strlit("F");
    reveal_strlit("stream");
    assert("stdout"@ =~= seq!['s', 't', 'd', 'o', 'u', 't']);
    assert("stderr"@ =~= seq!['s', 't', 'd', 'e', 'r', 'r']);
    assert("P"@ =~= seq!['P']);
    assert("F"@ =~= seq!['F']);
    assert("stream"@ =~= seq!['s', 't', 'r', 'e', 'a', 'm']);
}

/// A word is found in front of the first blank.
proof fn lemma_first_word(word: Seq<char>, rest: Seq<char>)
    requires
        unbroken(word),
    ensures
        scan(word + seq![' '] + rest, Stop::Char(' ')) == word.len(),
        (word + seq![' '] + rest).take(word.len() as int) == word,
        (word + seq![' '] + rest).skip(word.len() as int + 1) == rest,
{
    let s = word + seq![' '] + rest;
    assert forall|i: int| 0 <= i < word.len() implies !Stop::Char(' ').hit(#[trigger] s[i]) by {
        assert(s[i] == word[i]);
    }
    lemma_scan_unique(s, Stop::Char(' '), word.len() as int);
    assert(s.take(word.len() as int) =~= word);
    assert(s.skip(word.len() as int + 1) =~= rest);
}

proof fn lemma_mark(tag: Seq<char>, mark: char)
    requires
        mark != ':',
    ensures
        unbroken(tag) ==> (tag.take(scan(tag, Stop::Char(':'))) == seq![mark] <==> says(tag, mark)),
{
    lemma_scan(tag, Stop::Char(':'));
    let k = scan(tag, Stop::Char(':'));
    if tag.take(k) == seq![mark] {
        assert(tag.take(k).len() == k);
        assert(tag.take(k)[0] == tag[0]);
    }
    if unbroken(tag) && says(tag, mark) {
        lemma_scan_unique(tag, Stop::Char(':'), 1);
        assert(tag.take(1) =~= seq![mark]);
    }
}

/// The shell of a line is taken off: behind the time and the stream stands whether the
/// line ends here or goes on, and all the rest is what the application wrote, as it is.
/// A line whose stream or whose tag is no such thing has no shell.
pub proof fn law_shells_are_taken_off(
    time: Seq<char>,
    stream: Seq<char>,
    tag: Seq<char>,
    content: Seq<char>,
)
    requires
        unbroken(time),
        unbroken(stream),
        unbroken(tag),
    ensures
        cri_shell(in_shell(time, stream, tag, content)) == if !is_stream(stream) {
            Shell::Missing
        } else if says(tag, 'P') {
            Shell::Part(content)
        } else if says(tag, 'F') {
            Shell::Full { time, stream, content }
        } else {
            Shell::Missing
        },
{
    let line = in_shell(time, stream, tag, content);
    let rest = stream + seq![' '] + (tag + seq![' '] + content);
    lemma_words();
    assert(line =~= time + seq![' '] + rest);
    lemma_first_word(time, rest);
    lemma_first_word(stream, tag + seq![' '] + content);
    lemma_first_word(tag, content);
    lemma_mark(tag, 'P');
    lemma_mark(tag, 'F');
}

/// A line that is not at least a time, a stream and a tag has no shell.
pub proof fn law_short_lines_have_no_shell(time: Seq<char>, rest: Seq<char>)
    requires
        unbroken(time),
        unbroken(rest),
    ensures
        cri_shell(time) is Missing,
        cri_shell(time + seq![' '] + rest) is Missing,
{
    assert forall|i: int| 0 <= i < time.len() implies !Stop::Char(' ').hit(#[trigger] time[i]) by {}
    lemma_scan_unique(time, Stop::Char(' '), time.len() as int);
    assert forall|i: int| 0 <= i < rest.len() implies !Stop::Char(' ').hit(#[trigger] rest[i]) by {}
    lemma_scan_unique(rest, Stop::Char(' '), rest.len() as int);
    lemma_first_word(time, rest);
}

/// A full line that makes or starts an event: its content, with the parts before it in
/// front, is read; the event that was open is complete, and the stream is a field of the
/// new one.
pub proof fn law_full_lines_start_events(
    rules: Rules,
    g: Gathered,
    parts: Seq<char>,
    time: Seq<char>,
    stream: Seq<char>,
    tag: Seq<char>,
    content: Seq<char>,
)
    requires
        g.held == Some(parts),
        unbroken(time),
        is_stream(stream),
        says(tag, 'F'),
        (rules.reads)(parts + content) is Some,
    ensures
        ({
            let (g1, e) = gathered(rules, g, in_shell(time, stream, tag, content));
            &&& e == g.pending
            &&& g1.held == Some(Seq::<char>::empty())
            &&& g1.lines == 1
            &&& match ((rules.reads)(parts + content), g1.pending) {
                (Some((when, body)), Some((when1, body1))) => when1 == when && body1 == (Body {
                    fields: body.fields.insert("stream"@, ValueView::Text(stream)),
                    ..body
                }),
                _ => false,
            }
        }),
{
    lemma_words();
    law_shells_are_taken_off(time, stream, tag, content);
}

/// A full line that is not read and has nothing to go on with is an event of its own: all
/// of its content is the message, the runtime's time is its time, or the present one where
/// the runtime's cannot be read, and the stream is its only field.
pub proof fn law_stray_full_lines_are_events(
    rules: Rules,
    g: Gathered,
    parts: Seq<char>,
    time: Seq<char>,
    stream: Seq<char>,
    tag: Seq<char>,
    content: Seq<char>,
)
    requires
        g.held == Some(parts),
        g.pending is None,
        unbroken(time),
        is_stream(stream),
        says(tag, 'F'),
        (rules.reads)(parts + content) is None,
    ensures
        ({
            let (g1, e) = gathered(rules, g, in_shell(time, stream, tag, content));
            &&& g1.pending is None
            &&& g1.held == Some(Seq::<char>::empty())
            &&& match e {
                Some((when, body)) => {
                    &&& body.message == parts + content
                    &&& body.fields == Map::<Seq<char>, ValueView>::empty().insert(
                        "stream"@,
                        ValueView::Text(stream),
                    )
                    &&& body.level.len() == 0 && body.trace_id.len() == 0 && body.span_id.len() == 0
                    &&& body.thread.len() == 0 && body.logger.len() == 0
                    &&& when == match rfc3339_instant(time) {
                        Some(i) => When::At(i),
                        None => When::Now,
                    }
                },
                None => false,
            }
        }),
{
    lemma_words();
    law_shells_are_taken_off(time, stream, tag, content);
}

/// A part of a line completes nothing: its content is held behind the parts before it.
pub proof fn law_parts_are_held(
    rules: Rules,
    g: Gathered,
    parts: Seq<char>,
    time: Seq<char>,
    stream: Seq<char>,
    tag: Seq<char>,
    content: Seq<char>,
)
    requires
        g.held == Some(parts),
        unbroken(time),
        is_stream(stream),
        says(tag, 'P'),
    ensures
        gathered(rules, g, in_shell(time, stream, tag, content)) == (
            (Gathered { held: Some(parts + content), ..g }),
            None::<(When, Body)>,
        ),
{
    lemma_words();
    law_shells_are_taken_off(time, stream, tag, content);
}

/// Whether a line is all of what an application wrote in a line: that itself where lines
/// have no shell, and that in a shell where they have one.
pub open spec fn writes(held: Option<Seq<char>>, line: Seq<char>, content: Seq<char>) -> bool {
    match held {
        None => line == content,
        Some(_) => exists|time: Seq<char>, stream: Seq<char>, tag: Seq<char>|
            unbroken(time) && is_stream(stream) && says(tag, 'F') && line == #[trigger] in_shell(
                time,
                stream,
                tag,
                content,
            ),
    }
}

/// What comes out of a shell when no parts are held.
proof fn lemma_written(held: Option<Seq<char>>, line: Seq<char>, content: Seq<char>)
    requires
        writes(held, line, content),
        held matches Some(parts) ==> parts == Seq::<char>::empty(),
    ensures
        decoded(held, line).0 is Some,
        decoded(held, line).0->0.content == content,
        decoded(held, line).1 == held,
{
    if held is Some {
        let (time, stream, tag) = choose|time: Seq<char>, stream: Seq<char>, tag: Seq<char>|
            unbroken(time) && is_stream(stream) && says(tag, 'F') && line == #[trigger] in_shell(
                time,
                stream,
                tag,
                content,
            );
        lemma_words();
        law_shells_are_taken_off(time, stream, tag, content);
        assert(Seq::<char>::empty() + content =~= content);
    }
}

/// The lines of a stack trace are merged, in the runtime's shell as without one: lines
/// whose contents are not read all go on with the event before them, each behind a line
/// feed and in order, and complete no event, as long as their number and their bytes stay
/// within the limits.
pub proof fn law_traces_are_merged_in_any_shell(
    rules: Rules,
    g: Gathered,
    when: When,
    body: Body,
    lines: Seq<Seq<char>>,
    contents: Seq<Seq<char>>,
)
    requires
        g.held matches Some(parts) ==> parts == Seq::<char>::empty(),
        g.pending == Some((when, body)),
        lines.len() == contents.len(),
        forall|i: int| 0 <= i < lines.len() ==> writes(g.held, #[trigger] lines[i], contents[i]),
        forall|i: int| 0 <= i < lines.len() ==> (rules.reads)(#[trigger] contents[i]) is None,
        g.lines + lines.len() <= rules.max_lines,
        byte_len(with_lines(body.message, contents)) <= rules.max_bytes,
    ensures
        gathered_all(rules, g, lines) == (Gathered {
            pending: Some((when, Body { message: with_lines(body.message, contents), ..body })),
            lines: g.lines + lines.len(),
            ..g
        }),
        lines.len() > 0 ==> gathered(
            rules,
            gathered_all(rules, g, lines.drop_last()),
            lines.last(),
        ).1 is None,
    decreases lines.len(),
{
    if lines.len() > 0 {
        let n = lines.len() - 1;
        let had = lines.drop_last();
        let said = contents.drop_last();
        let message = with_lines(body.message, said);
        let line = lines.last();
        let content = contents.last();
        assert(line == lines[n] && content == contents[n]);
        lemma_more_bytes(message, content);
        assert forall|i: int| 0 <= i < had.len() implies writes(g.held, #[trigger] had[i], said[i]) by {
            assert(had[i] == lines[i] && said[i] == contents[i]);
        }
        assert forall|i: int| 0 <= i < had.len() implies (rules.reads)(#[trigger] said[i]) is None by {
            assert(said[i] == contents[i]);
        }
        law_traces_are_merged_in_any_shell(rules, g, when, body, had, said);
        lemma_written(g.held, line, content);
    }
}

proof fn lemma_more_bytes(message: Seq<char>, line: Seq<char>)
    ensures
        byte_len(message.push('\n') + line) == byte_len(message) + 1 + byte_len(line),
{
    lemma_encode_add(message.push('\n'), line);
    assert(message.push('\n') =~= message + seq!['\n']);
    lemma_encode_add(message, seq!['\n']);
    assert(vstd::utf8::is_ascii_chars(seq!['\n']));
    vstd::utf8::is_ascii_chars_encode_utf8(seq!['\n']);
}

/// A line that goes beyond the limits of an event is left out, and the event is as it
/// was: neither is it complete, nor does it lose what it had.
pub proof fn law_long_traces_are_cut(
    rules: Rules,
    g: Gathered,
    when: When,
    body: Body,
    line: Seq<char>,
    content: Seq<char>,
)
    requires
        g.held matches Some(parts) ==> parts == Seq::<char>::empty(),
        g.pending == Some((when, body)),
        writes(g.held, line, content),
        (rules.reads)(content) is None,
        g.lines >= rules.max_lines || byte_len(body.message) + byte_len(content)
            >= rules.max_bytes,
    ensures
        gathered(rules, g, line) == (g, None::<(When, Body)>),
{
    lemma_written(g.held, line, content);
}

/// The last event is taken out with what is held of a line behind it; parts without an
/// event are one of their own, and where nothing is held nothing comes. Nothing is held
/// after that.
pub proof fn law_the_last_event_is_taken_out(g: Gathered)
    ensures
        ({
            let (g1, e) = flushed(g);
            let parts = match g.held {
                Some(parts) => parts,
                None => Seq::empty(),
            };
            &&& g1.pending is None
            &&& g1.lines == 0
            &&& g1.held is Some <==> g.held is Some
            &&& g1.held matches Some(left) ==> left == Seq::<char>::empty()
            &&& match (g.pending, e) {
                (Some((when, body)), Some((when1, body1))) => when1 == when && body1 == (Body {
                    message: if parts.len() == 0 {
                        body.message
                    } else {
                        body.message + seq!['\n'] + parts
                    },
                    ..body
                }),
                (None, Some((when1, body1))) => {
                    &&& parts.len() > 0
                    &&& when1 is Now
                    &&& body1.message == parts
                    &&& body1.fields == Map::<Seq<char>, ValueView>::empty()
                },
                (None, None) => parts.len() == 0,
                (Some(_), None) => false,
            }
        }),
{
    if let (Some((_, body)), Some(parts)) = (g.pending, g.held) {
        assert(body.message.push('\n') + parts =~= body.message + seq!['\n'] + parts);
    }
}

/// Unless it is asked for otherwise, an event takes up to 500 lines and 256 KiB, and a
/// file that is watched is read with these limits and with the parser that it was given,
/// from the offset that it was given.
pub proof fn law_events_have_the_usual_limits<P: Parser>(
    parser: Arc<P>,
    a: Aggregator<P>,
    key: String,
    pod: Option<PodMeta>,
    path: String,
    start: u64,
    format: ContainerFormat,
    shared: StrMap<Value>,
    host: Arc<String>,
    w: Watcher<P>,
    line: Seq<char>,
)
    requires
        call_ensures(Aggregator::<P>::new, (parser,), a),
        call_ensures(Watcher::<P>::new, (key, pod, path, start, parser, format, shared, host), w),
    ensures
        a.rules().max_lines == 500 && a.rules().max_bytes == 262_144,
        w.aggregator.rules().max_lines == 500 && w.aggregator.rules().max_bytes == 262_144,
        (a.rules().reads)(line) == parser.reads(line),
        (w.aggregator.rules().reads)(line) == parser.reads(line),
        a.state() == Gathered::fresh(None),
        w.aggregator.state() == Gathered::fresh(
            match format {
                ContainerFormat::Raw => None,
                ContainerFormat::Cri => Some(Seq::empty()),
            },
        ),
        w.offset == start && w.safe_offset == start && w.buf@ == Seq::<u8>::empty(),
        w.key@ == key@ && w.path@ == path@ && w.pod == pod,
        w.origin().file == path@ && w.origin().host == host@,
{
    assert(w.tail().rest == Seq::<u8>::empty());
}

} // verus!
