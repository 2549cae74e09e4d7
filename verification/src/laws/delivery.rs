//! Reading on after a restart: nothing is lost.

use vstd::prelude::*;

use crate::event::Body;
use crate::parser::aggregate::{flushed, gathered, Gathered, Rules};
use crate::parser::cri::{cri_shell, whole};
use crate::parser::stamp::When;
use crate::source::tail::{begun, cut_short, drained, lemma_line_end, lemma_line_end_unique};
use crate::source::tail::{lemma_line_taken, let_go, line_end, line_taken, line_text, stepped};
use crate::source::tail::{Step, Tailed};

verus! {

/// A file at the start of reading from `at` on, its first bytes read but not taken
/// in yet.
pub open spec fn begun_with(held: Option<Seq<char>>, at: int, bytes: Seq<u8>) -> Tailed {
    Tailed { rest: bytes, ..begun(held, at) }
}

/// How far a file has been read after some steps, and the events that come of
/// them.
pub open spec fn ran(rules: Rules, max: int, t: Tailed, steps: Seq<Step>) -> (
    Tailed,
    Seq<(When, Body)>,
)
    decreases steps.len(),
{
    if steps.len() == 0 {
        (t, Seq::empty())
    } else {
        let (t1, e1) = ran(rules, max, t, steps.drop_last());
        let (t2, e2) = stepped(rules, max, t1, steps.last());
        (t2, e1 + e2)
    }
}

/// All bytes that some steps read.
pub open spec fn bytes_read(steps: Seq<Step>) -> Seq<u8>
    decreases steps.len(),
{
    if steps.len() == 0 {
        Seq::empty()
    } else {
        bytes_read(steps.drop_last()) + match steps.last() {
            Step::Read(chunk) => chunk,
            Step::Flush => Seq::empty(),
        }
    }
}

/// Whether no line is thrown away for its length while something is held.
pub open spec fn lines_fit(rules: Rules, max: int, t: Tailed, steps: Seq<Step>) -> bool
    decreases steps.len(),
{
    steps.len() == 0 || {
        let t1 = ran(rules, max, t, steps.drop_last()).0;
        &&& lines_fit(rules, max, t, steps.drop_last())
        &&& step_fits(rules, max, t1, steps.last())
    }
}

/// The same, of one step.
pub open spec fn step_fits(rules: Rules, max: int, t: Tailed, step: Step) -> bool {
    match step {
        Step::Read(chunk) => {
            let t1 = drained(rules, Tailed { rest: t.rest + chunk, ..t }).0;
            t1.rest.len() <= max || t1.first_held() is None
        },
        Step::Flush => true,
    }
}

/// Whether the next line does not come between the parts of another: it has a shell,
/// or no parts are held.
pub open spec fn line_in_order(t: Tailed) -> bool {
    let text = line_text(t.rest.take(line_end(t.rest)));
    whole(t.gathered.held) || cri_shell(text) !is Missing
}

/// The same, of all lines that have ended.
pub open spec fn lines_in_order(rules: Rules, t: Tailed) -> bool
    decreases t.rest.len(),
    via lines_in_order_decreases
{
    line_end(t.rest) >= t.rest.len() || (line_in_order(t) && lines_in_order(
        rules,
        line_taken(rules, t).0,
    ))
}

#[via_fn]
proof fn lines_in_order_decreases(rules: Rules, t: Tailed) {
    lemma_line_end(t.rest);
}

/// The same, of all lines of some steps.
pub open spec fn in_order(rules: Rules, max: int, t: Tailed, steps: Seq<Step>) -> bool
    decreases steps.len(),
{
    steps.len() == 0 || {
        let t1 = ran(rules, max, t, steps.drop_last()).0;
        &&& in_order(rules, max, t, steps.drop_last())
        &&& step_in_order(rules, t1, steps.last())
    }
}

/// The same, of one step.
pub open spec fn step_in_order(rules: Rules, t: Tailed, step: Step) -> bool {
    match step {
        Step::Read(chunk) => lines_in_order(rules, Tailed { rest: t.rest + chunk, ..t }),
        Step::Flush => true,
    }
}

/// It does not matter how the bytes of a file are cut up when they are read: taking
/// in `a` and then `b` is the same as taking in both at once.
pub proof fn law_chunks_do_not_matter(rules: Rules, t: Tailed, a: Seq<u8>, b: Seq<u8>)
    ensures
        ({
            let (t1, e1) = drained(rules, Tailed { rest: a, ..t });
            let (t2, e2) = drained(rules, Tailed { rest: t1.rest + b, ..t1 });
            drained(rules, Tailed { rest: a + b, ..t }) == (t2, e1 + e2)
        }),
    decreases a.len(),
{
    lemma_line_end(a);
    let end = line_end(a);
    let ta = Tailed { rest: a, ..t };
    let tab = Tailed { rest: a + b, ..t };
    if end >= a.len() {
        assert(Seq::<(When, Body)>::empty() + drained(rules, tab).1 =~= drained(rules, tab).1);
    } else {
        assert forall|i: int| 0 <= i < end implies #[trigger] (a + b)[i] != 10 by {
            assert((a + b)[i] == a[i]);
        }
        lemma_line_end_unique(a + b, end);
        assert((a + b).take(end) =~= a.take(end));
        assert((a + b).skip(end + 1) =~= a.skip(end + 1) + b);
        let (na, ea) = line_taken(rules, ta);
        let (nab, eab) = line_taken(rules, tab);
        assert(nab == Tailed { rest: na.rest + b, ..na });
        law_chunks_do_not_matter(rules, na, na.rest, b);
        let (t1, e1) = drained(rules, na);
        let (t2, e2) = drained(rules, Tailed { rest: t1.rest + b, ..t1 });
        assert(ea + (e1 + e2) =~= (ea + e1) + e2);
    }
}

/// What is held has the shape that it began with, and counts no lines where there
/// is no event.
spec fn shaped(held: Option<Seq<char>>, g: Gathered) -> bool {
    &&& held is Some <==> g.held is Some
    &&& g.pending is None ==> g.lines == 0
}

/// `content` are the bytes from `from` on, as far as they were read.
spec fn tracks(content: Seq<u8>, from: int, t: Tailed) -> bool {
    &&& t.wf()
    &&& from <= t.safe
    &&& content.len() == t.offset - from + t.rest.len()
    &&& content.skip(t.offset - from) == t.rest
}

/// What comes of reading anew from `at` up to `to`.
spec fn again(
    rules: Rules,
    held: Option<Seq<char>>,
    content: Seq<u8>,
    from: int,
    at: int,
    to: int,
) -> (Tailed, Seq<(When, Body)>) {
    drained(rules, begun_with(held, at, content.subrange(at - from, to - from)))
}

/// Reading anew from the safe offset gives what is held, and no event where lines
/// came in order.
spec fn resumes(
    rules: Rules,
    held: Option<Seq<char>>,
    content: Seq<u8>,
    from: int,
    t: Tailed,
    ordered: bool,
) -> bool {
    let (ta, ea) = again(rules, held, content, from, t.safe, t.offset);
    &&& ta == Tailed { rest: Seq::empty(), ..t }
    &&& ordered ==> ea == Seq::<(When, Body)>::empty()
}

/// Reading anew from the first part that is held gives all the parts, and no event
/// that was not there.
spec fn parts_resume(
    rules: Rules,
    held: Option<Seq<char>>,
    content: Seq<u8>,
    from: int,
    t: Tailed,
    ordered: bool,
) -> bool {
    t.parts_at matches Some(at) ==> {
        let (ta, ea) = again(rules, held, content, from, at, t.offset);
        &&& ta.wf()
        &&& shaped(held, ta.gathered)
        &&& ta.gathered.held == t.gathered.held
        &&& ta.parts_at == Some(at)
        &&& ta.safe == at
        &&& ta.offset == t.offset
        &&& ta.rest == Seq::<u8>::empty()
        &&& t.gathered.pending is None ==> ta.gathered.pending is None
        &&& ordered ==> ta.gathered.pending is None && ea == Seq::<(When, Body)>::empty()
    }
}

/// A single line, taken in at once.
proof fn lemma_one_line(rules: Rules, t: Tailed, line: Seq<u8>)
    requires
        line.len() > 0,
        line_end(line) == line.len() - 1,
    ensures
        ({
            let (t1, es) = line_taken(rules, Tailed { rest: line, ..t });
            &&& drained(rules, Tailed { rest: line, ..t }) == (t1, es)
            &&& t1.rest == Seq::<u8>::empty()
        }),
{
    let ta = Tailed { rest: line, ..t };
    let (t1, es) = line_taken(rules, ta);
    assert(line.skip(line.len() as int) =~= Seq::<u8>::empty());
    assert(es + Seq::<(When, Body)>::empty() =~= es);
    assert(drained(rules, t1) == (t1, Seq::<(When, Body)>::empty()));
}

/// Reading anew goes on line by line.
proof fn lemma_again(
    rules: Rules,
    held: Option<Seq<char>>,
    content: Seq<u8>,
    from: int,
    at: int,
    mid: int,
    to: int,
)
    requires
        from <= at <= mid < to <= from + content.len(),
        line_end(content.subrange(mid - from, to - from)) == to - mid - 1,
        again(rules, held, content, from, at, mid).0.rest == Seq::<u8>::empty(),
    ensures
        ({
            let line = content.subrange(mid - from, to - from);
            let (ta, ea) = again(rules, held, content, from, at, mid);
            let (tb, eb) = line_taken(rules, Tailed { rest: line, ..ta });
            &&& again(rules, held, content, from, at, to) == (tb, ea + eb)
            &&& tb.rest == Seq::<u8>::empty()
        }),
{
    let before = content.subrange(at - from, mid - from);
    let line = content.subrange(mid - from, to - from);
    assert(before + line =~= content.subrange(at - from, to - from));
    law_chunks_do_not_matter(rules, begun(held, at), before, line);
    let ta = again(rules, held, content, from, at, mid).0;
    assert(ta.rest + line =~= line);
    lemma_one_line(rules, ta, line);
}

/// Nothing held is how reading begins.
proof fn lemma_at_rest(held: Option<Seq<char>>, t: Tailed)
    requires
        whole(held),
        t.wf(),
        shaped(held, t.gathered),
        t.first_held() is None,
    ensures
        t.gathered == Gathered::fresh(held),
{
    if let Some(parts) = t.gathered.held {
        assert(parts =~= held->0);
    }
}

proof fn lemma_line_resumes(
    rules: Rules,
    held: Option<Seq<char>>,
    content: Seq<u8>,
    from: int,
    t: Tailed,
    ordered: bool,
)
    requires
        whole(held),
        shaped(held, t.gathered),
        tracks(content, from, t),
        resumes(rules, held, content, from, t, ordered),
        parts_resume(rules, held, content, from, t, ordered),
        line_end(t.rest) < t.rest.len(),
    ensures
        ({
            let t1 = line_taken(rules, t).0;
            let in_order = ordered && line_in_order(t);
            &&& resumes(rules, held, content, from, t1, in_order)
            &&& parts_resume(rules, held, content, from, t1, in_order)
        }),
{
    lemma_line_end(t.rest);
    let end = line_end(t.rest);
    let text = line_text(t.rest.take(end));
    let (t1, es) = line_taken(rules, t);
    let (g, e) = gathered(rules, t.gathered, text);
    let line = t.rest.take(end + 1);
    assert forall|i: int| 0 <= i < end implies #[trigger] line[i] != 10 by {
        assert(line[i] == t.rest[i]);
    }
    lemma_line_end_unique(line, end);
    assert(line.take(end) =~= t.rest.take(end));
    assert(line =~= content.subrange(t.offset - from, t1.offset - from));
    lemma_line_taken(rules, t);
    let none = Seq::<(When, Body)>::empty();
    assert(none + none =~= none);
    assert(content.subrange(t.offset - from, t.offset - from) =~= Seq::<u8>::empty());
    match t.parts_at {
        Some(at) => {
            let ta = again(rules, held, content, from, at, t.offset).0;
            lemma_again(rules, held, content, from, at, t.offset, t1.offset);
            lemma_line_taken(rules, Tailed { rest: line, ..ta });
        },
        None => {
            if let Some(parts) = t.gathered.held {
                assert(parts =~= held->0);
            }
            lemma_again(rules, held, content, from, t.offset, t.offset, t1.offset);
            lemma_line_taken(rules, begun_with(held, t.offset, line));
        },
    }
    if e is None {
        lemma_again(rules, held, content, from, t.safe, t.offset, t1.offset);
        assert(Tailed { rest: line, ..(Tailed { rest: Seq::empty(), ..t }) } == Tailed {
            rest: line,
            ..t
        });
    } else if t1.first_held() is None {
        lemma_shaped(rules, held, t.gathered, text);
        lemma_at_rest(held, t1);
        assert(content.subrange(t1.safe - from, t1.offset - from) =~= Seq::<u8>::empty());
    }
}

proof fn lemma_shaped(rules: Rules, held: Option<Seq<char>>, g: Gathered, line: Seq<char>)
    requires
        shaped(held, g),
    ensures
        shaped(held, gathered(rules, g, line).0),
{
}

proof fn lemma_lines_track(
    rules: Rules,
    held: Option<Seq<char>>,
    content: Seq<u8>,
    from: int,
    t: Tailed,
)
    requires
        shaped(held, t.gathered),
        tracks(content, from, t),
    ensures
        ({
            let t1 = drained(rules, t).0;
            &&& shaped(held, t1.gathered)
            &&& tracks(content, from, t1)
            &&& line_end(t1.rest) >= t1.rest.len()
            &&& t.safe <= t1.safe
            &&& t.offset <= t1.offset
        }),
    decreases t.rest.len(),
{
    lemma_line_end(t.rest);
    let end = line_end(t.rest);
    if end < t.rest.len() {
        let t1 = line_taken(rules, t).0;
        lemma_line_taken(rules, t);
        lemma_shaped(rules, held, t.gathered, line_text(t.rest.take(end)));
        assert(content.skip(t1.offset - from) =~= t1.rest);
        lemma_lines_track(rules, held, content, from, t1);
    }
}

proof fn lemma_lines_resume(
    rules: Rules,
    held: Option<Seq<char>>,
    content: Seq<u8>,
    from: int,
    t: Tailed,
    ordered: bool,
)
    requires
        whole(held),
        shaped(held, t.gathered),
        tracks(content, from, t),
        resumes(rules, held, content, from, t, ordered),
        parts_resume(rules, held, content, from, t, ordered),
    ensures
        ({
            let t1 = drained(rules, t).0;
            let in_order = ordered && lines_in_order(rules, t);
            &&& resumes(rules, held, content, from, t1, in_order)
            &&& parts_resume(rules, held, content, from, t1, in_order)
        }),
    decreases t.rest.len(),
{
    lemma_line_end(t.rest);
    let end = line_end(t.rest);
    if end < t.rest.len() {
        let t1 = line_taken(rules, t).0;
        lemma_line_resumes(rules, held, content, from, t, ordered);
        lemma_line_taken(rules, t);
        lemma_shaped(rules, held, t.gathered, line_text(t.rest.take(end)));
        assert(content.skip(t1.offset - from) =~= t1.rest);
        lemma_lines_resume(rules, held, content, from, t1, ordered && line_in_order(t));
    }
}

/// What holds after all steps; where all lines fit, reading can start anew.
spec fn in_step(
    rules: Rules,
    held: Option<Seq<char>>,
    content: Seq<u8>,
    from: int,
    t: Tailed,
    fits: bool,
    ordered: bool,
) -> bool {
    &&& shaped(held, t.gathered)
    &&& tracks(content, from, t)
    &&& line_end(t.rest) >= t.rest.len()
    &&& fits ==> resumes(rules, held, content, from, t, ordered)
    &&& fits ==> parts_resume(rules, held, content, from, t, ordered)
}

proof fn lemma_step(
    rules: Rules,
    max: int,
    held: Option<Seq<char>>,
    content: Seq<u8>,
    from: int,
    t: Tailed,
    step: Step,
    fits: bool,
    ordered: bool,
)
    requires
        whole(held),
        max >= 0,
        in_step(rules, held, content, from, t, fits, ordered),
    ensures
        ({
            let t1 = stepped(rules, max, t, step).0;
            let all = content + match step {
                Step::Read(chunk) => chunk,
                Step::Flush => Seq::empty(),
            };
            &&& in_step(
                rules,
                held,
                all,
                from,
                t1,
                fits && step_fits(rules, max, t, step),
                ordered && step_in_order(rules, t, step),
            )
            &&& t.safe <= t1.safe
            &&& t.offset <= t1.offset
        }),
{
    match step {
        Step::Read(chunk) => {
            let all = content + chunk;
            let t0 = Tailed { rest: t.rest + chunk, ..t };
            assert(all.skip(t.offset - from) =~= t0.rest);
            assert(all.subrange(t.safe - from, t.offset - from) =~= content.subrange(
                t.safe - from,
                t.offset - from,
            ));
            if let Some(at) = t.parts_at {
                assert(all.subrange(at - from, t.offset - from) =~= content.subrange(
                    at - from,
                    t.offset - from,
                ));
            }
            lemma_lines_track(rules, held, all, from, t0);
            if fits {
                lemma_lines_resume(rules, held, all, from, t0, ordered);
            }
            let t1 = drained(rules, t0).0;
            let t2 = cut_short(t1, max);
            if t1.rest.len() > max {
                assert(all.skip(t2.offset - from) =~= Seq::<u8>::empty());
                if t1.first_held() is None {
                    lemma_at_rest(held, t1);
                    assert(all.subrange(t2.safe - from, t2.offset - from) =~= Seq::<u8>::empty());
                }
            }
        },
        Step::Flush => {
            let all = content + Seq::<u8>::empty();
            assert(all =~= content);
            let t1 = stepped(rules, max, t, step).0;
            if t.first_held() is None {
                lemma_at_rest(held, t);
                assert(flushed(t.gathered).0 == t.gathered) by {
                    if let Some(parts) = t.gathered.held {
                        assert(parts =~= Seq::<char>::empty());
                    }
                }
                assert(t1 == t);
            } else {
                assert(flushed(t.gathered).1 is Some);
                lemma_at_rest(held, t1);
                assert(content.subrange(t1.safe - from, t1.offset - from) =~= Seq::<u8>::empty());
            }
        },
    }
}

proof fn lemma_ran(
    rules: Rules,
    max: int,
    held: Option<Seq<char>>,
    from: int,
    steps: Seq<Step>,
)
    requires
        whole(held),
        max >= 0,
    ensures
        in_step(
            rules,
            held,
            bytes_read(steps),
            from,
            ran(rules, max, begun(held, from), steps).0,
            lines_fit(rules, max, begun(held, from), steps),
            in_order(rules, max, begun(held, from), steps),
        ),
    decreases steps.len(),
{
    if steps.len() == 0 {
        assert(Seq::<u8>::empty().subrange(0, 0) =~= Seq::<u8>::empty());
        assert(Seq::<u8>::empty().skip(0) =~= Seq::<u8>::empty());
    } else {
        lemma_ran(rules, max, held, from, steps.drop_last());
        lemma_step(
            rules,
            max,
            held,
            bytes_read(steps.drop_last()),
            from,
            ran(rules, max, begun(held, from), steps.drop_last()).0,
            steps.last(),
            lines_fit(rules, max, begun(held, from), steps.drop_last()),
            in_order(rules, max, begun(held, from), steps.drop_last()),
        );
    }
}

/// Whatever is read, the safe offset never passes the first line that went into what
/// is held, be it an event that more lines may follow to or parts of a line that has
/// not ended: a reader that starts anew at the safe offset reads all of it again.
///
/// `held` is nothing for lines without a shell, and no text for lines in one.
pub proof fn law_held_lines_are_not_passed(
    rules: Rules,
    max: int,
    held: Option<Seq<char>>,
    from: int,
    steps: Seq<Step>,
)
    requires
        whole(held),
        max >= 0,
    ensures
        ({
            let t = ran(rules, max, begun(held, from), steps).0;
            &&& t.gathered.pending is Some ==> t.event_at is Some && t.safe <= t.event_at->0
            &&& !whole(t.gathered.held) ==> t.parts_at is Some && t.safe <= t.parts_at->0
            &&& from <= t.safe <= t.offset
        }),
{
    lemma_ran(rules, max, held, from, steps);
}

/// A reader that starts anew at the safe offset and reads what the one before it
/// had read holds what that one held.
///
/// `held` is nothing for lines without a shell, and no text for lines in one.
pub proof fn law_a_restart_goes_on(
    rules: Rules,
    max: int,
    held: Option<Seq<char>>,
    from: int,
    steps: Seq<Step>,
)
    requires
        whole(held),
        max >= 0,
        lines_fit(rules, max, begun(held, from), steps),
    ensures
        ({
            let t = ran(rules, max, begun(held, from), steps).0;
            &&& from <= t.safe <= t.offset
            &&& drained(
                rules,
                begun_with(held, t.safe, bytes_read(steps).skip(t.safe - from)),
            ).0 == t
        }),
{
    lemma_restart(rules, max, held, from, steps);
}

proof fn lemma_restart(
    rules: Rules,
    max: int,
    held: Option<Seq<char>>,
    from: int,
    steps: Seq<Step>,
)
    requires
        whole(held),
        max >= 0,
        lines_fit(rules, max, begun(held, from), steps),
    ensures
        ({
            let t = ran(rules, max, begun(held, from), steps).0;
            let (t1, es) = drained(
                rules,
                begun_with(held, t.safe, bytes_read(steps).skip(t.safe - from)),
            );
            &&& from <= t.safe <= t.offset
            &&& t1 == t
            &&& in_order(rules, max, begun(held, from), steps) ==> es == Seq::<
                (When, Body),
            >::empty()
        }),
{
    lemma_ran(rules, max, held, from, steps);
    let content = bytes_read(steps);
    let t = ran(rules, max, begun(held, from), steps).0;
    let before = content.subrange(t.safe - from, t.offset - from);
    assert(content.skip(t.safe - from) =~= before + t.rest);
    law_chunks_do_not_matter(rules, begun(held, t.safe), before, t.rest);
    assert(Seq::<u8>::empty() + t.rest =~= t.rest);
    assert(drained(rules, t) == (t, Seq::<(When, Body)>::empty()));
    let es = again(rules, held, content, from, t.safe, t.offset).1;
    assert(es + Seq::<(When, Body)>::empty() =~= es);
}

/// Delivery is at least once: whatever is in the file later, a reader that starts
/// anew at the safe offset sends all events that the one before it would still
/// have sent, and comes to hold the same. What it sends before them comes of lines
/// that had been read before.
///
/// `held` is nothing for lines without a shell, and no text for lines in one.
pub proof fn law_nothing_is_lost(
    rules: Rules,
    max: int,
    held: Option<Seq<char>>,
    from: int,
    steps: Seq<Step>,
    later: Seq<u8>,
)
    requires
        whole(held),
        max >= 0,
        lines_fit(rules, max, begun(held, from), steps),
    ensures
        ({
            let t = ran(rules, max, begun(held, from), steps).0;
            let before = bytes_read(steps).skip(t.safe - from);
            let repeated = drained(rules, begun_with(held, t.safe, before)).1;
            let (t1, es) = drained(rules, Tailed { rest: t.rest + later, ..t });
            drained(rules, begun_with(held, t.safe, before + later)) == (t1, repeated + es)
        }),
{
    lemma_restart(rules, max, held, from, steps);
    let t = ran(rules, max, begun(held, from), steps).0;
    let before = bytes_read(steps).skip(t.safe - from);
    law_chunks_do_not_matter(rules, begun(held, t.safe), before, later);
}

/// Where lines have no shell, or none without one comes between the parts of
/// another, nothing is sent twice either: what a reader that starts anew sends is
/// just what the one before it would still have sent.
///
/// `held` is nothing for lines without a shell, and no text for lines in one.
pub proof fn law_nothing_is_sent_twice(
    rules: Rules,
    max: int,
    held: Option<Seq<char>>,
    from: int,
    steps: Seq<Step>,
    later: Seq<u8>,
)
    requires
        whole(held),
        max >= 0,
        lines_fit(rules, max, begun(held, from), steps),
        held is None || in_order(rules, max, begun(held, from), steps),
    ensures
        ({
            let t = ran(rules, max, begun(held, from), steps).0;
            drained(
                rules,
                begun_with(held, t.safe, bytes_read(steps).skip(t.safe - from) + later),
            ) == drained(rules, Tailed { rest: t.rest + later, ..t })
        }),
{
    if held is None {
        lemma_plain_steps(rules, max, from, steps);
    }
    lemma_restart(rules, max, held, from, steps);
    law_nothing_is_lost(rules, max, held, from, steps, later);
    let t = ran(rules, max, begun(held, from), steps).0;
    let es = drained(rules, Tailed { rest: t.rest + later, ..t }).1;
    assert(Seq::<(When, Body)>::empty() + es =~= es);
}

/// Lines without a shell are always in order.
proof fn lemma_plain_steps(rules: Rules, max: int, from: int, steps: Seq<Step>)
    requires
        max >= 0,
    ensures
        in_order(rules, max, begun(None, from), steps),
    decreases steps.len(),
{
    if steps.len() > 0 {
        let before = steps.drop_last();
        lemma_plain_steps(rules, max, from, before);
        lemma_ran(rules, max, None, from, before);
        let t = ran(rules, max, begun(None, from), before).0;
        if let Step::Read(chunk) = steps.last() {
            lemma_plain_lines(rules, Tailed { rest: t.rest + chunk, ..t });
        }
    }
}

proof fn lemma_plain_lines(rules: Rules, t: Tailed)
    requires
        t.gathered.held is None,
    ensures
        lines_in_order(rules, t),
    decreases t.rest.len(),
{
    lemma_line_end(t.rest);
    if line_end(t.rest) < t.rest.len() {
        lemma_plain_lines(rules, line_taken(rules, t).0);
    }
}

/// When a file is let go nothing that was read of it is left behind: what is given
/// out is what would have come if its last line had ended and the last event had
/// waited long enough, and after that nothing is held.
pub proof fn law_nothing_is_left_behind(rules: Rules, t: Tailed)
    requires
        line_end(t.rest) >= t.rest.len(),
    ensures
        ({
            let (t1, es) = let_go(rules, t);
            let (t2, e2) = if t.rest.len() == 0 {
                (t, Seq::<(When, Body)>::empty())
            } else {
                drained(rules, Tailed { rest: t.rest.push(10), ..t })
            };
            &&& es == e2 + stepped(rules, 0, t2, Step::Flush).1
            &&& t1.gathered.pending is None
            &&& whole(t1.gathered.held)
            &&& t1.wf()
            &&& t1.rest == Seq::<u8>::empty()
            &&& t1.safe == t.offset + t.rest.len()
        }),
{
    let ended = t.rest.push(10);
    lemma_line_end(t.rest);
    if t.rest.len() > 0 {
        let t0 = Tailed { rest: ended, ..t };
        assert forall|i: int| 0 <= i < t.rest.len() implies #[trigger] ended[i] != 10 by {
            assert(ended[i] == t.rest[i]);
        }
        lemma_line_end_unique(ended, t.rest.len() as int);
        lemma_one_line(rules, t, ended);
        assert(ended.take(t.rest.len() as int) =~= t.rest);
    }
}

/// The safe offset never goes back, never passes what has been read, and what is
/// read never goes back either.
pub proof fn law_offsets_grow(
    rules: Rules,
    max: int,
    held: Option<Seq<char>>,
    from: int,
    steps: Seq<Step>,
    step: Step,
)
    requires
        whole(held),
        max >= 0,
    ensures
        ({
            let t = ran(rules, max, begun(held, from), steps).0;
            let t1 = stepped(rules, max, t, step).0;
            &&& from <= t.safe <= t1.safe <= t1.offset
            &&& t.offset <= t1.offset
        }),
{
    lemma_ran(rules, max, held, from, steps);
    let t = ran(rules, max, begun(held, from), steps).0;
    lemma_step(rules, max, held, bytes_read(steps), from, t, step, false, false);
}

} // verus!
