//! Reading lines.

use vstd::arithmetic::div_mod::{lemma_fundamental_div_mod, lemma_fundamental_div_mod_converse};
use vstd::arithmetic::div_mod::lemma_small_mod;
use vstd::prelude::*;
use vstd::utf8::*;

use crate::event::Body;
use crate::parser::api::Parser;
use crate::parser::access::{gin_reads, nginx_reads};
use crate::parser::aggregate::{gathered, Gathered, Rules};
use crate::parser::chain::{first_reads, formats_read, BoxedParser, LogFormat};
use crate::parser::cri::{cri_shell, decoded, Decoded, Shell};
use crate::parser::ids::{all_hex, is_hex, lower, lowered, normal_id, zeros};
use crate::parser::stamp::{clf_offset, clf_stamp, clf_wall, field, fraction, number, pow10, stamp, When};
use crate::text::{byte_len, is_space, lemma_encode_add, lemma_last_scan};
use crate::text::{lemma_scan, padded, trimmed, trimmed_end, trimmed_start, Stop};
use crate::value::ValueView;
use crate::time::{rfc3339_instant, wall_clock, Timestamp};

verus! {

/// A time in whole milliseconds.
pub open spec fn whole_millis(ts: Timestamp) -> Timestamp {
    Timestamp { nano: (ts.nano / 1_000_000 * 1_000_000) as u32, ..ts }
}

proof fn lemma_last_digit(n: nat, m: nat)
    requires
        m > 0,
    ensures
        (n / 10) % m * 10 + n % 10 == n % (10 * m),
{
    let q = (n / 10) / m;
    let r = (n / 10) % m;
    lemma_fundamental_div_mod((n / 10) as int, m as int);
    assert(10 * (m * q) == q * (10 * m)) by (nonlinear_arith);
    lemma_fundamental_div_mod_converse(
        n as int,
        (10 * m) as int,
        q as int,
        (r * 10 + n % 10) as int,
    );
}

pub proof fn lemma_padded(n: nat, width: nat)
    ensures
        padded(n, width).len() == width,
        forall|i: int|
            0 <= i < width ==> '0' <= #[trigger] padded(n, width)[i] <= '9',
        forall|b: Seq<u8>|
            b.len() == width && (forall|i: int|
                0 <= i < width ==> #[trigger] b[i] == padded(n, width)[i] as u8) ==> #[trigger] number(b)
                == Some(n % pow10(width)),
    decreases width,
{
    if width > 0 {
        let w = (width - 1) as nat;
        lemma_padded(n / 10, w);
        let p = padded(n, width);
        assert(p.drop_last() =~= padded(n / 10, w));
        assert forall|i: int| 0 <= i < width implies '0' <= #[trigger] p[i] <= '9' by {
            if i < w {
                assert(p[i] == padded(n / 10, w)[i]);
            }
        }
        assert forall|b: Seq<u8>|
            b.len() == width && (forall|i: int|
                0 <= i < width ==> #[trigger] b[i] == p[i] as u8) implies #[trigger] number(b)
            == Some(n % pow10(width)) by {
            let c = b.drop_last();
            assert forall|i: int| 0 <= i < w implies #[trigger] c[i] == padded(n / 10, w)[i] as u8 by {
                assert(c[i] == b[i]);
                assert(p[i] == padded(n / 10, w)[i]);
            }
            assert(number(c) == Some((n / 10) % pow10(w)));
            assert(b.last() == p[w as int] as u8);
            assert(b.last() == '0' as u8 + n % 10);
            let m = pow10(w);
            lemma_pow10_positive(w);
            lemma_last_digit(n, m);
        }
    } else {
        assert forall|b: Seq<u8>| b.len() == 0 implies #[trigger] number(b) == Some(n % pow10(0)) by {
            assert(n % 1 == 0);
        }
    }
}

proof fn lemma_pow10_positive(n: nat)
    ensures
        pow10(n) > 0,
    decreases n,
{
    if n > 0 {
        lemma_pow10_positive((n - 1) as nat);
    }
}

/// A number of fixed width inside a text is read back from its bytes.
pub proof fn lemma_field(s: Seq<char>, at: int, n: nat, width: nat)
    requires
        is_ascii_chars(s),
        0 <= at,
        at + width <= s.len(),
        s.subrange(at, at + width) == padded(n, width),
        n < pow10(width),
    ensures
        field(encode_utf8(s), at, at + width) == Some(n),
{
    is_ascii_chars_encode_utf8(s);
    lemma_padded(n, width);
    let b = encode_utf8(s).subrange(at, at + width);
    assert forall|i: int| 0 <= i < width implies #[trigger] b[i] == padded(n, width)[i] as u8 by {
        assert(padded(n, width)[i] == s[at + i]);
        assert(s[at + i] as u8 == encode_utf8(s)[at + i]);
    }
    assert(n % pow10(width) == n) by {
        lemma_small_mod(n, pow10(width));
    }
}

/// What the bytes of a written time are.
pub proof fn lemma_wall_clock(ts: Timestamp)
    requires
        ts.wf(),
        0 <= ts.year <= 9999,
        ts.nano < 1_000_000_000,
    ensures
        wall_clock(ts).len() == 23,
        ({
            let b = encode_utf8(wall_clock(ts));
            &&& b.len() == 23
            &&& field(b, 0, 4) == Some(ts.year as nat)
            &&& b[4] == '-' as u8
            &&& field(b, 5, 7) == Some(ts.month as nat)
            &&& b[7] == '-' as u8
            &&& field(b, 8, 10) == Some(ts.day as nat)
            &&& b[10] == ' ' as u8
            &&& field(b, 11, 13) == Some(ts.hour as nat)
            &&& b[13] == ':' as u8
            &&& field(b, 14, 16) == Some(ts.minute as nat)
            &&& b[16] == ':' as u8
            &&& field(b, 17, 19) == Some(ts.second as nat)
            &&& b[19] == '.' as u8
            &&& field(b, 20, 23) == Some((ts.nano / 1_000_000) as nat)
        }),
{
    let s = wall_clock(ts);
    let ms = (ts.nano / 1_000_000 % 1000) as nat;
    reveal_with_fuel(pow10, 8);
    assert(ts.nano / 1_000_000_000 == 0);
    lemma_padded(ts.year as nat, 4);
    lemma_padded(ts.month as nat, 2);
    lemma_padded(ts.day as nat, 2);
    lemma_padded(ts.hour as nat, 2);
    lemma_padded(ts.minute as nat, 2);
    lemma_padded(ts.second as nat, 2);
    lemma_padded(ms, 3);
    assert(s.len() == 23);
    assert(s.subrange(0, 4) =~= padded(ts.year as nat, 4));
    assert(s.subrange(5, 7) =~= padded(ts.month as nat, 2));
    assert(s.subrange(8, 10) =~= padded(ts.day as nat, 2));
    assert(s.subrange(11, 13) =~= padded(ts.hour as nat, 2));
    assert(s.subrange(14, 16) =~= padded(ts.minute as nat, 2));
    assert(s.subrange(17, 19) =~= padded(ts.second as nat, 2));
    assert(s.subrange(20, 23) =~= padded(ms, 3));
    assert forall|i: int| 0 <= i < s.len() implies (#[trigger] s[i] as u32) < 128 by {
        if i < 4 {
            assert(s[i] == padded(ts.year as nat, 4)[i]);
        } else if 5 <= i < 7 {
            assert(s[i] == padded(ts.month as nat, 2)[i - 5]);
        } else if 8 <= i < 10 {
            assert(s[i] == padded(ts.day as nat, 2)[i - 8]);
        } else if 11 <= i < 13 {
            assert(s[i] == padded(ts.hour as nat, 2)[i - 11]);
        } else if 14 <= i < 16 {
            assert(s[i] == padded(ts.minute as nat, 2)[i - 14]);
        } else if 17 <= i < 19 {
            assert(s[i] == padded(ts.second as nat, 2)[i - 17]);
        } else if 20 <= i {
            assert(s[i] == padded(ms, 3)[i - 20]);
        }
    }
    assert(is_ascii_chars(s));
    is_ascii_chars_encode_utf8(s);
    lemma_field(s, 0, ts.year as nat, 4);
    lemma_field(s, 5, ts.month as nat, 2);
    lemma_field(s, 8, ts.day as nat, 2);
    lemma_field(s, 11, ts.hour as nat, 2);
    lemma_field(s, 14, ts.minute as nat, 2);
    lemma_field(s, 17, ts.second as nat, 2);
    lemma_field(s, 20, ms, 3);
    let b = encode_utf8(s);
    assert(s[4] == '-' && s[7] == '-' && s[10] == ' ' && s[13] == ':' && s[16] == ':' && s[19]
        == '.');
}

/// The time that is stored is the one in the log: what is written of a time is
/// read back as that time, cut to milliseconds.
pub proof fn law_times_are_read_back(ts: Timestamp)
    requires
        ts.wf(),
        0 <= ts.year <= 9999,
        ts.nano < 1_000_000_000,
    ensures
        stamp(encode_utf8(wall_clock(ts))) == Some(whole_millis(ts)),
{
    lemma_wall_clock(ts);
    reveal_with_fuel(pow10, 8);
    let b = encode_utf8(wall_clock(ts));
    let ms = (ts.nano / 1_000_000) as nat;
    let f = b.skip(19);
    assert(f.skip(1) =~= b.subrange(20, 23));
    assert(f[0] == b[19]);
    assert(fraction(f) == Some(ms * 1_000_000));
}

/// Two writings of one moment are one time: what they are read as does not depend on
/// the offset that they are written with, only on this machine's clock.
pub proof fn law_one_moment_is_one_time(a: Seq<u8>, b: Seq<u8>, x: int, y: int)
    requires
        clf_wall(a) is Some,
        clf_wall(b) is Some,
        a.len() > 20,
        b.len() > 20,
        clf_offset(a.skip(20)) == Some(x),
        clf_offset(b.skip(20)) == Some(y),
        -86400 < x < 86400,
        -86400 < y < 86400,
        clf_wall(a)->0.epoch_seconds() - x == clf_wall(b)->0.epoch_seconds() - y,
    ensures
        clf_stamp(a) is Some,
        clf_stamp(a) == clf_stamp(b),
        clf_stamp(a)->0 is At,
{
}

/// Milliseconds count the same behind a comma as behind a point.
pub proof fn law_comma_or_point(b: Seq<u8>)
    requires
        b.len() > 19,
        b[19] == '.' as u8,
    ensures
        stamp(b.update(19, ',' as u8)) == stamp(b),
{
    let c = b.update(19, ',' as u8);
    assert(c.subrange(0, 4) =~= b.subrange(0, 4));
    assert(c.subrange(5, 7) =~= b.subrange(5, 7));
    assert(c.subrange(8, 10) =~= b.subrange(8, 10));
    assert(c.subrange(11, 13) =~= b.subrange(11, 13));
    assert(c.subrange(14, 16) =~= b.subrange(14, 16));
    assert(c.subrange(17, 19) =~= b.subrange(17, 19));
    assert(c.skip(19).skip(1) =~= b.skip(19).skip(1));
}

/// What is trimmed stays as it is when it is trimmed again.
pub proof fn lemma_trimmed(s: Seq<char>)
    ensures
        trimmed(trimmed(s)) == trimmed(s),
        trimmed(s).len() > 0 ==> !is_space(trimmed(s)[0]) && !is_space(trimmed(s).last()),
{
    let a = trimmed_start(s);
    lemma_scan(s, Stop::NonSpace);
    lemma_last_scan(a, Stop::NonSpace);
    let t = trimmed_end(a);
    if t.len() > 0 {
        lemma_scan(t, Stop::NonSpace);
        lemma_last_scan(t, Stop::NonSpace);
        assert(t[0] == a[0]);
        assert(trimmed_start(t) =~= t);
        assert(trimmed_end(t) =~= t);
    }
}

/// An id is written one way: bringing it into that writing twice is the same as
/// once.
pub proof fn law_ids_have_one_writing(raw: Seq<char>, width: int)
    ensures
        normal_id(normal_id(raw, width), width) == normal_id(raw, width),
{
    let id = trimmed(raw);
    let n = normal_id(raw, width);
    lemma_trimmed(raw);
    if n.len() == 0 {
        lemma_trimmed(n);
        lemma_last_scan(Seq::<char>::empty(), Stop::NonSpace);
        assert(trimmed(n).len() == 0);
        assert(n =~= Seq::<char>::empty());
    } else if all_hex(id) && id.len() > 0 {
        assert forall|i: int| 0 <= i < n.len() implies is_hex(#[trigger] n[i]) && lower(n[i])
            == n[i] by {
            if id.len() == 16 && width == 32 {
                if i >= 16 {
                    assert(is_hex(id[i - 16]));
                }
            } else {
                assert(is_hex(id[i]));
            }
        }
        lemma_hex_is_trimmed(n);
        assert(lowered(n) =~= n);
    }
}

proof fn lemma_hex_is_trimmed(s: Seq<char>)
    requires
        all_hex(s),
    ensures
        trimmed(s) == s,
{
    lemma_scan(s, Stop::NonSpace);
    lemma_last_scan(s, Stop::NonSpace);
    if s.len() > 0 {
        assert(is_hex(s[0]));
        assert(is_hex(s[s.len() - 1]));
        assert(trimmed_start(s) =~= s);
        assert(trimmed_end(s) =~= s);
    } else {
        assert(trimmed_start(s) =~= s);
        assert(trimmed_end(s) =~= s);
    }
}

/// Upper and lower case make no difference to an id of hexadecimal digits.
pub proof fn law_ids_ignore_case(raw: Seq<char>, width: int)
    requires
        all_hex(raw),
        raw.len() > 0,
    ensures
        normal_id(lowered(raw), width) == normal_id(raw, width),
{
    let low = lowered(raw);
    assert forall|i: int| 0 <= i < low.len() implies is_hex(#[trigger] low[i]) by {
        assert(is_hex(raw[i]));
    }
    lemma_hex_is_trimmed(raw);
    lemma_hex_is_trimmed(low);
    assert(lowered(low) =~= low);
    assert(is_hex(raw[0]));
    assert(is_hex(low[0]));
}

/// An id of 16 digits and the same id in 32 digits are one trace.
pub proof fn law_short_trace_ids_are_filled_up(raw: Seq<char>)
    requires
        all_hex(raw),
        raw.len() == 16,
    ensures
        normal_id(raw, 32) == normal_id(zeros(16) + raw, 32),
        normal_id(raw, 32).len() == 32,
{
    let long = zeros(16) + raw;
    assert forall|i: int| 0 <= i < long.len() implies is_hex(#[trigger] long[i]) by {
        if i >= 16 {
            assert(is_hex(raw[i - 16]));
        }
    }
    lemma_hex_is_trimmed(raw);
    lemma_hex_is_trimmed(long);
    assert(is_hex(raw[0]));
    assert(lowered(long) =~= zeros(16) + lowered(raw));
}

/// What lines leave held that the container runtime has cut.
pub open spec fn held_after(held: Option<Seq<char>>, lines: Seq<Seq<char>>) -> Option<Seq<char>>
    decreases lines.len(),
{
    if lines.len() == 0 {
        held
    } else {
        decoded(held_after(held, lines.drop_last()), lines.last()).1
    }
}

/// The contents of parts, one behind the other.
pub open spec fn part_contents(lines: Seq<Seq<char>>) -> Seq<char>
    decreases lines.len(),
{
    if lines.len() == 0 {
        Seq::empty()
    } else {
        part_contents(lines.drop_last()) + match cri_shell(lines.last()) {
            Shell::Part(content) => content,
            _ => Seq::empty(),
        }
    }
}

/// A line that the container runtime has cut into parts comes out whole: nothing
/// comes out before its last part, and then the contents of all of them.
pub proof fn law_parts_are_joined(
    parts: Seq<Seq<char>>,
    last: Seq<char>,
    time: Seq<char>,
    stream: Seq<char>,
    content: Seq<char>,
)
    requires
        forall|i: int| 0 <= i < parts.len() ==> cri_shell(#[trigger] parts[i]) is Part,
        cri_shell(last) == (Shell::Full { time, stream, content }),
    ensures
        forall|i: int|
            0 <= i < parts.len() ==> decoded(
                held_after(Some(Seq::empty()), parts.take(i)),
                #[trigger] parts[i],
            ).0 is None,
        decoded(held_after(Some(Seq::empty()), parts), last).0 == Some(
            Decoded {
                content: part_contents(parts) + content,
                stream: Some(stream),
                time: rfc3339_instant(time),
            },
        ),
        decoded(held_after(Some(Seq::empty()), parts), last).1 == Some(Seq::<char>::empty()),
{
    lemma_parts(parts);
    assert forall|i: int| 0 <= i < parts.len() implies decoded(
        held_after(Some(Seq::empty()), parts.take(i)),
        #[trigger] parts[i],
    ).0 is None by {
        lemma_parts(parts.take(i));
    }
}

proof fn lemma_parts(parts: Seq<Seq<char>>)
    requires
        forall|i: int| 0 <= i < parts.len() ==> cri_shell(#[trigger] parts[i]) is Part,
    ensures
        held_after(Some(Seq::empty()), parts) == Some(part_contents(parts)),
    decreases parts.len(),
{
    if parts.len() > 0 {
        let before = parts.drop_last();
        assert forall|i: int| 0 <= i < before.len() implies cri_shell(
            #[trigger] before[i],
        ) is Part by {
            assert(before[i] == parts[i]);
        }
        lemma_parts(before);
        assert(parts.last() == parts[parts.len() - 1]);
    }
}

/// A line whose shell is not as it should be is kept as it is, and what is held
/// stays held.
pub proof fn law_malformed_lines_are_kept(held: Seq<char>, line: Seq<char>)
    requires
        cri_shell(line) is Missing,
    ensures
        decoded(Some(held), line) == (Some(Decoded::bare(line)), Some(held)),
{
}

/// What is held after some lines.
pub open spec fn gathered_all(rules: Rules, g: Gathered, lines: Seq<Seq<char>>) -> Gathered
    decreases lines.len(),
{
    if lines.len() == 0 {
        g
    } else {
        gathered(rules, gathered_all(rules, g, lines.drop_last()), lines.last()).0
    }
}

/// A text with lines behind it.
pub open spec fn with_lines(message: Seq<char>, lines: Seq<Seq<char>>) -> Seq<char>
    decreases lines.len(),
{
    if lines.len() == 0 {
        message
    } else {
        with_lines(message, lines.drop_last()).push('\n') + lines.last()
    }
}

proof fn lemma_with_lines_grows(message: Seq<char>, lines: Seq<Seq<char>>, k: int)
    requires
        0 <= k <= lines.len(),
    ensures
        byte_len(with_lines(message, lines.take(k))) <= byte_len(with_lines(message, lines)),
    decreases lines.len() - k,
{
    if k < lines.len() {
        lemma_with_lines_grows(message, lines, k + 1);
        assert(lines.take(k + 1).drop_last() =~= lines.take(k));
        assert(lines.take(k + 1).last() == lines[k]);
        let m = with_lines(message, lines.take(k));
        lemma_line_bytes(m, lines[k]);
    } else {
        assert(lines.take(k) =~= lines);
    }
}

proof fn lemma_line_bytes(message: Seq<char>, line: Seq<char>)
    ensures
        byte_len(message.push('\n') + line) == byte_len(message) + 1 + byte_len(line),
{
    lemma_encode_add(message.push('\n'), line);
    assert(message.push('\n') =~= message + seq!['\n']);
    lemma_encode_add(message, seq!['\n']);
    assert(is_ascii_chars(seq!['\n']));
    is_ascii_chars_encode_utf8(seq!['\n']);
}

/// The lines of a stack trace are merged: lines that are not read go on with the
/// event before them, in order, as long as they fit, and complete no event.
pub proof fn law_stack_traces_are_merged(
    rules: Rules,
    g: Gathered,
    when: When,
    body: Body,
    lines: Seq<Seq<char>>,
)
    requires
        g.held is None,
        g.pending == Some((when, body)),
        forall|i: int| 0 <= i < lines.len() ==> (rules.reads)(#[trigger] lines[i]) is None,
        g.lines + lines.len() <= rules.max_lines,
        byte_len(with_lines(body.message, lines)) <= rules.max_bytes,
    ensures
        gathered_all(rules, g, lines) == (Gathered {
            pending: Some((when, Body { message: with_lines(body.message, lines), ..body })),
            lines: g.lines + lines.len(),
            ..g
        }),
        forall|i: int|
            0 <= i < lines.len() ==> gathered(
                rules,
                gathered_all(rules, g, lines.take(i)),
                #[trigger] lines[i],
            ).1 is None,
{
    lemma_merged(rules, g, when, body, lines);
    assert forall|i: int| 0 <= i < lines.len() implies gathered(
        rules,
        gathered_all(rules, g, lines.take(i)),
        #[trigger] lines[i],
    ).1 is None by {
        let some = lines.take(i + 1);
        assert(some.drop_last() =~= lines.take(i));
        assert(some.last() == lines[i]);
        lemma_with_lines_grows(body.message, lines, i + 1);
        lemma_with_lines_grows(body.message, lines, i);
        lemma_merged(rules, g, when, body, lines.take(i));
        lemma_line_bytes(with_lines(body.message, lines.take(i)), lines[i]);
        lemma_merged_line(
            rules,
            gathered_all(rules, g, lines.take(i)),
            when,
            Body { message: with_lines(body.message, lines.take(i)), ..body },
            lines[i],
        );
    }
}

proof fn lemma_merged_line(rules: Rules, g: Gathered, when: When, body: Body, line: Seq<char>)
    requires
        g.held is None,
        g.pending == Some((when, body)),
        (rules.reads)(line) is None,
        g.lines < rules.max_lines,
        byte_len(body.message) + byte_len(line) < rules.max_bytes,
    ensures
        gathered(rules, g, line).0 == (Gathered {
            pending: Some((when, body.with_line(line))),
            lines: g.lines + 1,
            ..g
        }),
        gathered(rules, g, line).1 is None,
{
}

proof fn lemma_merged(
    rules: Rules,
    g: Gathered,
    when: When,
    body: Body,
    lines: Seq<Seq<char>>,
)
    requires
        g.held is None,
        g.pending == Some((when, body)),
        forall|i: int| 0 <= i < lines.len() ==> (rules.reads)(#[trigger] lines[i]) is None,
        g.lines + lines.len() <= rules.max_lines,
        byte_len(with_lines(body.message, lines)) <= rules.max_bytes,
    ensures
        gathered_all(rules, g, lines) == (Gathered {
            pending: Some((when, Body { message: with_lines(body.message, lines), ..body })),
            lines: g.lines + lines.len(),
            ..g
        }),
    decreases lines.len(),
{
    if lines.len() > 0 {
        let before = lines.drop_last();
        assert(before =~= lines.take(lines.len() - 1));
        lemma_with_lines_grows(body.message, lines, lines.len() - 1);
        assert forall|i: int| 0 <= i < before.len() implies (rules.reads)(
            #[trigger] before[i],
        ) is None by {
            assert(before[i] == lines[i]);
        }
        lemma_merged(rules, g, when, body, before);
        lemma_line_bytes(with_lines(body.message, before), lines.last());
        assert(lines.last() == lines[lines.len() - 1]);
        lemma_merged_line(
            rules,
            gathered_all(rules, g, before),
            when,
            Body { message: with_lines(body.message, before), ..body },
            lines.last(),
        );
    }
}

/// A line that is read is never part of the event before it.
pub proof fn law_lines_that_are_read_start_events(rules: Rules, g: Gathered, line: Seq<char>)
    requires
        g.held is None,
        (rules.reads)(line) is Some,
    ensures
        gathered(rules, g, line).0.pending == (rules.reads)(line),
        gathered(rules, g, line).1 == g.pending,
{
}

/// No line is dropped in silence where nothing is open: it becomes an event, of
/// itself or of what it says.
pub proof fn law_first_lines_are_kept(rules: Rules, g: Gathered, line: Seq<char>)
    requires
        g.held is None,
        g.pending is None,
    ensures
        (rules.reads)(line) is None ==> (gathered(rules, g, line).1 matches Some((_, body))
            && body.message == line),
        (rules.reads)(line) is Some ==> gathered(rules, g, line).0.pending is Some,
{
}

/// The first format in the list that reads a line wins.
pub proof fn law_the_first_format_wins(
    formats: Seq<LogFormat>,
    pattern: Option<Seq<char>>,
    line: Seq<char>,
    k: int,
)
    requires
        0 <= k < formats.len(),
        formats[k].reads(pattern, line) is Some,
        forall|i: int| 0 <= i < k ==> (#[trigger] formats[i]).reads(pattern, line) is None,
    ensures
        formats_read(formats, pattern, line) == formats[k].reads(pattern, line),
    decreases k,
{
    if k > 0 {
        let rest = formats.drop_first();
        assert(formats[0].reads(pattern, line) is None);
        assert forall|i: int| 0 <= i < k - 1 implies (#[trigger] rest[i]).reads(
            pattern,
            line,
        ) is None by {
            assert(rest[i] == formats[i + 1]);
        }
        law_the_first_format_wins(rest, pattern, line, k - 1);
    }
}

/// The first parser in the list that reads a line wins.
pub proof fn law_the_first_parser_wins(parsers: Seq<BoxedParser>, line: Seq<char>, k: int)
    requires
        0 <= k < parsers.len(),
        parsers[k].reads(line) is Some,
        forall|i: int| 0 <= i < k ==> (#[trigger] parsers[i]).reads(line) is None,
    ensures
        first_reads(parsers, line) == parsers[k].reads(line),
    decreases k,
{
    if k > 0 {
        let rest = parsers.drop_first();
        assert(parsers[0].reads(line) is None);
        assert forall|i: int| 0 <= i < k - 1 implies (#[trigger] rest[i]).reads(line) is None by {
            assert(rest[i] == parsers[i + 1]);
        }
        law_the_first_parser_wins(rest, line, k - 1);
    }
}

/// All of an access log's line is its message, it has one of three levels, and it
/// has no columns of its own.
pub proof fn law_access_logs_share_the_columns(line: Seq<char>)
    ensures
        gin_reads(line) matches Some((_, body)) ==> is_access(body, "gin"@, line),
        nginx_reads(line) matches Some((_, body)) ==> is_access(body, "nginx"@, line),
{
}

/// Whether a body is that of an access log's line.
pub open spec fn is_access(body: Body, logger: Seq<char>, line: Seq<char>) -> bool {
    &&& body.message == line
    &&& body.logger == logger
    &&& body.level == "ERROR"@ || body.level == "WARN"@ || body.level == "INFO"@
    &&& body.fields == Map::<Seq<char>, ValueView>::empty()
}

} // verus!
