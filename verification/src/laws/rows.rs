//! Events as lines of JSON, and texts in quotes.

use vstd::prelude::*;

use crate::event::{field_views, list_views, not_overridden, Body, LogEvent};
use crate::json::{entries_text, hex_digit, items_text, json_char, json_chars, json_string};
use crate::json::{object_text, value_text};
use crate::map::{lemma_key_unique, lemma_map_of_entry, place, StrMap};
use crate::sink::clickhouse::{escaped, rows_text, stored_stamp, zone_view, ClickhouseSink};
use crate::sink::console::{lines_text, Encoding};
use crate::sink::zone::{offset_text, zone_local_offset, zone_utc_offset};
use crate::text::{decimal, lemma_scan_unique, lemma_splits, padded, splits, Stop};
use crate::time::{wall_clock, Timestamp};
use crate::value::{NumberView, Value, ValueView};

verus! {

/// Whether a text is in one line.
pub open spec fn flat(s: Seq<char>) -> bool {
    forall|i: int| 0 <= i < s.len() ==> #[trigger] s[i] != '\n'
}

/// Whether the decimals in a value are written in one line, as all numbers are.
pub open spec fn plain(v: ValueView) -> bool
    decreases v,
{
    match v {
        ValueView::Number(NumberView::Decimal(t)) => flat(t),
        ValueView::Array(items) => plain_items(items),
        ValueView::Object(entries) => plain_entries(entries),
        _ => true,
    }
}

/// The same for all items of an array.
pub open spec fn plain_items(items: Seq<ValueView>) -> bool
    decreases items,
{
    items.len() == 0 || (plain(items.last()) && plain_items(items.drop_last()))
}

/// The same for all entries of an object.
pub open spec fn plain_entries(entries: Seq<(Seq<char>, ValueView)>) -> bool
    decreases entries,
{
    entries.len() == 0 || (plain(entries.last().1) && plain_entries(entries.drop_last()))
}

proof fn lemma_json_char(c: char)
    ensures
        json_char(c).len() > 0,
        flat(json_char(c)),
{
    let n = c as int;
    if (c as int) < 0x20 {
        assert(hex_digit(n / 16) != '\n');
        assert(hex_digit(n % 16) != '\n');
    }
}

proof fn lemma_json_chars(s: Seq<char>)
    ensures
        flat(json_chars(s)),
    decreases s.len(),
{
    if s.len() > 0 {
        lemma_json_char(s[0]);
        lemma_json_chars(s.drop_first());
    }
}

proof fn lemma_json_string(s: Seq<char>)
    ensures
        flat(json_string(s)),
{
    lemma_json_chars(s);
}

proof fn lemma_decimal(n: nat)
    ensures
        flat(decimal(n)),
    decreases n,
{
    if n >= 10 {
        lemma_decimal(n / 10);
    }
}

proof fn lemma_value(v: ValueView)
    requires
        plain(v),
    ensures
        flat(value_text(v)),
    decreases v,
{
    match v {
        ValueView::Null => {
            reveal_strlit("null");
        },
        ValueView::Bool(_) => {
            reveal_strlit("true");
            reveal_strlit("false");
        },
        ValueView::Number(n) => {
            match n {
                NumberView::Signed(n) => {
                    lemma_decimal(
                        (if n < 0 {
                            -n
                        } else {
                            n as int
                        }) as nat,
                    );
                },
                NumberView::Unsigned(n) => {
                    lemma_decimal(n as nat);
                },
                NumberView::Decimal(_) => {},
            }
        },
        ValueView::Text(t) => {
            lemma_json_string(t);
        },
        ValueView::Array(items) => {
            lemma_items(items);
        },
        ValueView::Object(entries) => {
            lemma_entries(entries);
        },
    }
}

proof fn lemma_items(items: Seq<ValueView>)
    requires
        plain_items(items),
    ensures
        flat(items_text(items)),
    decreases items,
{
    if items.len() > 0 {
        lemma_items(items.drop_last());
        lemma_value(items.last());
    }
}

proof fn lemma_entries(entries: Seq<(Seq<char>, ValueView)>)
    requires
        plain_entries(entries),
    ensures
        flat(entries_text(entries)),
    decreases entries,
{
    if entries.len() > 0 {
        lemma_entries(entries.drop_last());
        lemma_json_string(entries.last().0);
        lemma_value(entries.last().1);
    }
}

/// The JSON of an event is one line, whatever its message and fields hold.
pub proof fn law_json_is_one_line(event: LogEvent, stamp: Seq<char>)
    requires
        plain_entries(event.json_entries(stamp)),
    ensures
        flat(object_text(event.json_entries(stamp))),
{
    lemma_entries(event.json_entries(stamp));
}

proof fn lemma_not_overridden(
    list: Seq<(Seq<char>, ValueView)>,
    own: Set<Seq<char>>,
    e: (Seq<char>, ValueView),
)
    ensures
        not_overridden(list, own).contains(e) <==> list.contains(e) && !own.contains(e.0),
    decreases list.len(),
{
    if list.len() > 0 {
        let front = list.drop_last();
        let rest = not_overridden(front, own);
        let all = not_overridden(list, own);
        lemma_not_overridden(front, own, e);
        if all.contains(e) {
            let i = all.index_of(e);
            if i < rest.len() {
                assert(rest[i] == e);
                let j = front.index_of(e);
                assert(list[j] == e);
            } else {
                assert(list[list.len() - 1] == e);
            }
        }
        if list.contains(e) && !own.contains(e.0) {
            let j = list.index_of(e);
            if j < front.len() {
                assert(front[j] == e);
                let i = rest.index_of(e);
                assert(all[i] == e);
            } else {
                assert(all[rest.len() as int] == e);
            }
        }
    }
}

/// The entries of a map are those of its list.
proof fn lemma_listed(fields: &StrMap<Value>, key: Seq<char>, v: ValueView)
    requires
        fields.wf(),
    ensures
        list_views(fields.list()).contains((key, v)) <==> fields@.dom().contains(key)
            && field_views(fields@)[key] == v,
{
    let list = fields.list();
    let views = list_views(list);
    if views.contains((key, v)) {
        let i = views.index_of((key, v));
        lemma_map_of_entry(list, i);
    }
    if fields@.dom().contains(key) {
        let i = place(list, key);
        lemma_map_of_entry(list, i);
        assert(views[i] == (key, field_views(fields@)[key]));
    }
}

/// Behind the nine columns of every event, its JSON has just the fields that can be
/// looked up, each with the value that a look gives: the event's own, or else the
/// source's.
pub proof fn law_json_has_the_fields(event: LogEvent, stamp: Seq<char>, key: Seq<char>, v: ValueView)
    requires
        event.wf(),
    ensures
        event.json_entries(stamp).skip(9).contains((key, v)) <==> event.body().lookup(key) == Some(
            v,
        ),
{
    let own = list_views(event.fields.list());
    let shared = not_overridden(event.shared_list(), event.fields@.dom());
    let more = event.json_entries(stamp).skip(9);
    let e = (key, v);
    assert(more =~= shared + own);
    lemma_listed(&event.fields, key, v);
    lemma_not_overridden(event.shared_list(), event.fields@.dom(), e);
    if let Some(map) = event.shared {
        lemma_listed(&map, key, v);
    }
    if more.contains(e) {
        let i = more.index_of(e);
        if i < shared.len() {
            assert(shared[i] == e);
        } else {
            assert(own[i - shared.len()] == e);
        }
    }
    if shared.contains(e) {
        let i = shared.index_of(e);
        assert(more[i] == e);
    }
    if own.contains(e) {
        let i = own.index_of(e);
        assert(more[shared.len() + i] == e);
    }
}

/// Whether no key stands twice in a list.
spec fn distinct(list: Seq<(Seq<char>, ValueView)>) -> bool {
    forall|i: int, j: int|
        0 <= i < j < list.len() ==> (#[trigger] list[i]).0 != (#[trigger] list[j]).0
}

proof fn lemma_distinct(list: Seq<(Seq<char>, ValueView)>, own: Set<Seq<char>>)
    requires
        distinct(list),
    ensures
        distinct(not_overridden(list, own)),
    decreases list.len(),
{
    if list.len() > 0 {
        let front = list.drop_last();
        let rest = not_overridden(front, own);
        let all = not_overridden(list, own);
        assert(distinct(front)) by {
            assert forall|i: int, j: int| 0 <= i < j < front.len() implies (#[trigger] front[i]).0
                != (#[trigger] front[j]).0 by {
                assert(list[i].0 != list[j].0);
            }
        }
        lemma_distinct(front, own);
        assert forall|i: int, j: int| 0 <= i < j < all.len() implies (#[trigger] all[i]).0 != (
        #[trigger] all[j]).0 by {
            assert(all[i] == rest[i]);
            if j < rest.len() {
                assert(all[j] == rest[j]);
            } else {
                assert(rest.contains(rest[i]));
                lemma_not_overridden(front, own, rest[i]);
                let k = front.index_of(rest[i]);
                assert(list[k].0 != list[list.len() - 1].0);
            }
        }
    }
}

proof fn lemma_fields_distinct(fields: &StrMap<Value>)
    requires
        fields.wf(),
    ensures
        distinct(list_views(fields.list())),
{
    let list = fields.list();
    let views = list_views(list);
    assert forall|i: int, j: int| 0 <= i < j < views.len() implies (#[trigger] views[i]).0 != (
    #[trigger] views[j]).0 by {
        if list[i].0 == list[j].0 {
            lemma_key_unique(list, i, j);
        }
    }
}

/// Behind the nine columns of every event, no member of its JSON stands twice: a
/// field of the source that the event has too is left out.
pub proof fn law_json_has_each_field_once(event: LogEvent, stamp: Seq<char>, i: int, j: int)
    requires
        event.wf(),
        9 <= i < j < event.json_entries(stamp).len(),
    ensures
        event.json_entries(stamp)[i].0 != event.json_entries(stamp)[j].0,
{
    let own = list_views(event.fields.list());
    let keys = event.fields@.dom();
    let shared = not_overridden(event.shared_list(), keys);
    let more = event.json_entries(stamp).skip(9);
    assert(more =~= shared + own);
    lemma_fields_distinct(&event.fields);
    if let Some(map) = event.shared {
        lemma_fields_distinct(&map);
    }
    lemma_distinct(event.shared_list(), keys);
    let (a, b) = (i - 9, j - 9);
    assert(more[a] == event.json_entries(stamp)[i]);
    assert(more[b] == event.json_entries(stamp)[j]);
    if b < shared.len() {
        assert(shared[a].0 != shared[b].0);
    } else if a < shared.len() {
        assert(shared.contains(shared[a]));
        lemma_not_overridden(event.shared_list(), keys, shared[a]);
        lemma_map_of_entry(event.fields.list(), b - shared.len());
        assert(keys.contains(own[b - shared.len()].0));
    } else {
        assert(own[a - shared.len()].0 != own[b - shared.len()].0);
    }
}

/// The JSON of each of some events.
pub open spec fn rows(zone: Option<Seq<char>>, events: Seq<LogEvent>) -> Seq<Seq<char>> {
    events.map_values(
        |e: LogEvent| object_text(e.json_entries(stored_stamp(zone, e.timestamp))),
    )
}

proof fn lemma_flat_splits(s: Seq<char>)
    requires
        flat(s),
    ensures
        splits(s, '\n') == seq![s],
{
    lemma_scan_unique(s, Stop::Char('\n'), s.len() as int);
}

/// A line behind lines that have ended.
proof fn lemma_one_line_more(before: Seq<char>, lines: Seq<Seq<char>>, line: Seq<char>)
    requires
        flat(line),
        splits(before, '\n') == lines.push(Seq::empty()),
        before.len() == 0 || before.last() == '\n',
    ensures
        splits((before + line).push('\n'), '\n') == lines.push(line).push(Seq::empty()),
{
    let none = Seq::<char>::empty();
    let both = before + line;
    assert(both.push('\n') =~= both.push('\n') + none);
    lemma_splits(both, none, '\n');
    lemma_flat_splits(none);
    lemma_flat_splits(line);
    if before.len() == 0 {
        assert(both =~= line);
        assert(before =~= none);
        assert(lines.push(none).len() == 1);
        assert(lines =~= Seq::<Seq<char>>::empty());
    } else {
        let front = before.drop_last();
        assert(before =~= front.push('\n') + none);
        lemma_splits(front, none, '\n');
        assert(lines.push(none) =~= splits(front, '\n').push(none));
        assert(lines =~= lines.push(none).drop_last());
        assert(splits(front, '\n') =~= splits(front, '\n').push(none).drop_last());
        assert(both =~= front.push('\n') + line);
        lemma_splits(front, line, '\n');
    }
    assert(splits(both, '\n') =~= lines.push(line));
}

/// The rows of a batch are taken apart at line feeds into exactly the JSON of each
/// event, in order: no event's text can break a row or be taken for another.
pub proof fn law_rows_are_lines(zone: Option<Seq<char>>, events: Seq<LogEvent>)
    requires
        forall|i: int|
            0 <= i < events.len() ==> plain_entries(
                (#[trigger] events[i]).json_entries(stored_stamp(zone, events[i].timestamp)),
            ),
    ensures
        splits(rows_text(zone, events), '\n') == rows(zone, events).push(Seq::empty()),
    decreases events.len(),
{
    let text = rows_text(zone, events);
    if events.len() == 0 {
        lemma_flat_splits(text);
        assert(rows(zone, events) =~= Seq::<Seq<char>>::empty());
    } else {
        let before = events.drop_last();
        assert forall|i: int| 0 <= i < before.len() implies plain_entries(
            (#[trigger] before[i]).json_entries(stored_stamp(zone, before[i].timestamp)),
        ) by {
            assert(before[i] == events[i]);
        }
        law_rows_are_lines(zone, before);
        let e = events.last();
        assert(e == events[events.len() - 1]);
        let stamp = stored_stamp(zone, e.timestamp);
        law_json_is_one_line(e, stamp);
        let line = object_text(e.json_entries(stamp));
        lemma_one_line_more(rows_text(zone, before), rows(zone, before), line);
        assert(rows(zone, events) =~= rows(zone, before).push(line));
    }
}

/// The same of what the console is sent.
pub proof fn law_console_json_is_lines(events: Seq<LogEvent>)
    requires
        forall|i: int|
            0 <= i < events.len() ==> plain_entries(
                (#[trigger] events[i]).json_entries(wall_clock(events[i].timestamp)),
            ),
    ensures
        lines_text(Encoding::Json, events) == rows_text(None, events),
        splits(lines_text(Encoding::Json, events), '\n') == rows(None, events).push(Seq::empty()),
    decreases events.len(),
{
    assert forall|i: int| 0 <= i < events.len() implies plain_entries(
        (#[trigger] events[i]).json_entries(stored_stamp(None, events[i].timestamp)),
    ) by {}
    law_rows_are_lines(None, events);
    lemma_console_rows(events);
}

proof fn lemma_console_rows(events: Seq<LogEvent>)
    ensures
        lines_text(Encoding::Json, events) == rows_text(None, events),
    decreases events.len(),
{
    if events.len() > 0 {
        lemma_console_rows(events.drop_last());
    }
}

/// Texts that differ are written differently: what a text was can be told from its
/// JSON.
pub proof fn law_texts_can_be_told_apart(a: Seq<char>, b: Seq<char>)
    requires
        json_string(a) == json_string(b),
    ensures
        a == b,
{
    let x = json_string(a);
    let y = json_string(b);
    assert(x.subrange(1, x.len() - 1) =~= json_chars(a));
    assert(y.subrange(1, y.len() - 1) =~= json_chars(b));
    lemma_chars_apart(a, b);
}

proof fn lemma_chars_apart(a: Seq<char>, b: Seq<char>)
    requires
        json_chars(a) == json_chars(b),
    ensures
        a == b,
    decreases a.len(),
{
    if a.len() > 0 {
        lemma_json_char(a[0]);
        assert(json_chars(a).len() > 0);
    }
    if b.len() > 0 {
        lemma_json_char(b[0]);
        assert(json_chars(b).len() > 0);
    }
    if a.len() == 0 || b.len() == 0 {
        assert(a =~= b);
    } else {
        let s = json_chars(a);
        let ca = json_char(a[0]);
        let cb = json_char(b[0]);
        let ra = json_chars(a.drop_first());
        let rb = json_chars(b.drop_first());
        assert(s == ca + ra);
        assert(s == cb + rb);
        lemma_char_apart(a[0], b[0], s);
        assert(ra =~= s.skip(ca.len() as int));
        assert(rb =~= s.skip(cb.len() as int));
        lemma_chars_apart(a.drop_first(), b.drop_first());
        assert(a =~= seq![a[0]] + a.drop_first());
        assert(b =~= seq![b[0]] + b.drop_first());
    }
}

/// A character can be told from what it is written as, whatever follows.
proof fn lemma_char_apart(x: char, y: char, s: Seq<char>)
    requires
        json_char(x).is_prefix_of(s),
        json_char(y).is_prefix_of(s),
    ensures
        x == y,
{
    let a = json_char(x);
    let b = json_char(y);
    assert(s[0] == a[0] && s[0] == b[0]);
    if a.len() > 1 && b.len() > 1 {
        assert(s[1] == a[1] && s[1] == b[1]);
        if a.len() == 6 && b.len() == 6 {
            assert(s[4] == a[4] && s[4] == b[4]);
            assert(s[5] == a[5] && s[5] == b[5]);
        }
    }
}

/// The same of a literal of SQL.
pub proof fn law_literals_can_be_told_apart(a: Seq<char>, b: Seq<char>)
    requires
        escaped(a) == escaped(b),
    ensures
        a == b,
    decreases a.len(),
{
    if a.len() == 0 || b.len() == 0 {
        assert(a.len() > 0 ==> escaped(a).len() > 0);
        assert(b.len() > 0 ==> escaped(b).len() > 0);
        assert(a =~= b);
    } else {
        let s = escaped(a);
        let before_a = escaped(a.drop_last());
        let before_b = escaped(b.drop_last());
        assert(a.last() == s.last() && b.last() == s.last());
        let special = s.last() == '\\' || s.last() == '\'';
        let n: int = if special {
            s.len() - 2
        } else {
            s.len() - 1
        };
        assert(before_a =~= s.take(n));
        assert(before_b =~= s.take(n));
        law_literals_can_be_told_apart(a.drop_last(), b.drop_last());
        assert(a =~= a.drop_last().push(a.last()));
        assert(b =~= b.drop_last().push(b.last()));
    }
}

/// What a hexadecimal digit stands for.
pub open spec fn hex_value(c: char) -> Option<int> {
    if '0' <= c <= '9' {
        Some(c as int - '0' as int)
    } else if 'a' <= c <= 'f' {
        Some(c as int - 'a' as int + 10)
    } else {
        None
    }
}

/// The character that an escape at the start of `s` stands for, and how long the
/// escape is; those of control characters have four digits.
pub open spec fn unescaped(s: Seq<char>) -> Option<(char, int)> {
    if s.len() < 2 || s[0] != '\\' {
        None
    } else if s[1] == '"' || s[1] == '\\' {
        Some((s[1], 2))
    } else if s[1] == 'b' {
        Some(('\u{8}', 2))
    } else if s[1] == 't' {
        Some(('\u{9}', 2))
    } else if s[1] == 'n' {
        Some(('\u{a}', 2))
    } else if s[1] == 'f' {
        Some(('\u{c}', 2))
    } else if s[1] == 'r' {
        Some(('\u{d}', 2))
    } else if s[1] == 'u' && s.len() >= 6 && s[2] == '0' && s[3] == '0' {
        match (hex_value(s[4]), hex_value(s[5])) {
            (Some(a), Some(b)) => Some(((a * 16 + b) as char, 6)),
            _ => None,
        }
    } else {
        None
    }
}

/// The text that ends at the next quotes, and what follows them.
pub open spec fn unquoted(s: Seq<char>) -> Option<(Seq<char>, Seq<char>)>
    decreases s.len(),
{
    if s.len() == 0 || (s[0] as int) < 0x20 {
        None
    } else if s[0] == '"' {
        Some((Seq::empty(), s.skip(1)))
    } else {
        let (c, n) = if s[0] == '\\' {
            match unescaped(s) {
                Some(p) => p,
                None => ('\\', 0),
            }
        } else {
            (s[0], 1)
        };
        if n == 0 || n > s.len() {
            None
        } else {
            match unquoted(s.skip(n)) {
                Some((text, rest)) => Some((seq![c] + text, rest)),
                None => None,
            }
        }
    }
}

/// A text in quotes is read back as that text, whatever is in it and whatever
/// follows.
pub proof fn law_quoted_texts_are_read_back(s: Seq<char>, rest: Seq<char>)
    ensures
        json_string(s)[0] == '"',
        unquoted(json_string(s).skip(1) + rest) == Some((s, rest)),
{
    lemma_unquoted(s, rest);
    assert(json_string(s).skip(1) + rest =~= json_chars(s) + seq!['"'] + rest);
}

proof fn lemma_hex_value(n: int)
    requires
        0 <= n < 16,
    ensures
        hex_value(hex_digit(n)) == Some(n),
{
}

proof fn lemma_unquoted(s: Seq<char>, rest: Seq<char>)
    ensures
        unquoted(json_chars(s) + seq!['"'] + rest) == Some((s, rest)),
    decreases s.len(),
{
    let all = json_chars(s) + seq!['"'] + rest;
    if s.len() == 0 {
        assert(all.skip(1) =~= rest);
        assert(s =~= Seq::<char>::empty());
    } else {
        let c = s[0];
        let e = json_char(c);
        let more = json_chars(s.drop_first()) + seq!['"'] + rest;
        lemma_unquoted(s.drop_first(), rest);
        assert(all =~= e + more);
        assert(all.skip(e.len() as int) =~= more);
        assert(seq![c] + s.drop_first() =~= s);
        assert(all[0] == e[0]);
        if e.len() >= 2 {
            assert(all[1] == e[1]);
        }
        if e.len() == 6 {
            assert(all[2] == e[2] && all[3] == e[3] && all[4] == e[4] && all[5] == e[5]);
            lemma_control(c);
            assert(unescaped(all) == Some((c, 6int)));
        }
    }
}

/// The two digits of an escape are those of the character.
proof fn lemma_control(c: char)
    requires
        json_char(c).len() == 6,
    ensures
        ({
            let e = json_char(c);
            &&& e[1] == 'u' && e[2] == '0' && e[3] == '0'
            &&& hex_value(e[4]) is Some
            &&& hex_value(e[5]) is Some
            &&& (hex_value(e[4])->0 * 16 + hex_value(e[5])->0) as char == c
        }),
{
    let n = c as int;
    assert(0 <= n < 0x20);
    lemma_hex_value(n / 16);
    lemma_hex_value(n % 16);
    assert(n / 16 * 16 + n % 16 == n);
    assert((n as char) == c);
}

/// A member of an object whose name needs no escape, and whose value is a text.
pub open spec fn column(name: Seq<char>, text: Seq<char>) -> Seq<char> {
    seq!['"'] + name + seq!['"', ':'] + json_string(text)
}

/// Whether `s` starts with `start`.
pub open spec fn starts(s: Seq<char>, start: Seq<char>) -> bool {
    start.len() <= s.len() && s.take(start.len() as int) == start
}

/// Whether a text can stand in quotes as it is.
spec fn bare(s: Seq<char>) -> bool {
    forall|i: int| 0 <= i < s.len() ==> 'a' <= #[trigger] s[i] <= 'z' || s[i] == '_'
}

proof fn lemma_bare(s: Seq<char>)
    requires
        bare(s),
    ensures
        json_chars(s) == s,
    decreases s.len(),
{
    if s.len() > 0 {
        let rest = s.drop_first();
        assert forall|i: int| 0 <= i < rest.len() implies 'a' <= #[trigger] rest[i] <= 'z'
            || rest[i] == '_' by {
            assert(rest[i] == s[i + 1]);
        }
        lemma_bare(rest);
        assert('a' <= s[0] <= 'z' || s[0] == '_');
        assert(json_char(s[0]) =~= seq![s[0]]);
        assert(json_chars(s) =~= s);
    } else {
        assert(json_chars(s) =~= s);
    }
}

proof fn lemma_column(name: Seq<char>, text: Seq<char>)
    requires
        bare(name),
    ensures
        json_string(name) + seq![':'] + value_text(ValueView::Text(text)) == column(name, text),
{
    lemma_bare(name);
    assert(json_string(name) + seq![':'] + json_string(text) =~= column(name, text));
}

/// The text of an object starts with that of its first entries.
proof fn lemma_first_entries(entries: Seq<(Seq<char>, ValueView)>, k: int)
    requires
        0 < k <= entries.len(),
    ensures
        ({
            let front = entries_text(entries.take(k));
            let all = entries_text(entries) + seq!['}'];
            &&& starts(all, front)
            &&& all.len() > front.len()
            &&& all[front.len() as int] == if k < entries.len() {
                ','
            } else {
                '}'
            }
        }),
    decreases entries.len() - k,
{
    let front = entries_text(entries.take(k));
    let all = entries_text(entries) + seq!['}'];
    if k == entries.len() {
        assert(entries.take(k) =~= entries);
        assert(all.take(front.len() as int) =~= front);
    } else {
        lemma_first_entries(entries, k + 1);
        let more = entries_text(entries.take(k + 1));
        assert(entries.take(k + 1).drop_last() =~= entries.take(k));
        assert(more.take(front.len() as int) =~= front);
        assert(more[front.len() as int] == ',');
        assert(all.take(more.len() as int)[front.len() as int] == ',');
        assert(all.take(front.len() as int) =~= more.take(front.len() as int)) by {
            assert forall|i: int| 0 <= i < front.len() implies all[i] == more[i] by {
                assert(all.take(more.len() as int)[i] == all[i]);
            }
        }
    }
}

proof fn lemma_next_column(
    entries: Seq<(Seq<char>, ValueView)>,
    k: int,
    name: Seq<char>,
    text: Seq<char>,
)
    requires
        0 <= k < entries.len(),
        bare(name),
        entries[k] == (name, ValueView::Text(text)),
    ensures
        entries_text(entries.take(k + 1)) == if k == 0 {
            column(name, text)
        } else {
            entries_text(entries.take(k)) + seq![','] + column(name, text)
        },
{
    let now = entries.take(k + 1);
    assert(now.drop_last() =~= entries.take(k));
    assert(now.last() == entries[k]);
    lemma_column(name, text);
    if k == 0 {
        assert(entries.take(0) =~= Seq::empty());
        assert(entries_text(now) =~= column(name, text));
    } else {
        assert(entries_text(now) =~= entries_text(entries.take(k)) + seq![','] + column(name, text));
    }
}

proof fn lemma_names_are_bare()
    ensures
        bare("timestamp"@),
        bare("level"@),
        bare("trace_id"@),
        bare("span_id"@),
        bare("thread"@),
        bare("logger"@),
        bare("message"@),
        bare("file"@),
        bare("host"@),
{
    reveal_strlit("timestamp");
    reveal_strlit("level");
    reveal_strlit("trace_id");
    reveal_strlit("span_id");
    reveal_strlit("thread");
    reveal_strlit("logger");
    reveal_strlit("message");
    reveal_strlit("file");
    reveal_strlit("host");
}

/// The nine columns of an event, each with the part that it is called after.
pub open spec fn nine_columns(body: Body, stamp: Seq<char>) -> Seq<char> {
    column("timestamp"@, stamp) + seq![','] + column("level"@, body.level) + seq![','] + column(
        "trace_id"@,
        body.trace_id,
    ) + seq![','] + column("span_id"@, body.span_id) + seq![','] + column("thread"@, body.thread)
        + seq![','] + column("logger"@, body.logger) + seq![','] + column("message"@, body.message)
        + seq![','] + column("file"@, body.file) + seq![','] + column("host"@, body.host)
}

/// The JSON of an event starts with nine columns, each with the part of the event that
/// it is called after; only then come its fields.
pub proof fn law_each_column_has_its_part(event: &LogEvent, stamp: String, r: String)
    requires
        call_ensures(LogEvent::to_json_with, (event, stamp), r),
    ensures
        ({
            let front = seq!['{'] + nine_columns(event.body(), stamp@);
            &&& starts(r@, front)
            &&& r@.len() > front.len()
            &&& r@[front.len() as int] == ',' || r@[front.len() as int] == '}'
        }),
{
    let body = event.body();
    let e = event.json_entries(stamp@);
    lemma_columns(event, stamp@);
    lemma_first_entries(e, 9);
    lemma_opened(entries_text(e), nine_columns(body, stamp@));
}

proof fn lemma_columns(event: &LogEvent, stamp: Seq<char>)
    ensures
        event.json_entries(stamp).len() >= 9,
        entries_text(event.json_entries(stamp).take(9)) == nine_columns(event.body(), stamp),
{
    let body = event.body();
    let e = event.json_entries(stamp);
    lemma_names_are_bare();
    lemma_next_column(e, 0, "timestamp"@, stamp);
    lemma_next_column(e, 1, "level"@, body.level);
    lemma_next_column(e, 2, "trace_id"@, body.trace_id);
    lemma_next_column(e, 3, "span_id"@, body.span_id);
    lemma_next_column(e, 4, "thread"@, body.thread);
    lemma_next_column(e, 5, "logger"@, body.logger);
    lemma_next_column(e, 6, "message"@, body.message);
    lemma_next_column(e, 7, "file"@, body.file);
    lemma_next_column(e, 8, "host"@, body.host);
}

proof fn lemma_opened(text: Seq<char>, front: Seq<char>)
    requires
        starts(text + seq!['}'], front),
        text.len() >= front.len(),
    ensures
        starts(seq!['{'] + text + seq!['}'], seq!['{'] + front),
        (seq!['{'] + text + seq!['}'])[front.len() as int + 1] == (text + seq!['}'])[front.len() as int],
{
    let all = seq!['{'] + text + seq!['}'];
    let s = seq!['{'] + front;
    assert forall|i: int| 0 <= i < s.len() implies all[i] == s[i] by {
        if i > 0 {
            assert((text + seq!['}']).take(front.len() as int)[i - 1] == (text + seq!['}'])[i - 1]);
        }
    }
    assert(all.take(s.len() as int) =~= s);
}

/// Fields stand behind the columns, one behind the other, each behind a comma and under
/// its own name; the last one is followed by the closing bracket.
pub proof fn law_members_are_written_one_by_one(
    entries: Seq<(Seq<char>, ValueView)>,
    name: Seq<char>,
    value: ValueView,
)
    ensures
        object_text(Seq::empty()) == seq!['{', '}'],
        object_text(entries.push((name, value))) == object_text(entries).drop_last() + (
        if entries.len() == 0 {
            Seq::empty()
        } else {
            seq![',']
        }) + json_string(name) + seq![':'] + value_text(value) + seq!['}'],
{
    let none = Seq::<(Seq<char>, ValueView)>::empty();
    assert(object_text(none) =~= seq!['{', '}']);
    let more = entries.push((name, value));
    assert(more.drop_last() =~= entries);
    assert(object_text(entries).drop_last() =~= seq!['{'] + entries_text(entries));
    assert(object_text(more) =~= object_text(entries).drop_last() + (if entries.len() == 0 {
        Seq::empty()
    } else {
        seq![',']
    }) + json_string(name) + seq![':'] + value_text(value) + seq!['}']);
}

/// The number that decimal digits stand for.
pub open spec fn counted(s: Seq<char>) -> int
    decreases s.len(),
{
    if s.len() == 0 {
        0
    } else {
        counted(s.drop_last()) * 10 + (s.last() as int - '0' as int)
    }
}

pub proof fn lemma_counted(n: nat)
    ensures
        counted(decimal(n)) == n,
        decimal(n).len() > 0,
        decimal(n)[0] != '-',
        n > 0 ==> decimal(n)[0] != '0',
    decreases n,
{
    reveal_with_fuel(counted, 2);
    if n >= 10 {
        lemma_counted(n / 10);
        assert(decimal(n).drop_last() =~= decimal(n / 10));
        assert(decimal(n)[0] == decimal(n / 10)[0]);
    } else {
        assert(decimal(n).drop_last() =~= Seq::<char>::empty());
    }
}

/// Values are written as what they are: whole numbers in decimal digits, with a sign
/// where they are negative, texts in quotes, arrays item by item.
pub proof fn law_values_are_written_as_they_are(
    n: i64,
    m: u64,
    text: Seq<char>,
    items: Seq<ValueView>,
    item: ValueView,
)
    ensures
        value_text(ValueView::Null) == "null"@,
        value_text(ValueView::Bool(true)) == "true"@,
        value_text(ValueView::Bool(false)) == "false"@,
        value_text(ValueView::Text(text)) == json_string(text),
        value_text(ValueView::Number(NumberView::Decimal(text))) == text,
        counted(value_text(ValueView::Number(NumberView::Unsigned(m)))) == m,
        ({
            let t = value_text(ValueView::Number(NumberView::Signed(n)));
            if n < 0 {
                t[0] == '-' && counted(t.skip(1)) == -(n as int)
            } else {
                t[0] != '-' && counted(t) == n
            }
        }),
        value_text(ValueView::Array(Seq::empty())) == seq!['[', ']'],
        value_text(ValueView::Array(items.push(item))) == value_text(
            ValueView::Array(items),
        ).drop_last() + (if items.len() == 0 {
            Seq::empty()
        } else {
            seq![',']
        }) + value_text(item) + seq![']'],
{
    lemma_counted(m as nat);
    let a = if n < 0 {
        (-(n as int)) as nat
    } else {
        n as nat
    };
    lemma_counted(a);
    let t = value_text(ValueView::Number(NumberView::Signed(n)));
    if n < 0 {
        assert(t.skip(1) =~= decimal(a));
    }
    let none = Seq::<ValueView>::empty();
    assert(value_text(ValueView::Array(none)) =~= seq!['[', ']']);
    let more = items.push(item);
    assert(more.drop_last() =~= items);
    assert(value_text(ValueView::Array(items)).drop_last() =~= seq!['['] + items_text(items));
    assert(value_text(ValueView::Array(more)) =~= value_text(ValueView::Array(items)).drop_last()
        + (if items.len() == 0 {
        Seq::empty()
    } else {
        seq![',']
    }) + value_text(item) + seq![']']);
}

/// An offset as it is written: a sign, hours and minutes in two digits each, and
/// seconds only where there are some.
pub open spec fn is_offset(text: Seq<char>, offset: int) -> bool {
    let n = if offset < 0 {
        -offset
    } else {
        offset
    };
    &&& text.len() == if n % 60 == 0 {
        6int
    } else {
        9
    }
    &&& text[0] == if offset < 0 {
        '-'
    } else {
        '+'
    }
    &&& text[3] == ':'
    &&& counted(text.subrange(1, 3)) * 3600 + counted(text.subrange(4, 6)) * 60 + (if n % 60
        == 0 {
        0
    } else {
        counted(text.subrange(7, 9))
    }) == n
}

proof fn lemma_two_digits(n: nat)
    requires
        n < 100,
    ensures
        padded(n, 2).len() == 2,
        counted(padded(n, 2)) == n,
{
    reveal_with_fuel(padded, 3);
    reveal_with_fuel(counted, 3);
    let p = padded(n, 2);
    assert(p.drop_last() =~= padded(n / 10, 1));
    assert(p.drop_last().drop_last() =~= Seq::<char>::empty());
}

/// A stored time is the one in the log, as it is; where the clock's zone is known, the
/// zone's offset at that time stands behind it, that of UTC's time where the clock skips
/// the time.
pub proof fn law_stored_times_have_their_offset(zone: Seq<char>, ts: Timestamp)
    requires
        zone_local_offset(zone, ts) matches Some(n) ==> -86400 < n < 86400,
        -86400 < zone_utc_offset(zone, ts) < 86400,
    ensures
        stored_stamp(None, ts) == wall_clock(ts),
        starts(stored_stamp(Some(zone), ts), wall_clock(ts)),
        is_offset(
            stored_stamp(Some(zone), ts).skip(wall_clock(ts).len() as int),
            match zone_local_offset(zone, ts) {
                Some(n) => n as int,
                None => zone_utc_offset(zone, ts) as int,
            },
        ),
{
    let offset = match zone_local_offset(zone, ts) {
        Some(n) => n as int,
        None => zone_utc_offset(zone, ts) as int,
    };
    let n = if offset < 0 {
        -offset
    } else {
        offset
    };
    let all = stored_stamp(Some(zone), ts);
    let text = offset_text(offset);
    assert(all =~= wall_clock(ts) + text);
    assert(all.take(wall_clock(ts).len() as int) =~= wall_clock(ts));
    assert(all.skip(wall_clock(ts).len() as int) =~= text);
    let h = (n / 3600) as nat;
    let m = (n / 60 % 60) as nat;
    lemma_two_digits(h);
    lemma_two_digits(m);
    assert(text.subrange(1, 3) =~= padded(h, 2));
    assert(text.subrange(4, 6) =~= padded(m, 2));
    if n % 60 != 0 {
        lemma_two_digits((n % 60) as nat);
        assert(text.subrange(7, 9) =~= padded((n % 60) as nat, 2));
    }
    assert(n == n / 3600 * 3600 + n / 60 % 60 * 60 + n % 60) by {
        assert(n / 60 / 60 == n / 3600);
    }
}

/// The rows of a batch are those of its events in order, each with its time as it is
/// stored and each followed by a line feed, and they go into the table that is named.
pub proof fn law_batches_become_rows(
    sink: &ClickhouseSink,
    events: &Vec<LogEvent>,
    r: String,
    sql: String,
)
    requires
        call_ensures(ClickhouseSink::insert_rows, (sink, events), r),
        call_ensures(ClickhouseSink::insert_sql, (sink,), sql),
    ensures
        r@ == ended_lines(rows(zone_view(sink.timezone), events@)),
        sql@ == "INSERT INTO `"@ + sink.database@ + "`.`"@ + sink.table@ + "` FORMAT JSONEachRow"@,
{
    lemma_ended_rows(zone_view(sink.timezone), events@);
}

/// Lines one behind the other, each followed by a line feed.
pub open spec fn ended_lines(lines: Seq<Seq<char>>) -> Seq<char>
    decreases lines.len(),
{
    if lines.len() == 0 {
        Seq::empty()
    } else {
        lines[0].push('\n') + ended_lines(lines.drop_first())
    }
}

pub proof fn lemma_ended_push(lines: Seq<Seq<char>>, line: Seq<char>)
    ensures
        ended_lines(lines.push(line)) == ended_lines(lines) + line.push('\n'),
    decreases lines.len(),
{
    let more = lines.push(line);
    if lines.len() == 0 {
        assert(more.drop_first() =~= Seq::<Seq<char>>::empty());
        assert(ended_lines(more.drop_first()) =~= Seq::<char>::empty());
        assert(ended_lines(more) =~= ended_lines(lines) + line.push('\n'));
    } else {
        assert(more.drop_first() =~= lines.drop_first().push(line));
        lemma_ended_push(lines.drop_first(), line);
        assert(ended_lines(more) =~= ended_lines(lines) + line.push('\n'));
    }
}

proof fn lemma_ended_rows(zone: Option<Seq<char>>, events: Seq<LogEvent>)
    ensures
        rows_text(zone, events) == ended_lines(rows(zone, events)),
    decreases events.len(),
{
    if events.len() > 0 {
        let before = events.drop_last();
        lemma_ended_rows(zone, before);
        let line = rows(zone, events).last();
        assert(rows(zone, events) =~= rows(zone, before).push(line));
        lemma_ended_push(rows(zone, before), line);
        assert(rows_text(zone, events) =~= rows_text(zone, before) + line.push('\n'));
    } else {
        assert(rows(zone, events) =~= Seq::<Seq<char>>::empty());
    }
}

} // verus!
