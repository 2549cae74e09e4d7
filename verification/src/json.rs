//! JSON text of values.

use vstd::prelude::*;
use vstd::string::*;

use crate::text::{decimal, push_decimal};
use crate::value::{Number, NumberView, Value, ValueView};

verus! {

/// A digit of a hexadecimal number.
pub open spec fn hex_digit(n: int) -> char {
    if n < 10 {
        ('0' as int + n) as char
    } else {
        ('a' as int + n - 10) as char
    }
}

/// A character inside the quotes of JSON: quotes, backslashes and control
/// characters are escaped.
pub open spec fn json_char(c: char) -> Seq<char> {
    if c == '"' {
        seq!['\\', '"']
    } else if c == '\\' {
        seq!['\\', '\\']
    } else if c == '\u{8}' {
        seq!['\\', 'b']
    } else if c == '\u{9}' {
        seq!['\\', 't']
    } else if c == '\u{a}' {
        seq!['\\', 'n']
    } else if c == '\u{c}' {
        seq!['\\', 'f']
    } else if c == '\u{d}' {
        seq!['\\', 'r']
    } else if (c as int) < 0x20 {
        seq!['\\', 'u', '0', '0', hex_digit(c as int / 16), hex_digit(c as int % 16)]
    } else {
        seq![c]
    }
}

/// The characters of a text inside the quotes of JSON.
pub open spec fn json_chars(s: Seq<char>) -> Seq<char>
    decreases s.len(),
{
    if s.len() == 0 {
        Seq::empty()
    } else {
        json_char(s[0]) + json_chars(s.drop_first())
    }
}

/// A text in JSON.
pub open spec fn json_string(s: Seq<char>) -> Seq<char> {
    seq!['"'] + json_chars(s) + seq!['"']
}

/// Writes a text in JSON with `serde_json::to_string`, which puts it in quotes and
/// escapes quotes, backslashes and control characters, and nothing else. It does
/// not fail, as it writes to memory.
#[verifier::external_body]
pub(crate) fn quote(s: &str) -> (r: String)
    ensures
        r@ == json_string(s@),
{
    serde_json::to_string(s).unwrap()
}

/// A whole number in decimal.
pub open spec fn signed(n: int) -> Seq<char> {
    if n < 0 {
        seq!['-'] + decimal((-n) as nat)
    } else {
        decimal(n as nat)
    }
}

/// A number as JSON has it.
pub open spec fn number_text(n: NumberView) -> Seq<char> {
    match n {
        NumberView::Signed(n) => signed(n as int),
        NumberView::Unsigned(n) => decimal(n as nat),
        NumberView::Decimal(t) => t,
    }
}

/// A value as JSON has it, without white space.
pub open spec fn value_text(v: ValueView) -> Seq<char>
    decreases v,
{
    match v {
        ValueView::Null => "null"@,
        ValueView::Bool(b) => if b { "true"@ } else { "false"@ },
        ValueView::Number(n) => number_text(n),
        ValueView::Text(t) => json_string(t),
        ValueView::Array(items) => seq!['['] + items_text(items) + seq![']'],
        ValueView::Object(entries) => seq!['{'] + entries_text(entries) + seq!['}'],
    }
}

/// Values with commas between them.
pub open spec fn items_text(items: Seq<ValueView>) -> Seq<char>
    decreases items,
{
    if items.len() == 0 {
        Seq::empty()
    } else {
        comma_after(items_text(items.drop_last()), items.len() > 1) + value_text(items.last())
    }
}

/// Entries with commas between them.
pub open spec fn entries_text(entries: Seq<(Seq<char>, ValueView)>) -> Seq<char>
    decreases entries,
{
    if entries.len() == 0 {
        Seq::empty()
    } else {
        comma_after(entries_text(entries.drop_last()), entries.len() > 1) + json_string(
            entries.last().0,
        ) + seq![':'] + value_text(entries.last().1)
    }
}

/// `s`, with a comma behind it if `more`.
pub open spec fn comma_after(s: Seq<char>, more: bool) -> Seq<char> {
    if more {
        s.push(',')
    } else {
        s
    }
}

/// The object of a list of entries.
pub open spec fn object_text(entries: Seq<(Seq<char>, ValueView)>) -> Seq<char> {
    seq!['{'] + entries_text(entries) + seq!['}']
}

/// The entries of a list, as they are seen.
pub open spec fn entry_views(entries: Seq<(String, Value)>) -> Seq<(Seq<char>, ValueView)> {
    entries.map_values(|e: (String, Value)| (e.0@, e.1@))
}

fn push_signed(out: &mut String, n: i64)
    ensures
        final(out)@ == old(out)@ + signed(n as int),
{
    if n < 0 {
        out.push('-');
        let magnitude: u64 = (-(n as i128)) as u64;
        push_decimal(out, magnitude);
        proof {
            assert(out@ =~= old(out)@ + signed(n as int));
        }
    } else {
        push_decimal(out, n as u64);
    }
}

/// Appends a value.
pub fn push_value(out: &mut String, value: &Value)
    ensures
        final(out)@ == old(out)@ + value_text(value@),
    decreases value,
{
    let ghost start = out@;
    match value {
        Value::Null => out.append("null"),
        Value::Bool(b) => if *b {
            out.append("true")
        } else {
            out.append("false")
        },
        Value::Number(n) => match n {
            Number::Signed(n) => push_signed(out, *n),
            Number::Unsigned(n) => push_decimal(out, *n),
            Number::Decimal(t) => out.append(t.as_str()),
        },
        Value::Text(t) => {
            let quoted = quote(t.as_str());
            out.append(quoted.as_str());
        },
        Value::Array(items) => {
            let ghost views = value@->Array_0;
            out.push('[');
            for i in 0..items.len()
                invariant
                    *value == Value::Array(*items),
                    views == value@->Array_0,
                    views.len() == items@.len(),
                    forall|k: int| 0 <= k < items@.len() ==> #[trigger] views[k] == items@[k]@,
                    out@ == start.push('[') + items_text(views.take(i as int)),
            {
                proof {
                    assert(views.take(i + 1).drop_last() =~= views.take(i as int));
                    assert(decreases_to!(*value => value->Array_0));
                    assert(decreases_to!(*items => items@));
                    assert(decreases_to!(items@ => items@[i as int]));
                }
                if i > 0 {
                    out.push(',');
                }
                push_value(out, &items[i]);
                proof {
                    assert(out@ =~= start.push('[') + items_text(views.take(i + 1)));
                }
            }
            out.push(']');
            proof {
                assert(views.take(items@.len() as int) =~= views);
                assert(out@ =~= start + value_text(value@));
            }
        },
        Value::Object(entries) => {
            push_object(out, entries);
            proof {
                assert(entry_views(entries@) =~= value@->Object_0);
            }
        },
    }
}

/// Appends the object of a list of entries.
pub fn push_object(out: &mut String, entries: &Vec<(String, Value)>)
    ensures
        final(out)@ == old(out)@ + object_text(entry_views(entries@)),
    decreases entries,
{
    let ghost start = out@;
    let ghost views = entry_views(entries@);
    out.push('{');
    for i in 0..entries.len()
        invariant
            views == entry_views(entries@),
            out@ == start.push('{') + entries_text(views.take(i as int)),
    {
        let entry = &entries[i];
        proof {
            assert(views.take(i + 1).drop_last() =~= views.take(i as int));
            assert(decreases_to!(*entries => entries@));
            assert(decreases_to!(entries@ => entries@[i as int]));
            assert(decreases_to!(entries@[i as int] => entries@[i as int].1));
        }
        if i > 0 {
            out.push(',');
        }
        let key = quote(entry.0.as_str());
        out.append(key.as_str());
        out.push(':');
        push_value(out, &entry.1);
        proof {
            assert(out@ =~= start.push('{') + entries_text(views.take(i + 1)));
        }
    }
    out.push('}');
    proof {
        assert(views.take(entries@.len() as int) =~= views);
        assert(out@ =~= start + object_text(views));
    }
}

} // verus!
