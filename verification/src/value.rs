//! Field values of a log event.

use vstd::prelude::*;

use crate::text::byte_len;

verus! {

/// A number as JSON has it.
#[derive(Debug, PartialEq)]
pub enum Number {
    Signed(i64),
    Unsigned(u64),
    /// A number with a fraction or an exponent, as it is written.
    Decimal(String),
}

/// A value as JSON has it.
#[derive(Debug, PartialEq)]
pub enum Value {
    Null,
    Bool(bool),
    Number(Number),
    Text(String),
    Array(Vec<Value>),
    Object(Vec<(String, Value)>),
}

/// What a [`Number`] holds.
pub enum NumberView {
    Signed(i64),
    Unsigned(u64),
    Decimal(Seq<char>),
}

/// What a [`Value`] holds.
pub enum ValueView {
    Null,
    Bool(bool),
    Number(NumberView),
    Text(Seq<char>),
    Array(Seq<ValueView>),
    Object(Seq<(Seq<char>, ValueView)>),
}

/// The bytes that a value is reckoned to take in JSON.
pub open spec fn value_size(v: ValueView) -> nat
    decreases v,
{
    match v {
        ValueView::Null => 4,
        ValueView::Bool(_) => 5,
        ValueView::Number(_) => 8,
        ValueView::Text(t) => byte_len(t) + 2,
        ValueView::Array(items) => 2 + item_sizes(items) + items.len(),
        ValueView::Object(entries) => 2 + entry_sizes(entries),
    }
}

/// The sizes of the items of an array, added up.
pub open spec fn item_sizes(items: Seq<ValueView>) -> nat
    decreases items,
{
    if items.len() == 0 {
        0
    } else {
        item_sizes(items.drop_last()) + value_size(items.last())
    }
}

/// The sizes of the entries of an object, added up.
pub open spec fn entry_sizes(entries: Seq<(Seq<char>, ValueView)>) -> nat
    decreases entries,
{
    if entries.len() == 0 {
        0
    } else {
        entry_sizes(entries.drop_last()) + byte_len(entries.last().0) + value_size(
            entries.last().1,
        ) + 4
    }
}

/// `n`, or the largest `usize` where `n` is larger.
pub open spec fn capped(n: nat) -> usize {
    if n <= usize::MAX {
        n as usize
    } else {
        usize::MAX
    }
}

impl Number {
    pub open spec fn view(&self) -> NumberView {
        match *self {
            Number::Signed(n) => NumberView::Signed(n),
            Number::Unsigned(n) => NumberView::Unsigned(n),
            Number::Decimal(t) => NumberView::Decimal(t@),
        }
    }
}

impl Value {
    pub open spec fn view(&self) -> ValueView
        decreases self,
    {
        match *self {
            Value::Null => ValueView::Null,
            Value::Bool(b) => ValueView::Bool(b),
            Value::Number(n) => ValueView::Number(n@),
            Value::Text(t) => ValueView::Text(t@),
            Value::Array(items) => ValueView::Array(
                Seq::new(
                    items@.len(),
                    |i: int| if 0 <= i < items@.len() { items@[i].view() } else { ValueView::Null },
                ),
            ),
            Value::Object(entries) => ValueView::Object(
                Seq::new(
                    entries@.len(),
                    |i: int| if 0 <= i < entries@.len() { (entries@[i].0@, entries@[i].1.view()) } else { (Seq::empty(), ValueView::Null) },
                ),
            ),
        }
    }
}

impl Number {
    /// A copy that holds the same number.
    pub fn duplicate(&self) -> (r: Number)
        ensures
            r@ == self@,
    {
        match self {
            Number::Signed(n) => Number::Signed(*n),
            Number::Unsigned(n) => Number::Unsigned(*n),
            Number::Decimal(t) => Number::Decimal(t.clone()),
        }
    }
}

impl Value {
    /// A text value.
    pub fn text(t: &str) -> (r: Value)
        ensures
            r@ == ValueView::Text(t@),
    {
        Value::Text(t.to_owned())
    }

    /// A copy that holds the same value.
    pub fn duplicate(&self) -> (r: Value)
        ensures
            r@ == self@,
        decreases self,
    {
        match self {
            Value::Null => Value::Null,
            Value::Bool(b) => Value::Bool(*b),
            Value::Number(n) => Value::Number(n.duplicate()),
            Value::Text(t) => Value::Text(t.clone()),
            Value::Array(items) => {
                let mut out: Vec<Value> = Vec::new();
                for i in 0..items.len()
                    invariant
                        *self == Value::Array(*items),
                        out@.len() == i,
                        forall|k: int| 0 <= k < i ==> (#[trigger] out@[k])@ == items@[k]@,
                {
                    proof {
                        assert(decreases_to!(*self => self->Array_0));
                        assert(decreases_to!(*items => items@));
                        assert(decreases_to!(items@ => items@[i as int]));
                    }
                    let item = items[i].duplicate();
                    out.push(item);
                }
                let r = Value::Array(out);
                proof {
                    assert(r@->Array_0 =~= self@->Array_0);
                }
                r
            },
            Value::Object(entries) => {
                let mut out: Vec<(String, Value)> = Vec::new();
                for i in 0..entries.len()
                    invariant
                        *self == Value::Object(*entries),
                        out@.len() == i,
                        forall|k: int|
                            0 <= k < i ==> (#[trigger] out@[k]).0@ == entries@[k].0@ && out@[k].1@
                                == entries@[k].1@,
                {
                    let entry = &entries[i];
                    proof {
                        assert(decreases_to!(*self => self->Object_0));
                        assert(decreases_to!(*entries => entries@));
                        assert(decreases_to!(entries@ => entries@[i as int]));
                        assert(decreases_to!(entries@[i as int] => entries@[i as int].1));
                    }
                    let value = entry.1.duplicate();
                    out.push((entry.0.clone(), value));
                }
                let r = Value::Object(out);
                proof {
                    assert(r@->Object_0 =~= self@->Object_0);
                }
                r
            },
        }
    }

    /// The bytes that the value is reckoned to take in JSON.
    pub fn estimated_size(&self) -> (r: usize)
        ensures
            r == capped(value_size(self@)),
        decreases self,
    {
        match self {
            Value::Null => 4,
            Value::Bool(_) => 5,
            Value::Number(_) => 8,
            Value::Text(t) => t.as_str().as_bytes().len().saturating_add(2),
            Value::Array(items) => {
                let mut sum: usize = 0;
                for i in 0..items.len()
                    invariant
                        *self == Value::Array(*items),
                        self@->Array_0.len() == items@.len(),
                        forall|k: int| 0 <= k < items@.len() ==> #[trigger] self@->Array_0[k] == items@[k]@,
                        sum == capped(item_sizes(self@->Array_0.take(i as int))),
                {
                    proof {
                        assert(self@->Array_0.take(i + 1).drop_last() =~= self@->Array_0.take(i as int));
                    }
                    sum = sum.saturating_add(items[i].estimated_size());
                }
                proof {
                    assert(self@->Array_0.take(items@.len() as int) =~= self@->Array_0);
                }
                sum.saturating_add(2).saturating_add(items.len())
            },
            Value::Object(entries) => {
                let mut sum: usize = 0;
                for i in 0..entries.len()
                    invariant
                        *self == Value::Object(*entries),
                        self@->Object_0.len() == entries@.len(),
                        forall|k: int|
                            0 <= k < entries@.len() ==> #[trigger] self@->Object_0[k] == (
                                entries@[k].0@,
                                entries@[k].1@,
                            ),
                        sum == capped(entry_sizes(self@->Object_0.take(i as int))),
                {
                    proof {
                        assert(self@->Object_0.take(i + 1).drop_last() =~= self@->Object_0.take(
                            i as int,
                        ));
                    }
                    let entry = &entries[i];
                    sum = sum.saturating_add(entry.0.as_str().as_bytes().len()).saturating_add(
                        entry.1.estimated_size(),
                    ).saturating_add(4);
                }
                proof {
                    assert(self@->Object_0.take(entries@.len() as int) =~= self@->Object_0);
                }
                sum.saturating_add(2)
            },
        }
    }
}

} // verus!
