//! A log event: one record of the table.
//!
//! ```text
//! 2026-09-07 11:04:08.914 [TID:e89a4768...] [SpanID:e8b0e73e...] [thread-1] INFO  c.a.c.service.DelayTaskService -text
//! timestamp               trace_id          span_id              thread     level logger                          message
//! ```

use std::sync::Arc;

use vstd::prelude::*;
use vstd::string::*;

use crate::error::{Error, ErrorView};
use crate::json::{entry_views, object_text, push_object};
use crate::map::StrMap;
use crate::text::{byte_len, push_padded};
use crate::time::{chrono_text, chrono_time, clock_says, parse_chrono, present_time, reads_back};
use crate::time::{wall_clock, Timestamp};
use crate::value::{capped, entry_sizes, Value, ValueView};

verus! {

/// One log event.
pub struct LogEvent {
    /// The time as the line has it: no zone, no conversion.
    pub timestamp: Timestamp,
    /// INFO, WARN, ERROR and so on.
    pub level: String,
    /// What stands behind `TID:`.
    pub trace_id: String,
    /// What stands behind `SpanID:`.
    pub span_id: String,
    pub thread: String,
    pub logger: String,
    /// The text; the lines of a stack trace are merged into it.
    pub message: String,
    /// The file the event was read from, shared by all events of the file.
    pub file: Arc<String>,
    /// The host that the event was collected on.
    pub host: Arc<String>,
    /// Fields of this event.
    pub fields: StrMap<Value>,
    /// Fields of the source, shared by all its events. Where a key stands in
    /// `fields` too, that one counts.
    pub shared: Option<Arc<StrMap<Value>>>,
}

/// What an event holds beside its time.
pub struct Body {
    pub level: Seq<char>,
    pub trace_id: Seq<char>,
    pub span_id: Seq<char>,
    pub thread: Seq<char>,
    pub logger: Seq<char>,
    pub message: Seq<char>,
    pub file: Seq<char>,
    pub host: Seq<char>,
    pub fields: Map<Seq<char>, ValueView>,
    pub shared: Option<Map<Seq<char>, ValueView>>,
}

/// What the values of a map hold.
pub open spec fn field_views(m: Map<Seq<char>, Value>) -> Map<Seq<char>, ValueView> {
    m.map_values(|v: Value| v@)
}

/// What the entries of a list hold.
pub open spec fn list_views(list: Seq<(Seq<char>, Value)>) -> Seq<(Seq<char>, ValueView)> {
    list.map_values(|e: (Seq<char>, Value)| (e.0, e.1@))
}

impl Body {
    /// All texts empty, no field.
    pub open spec fn blank() -> Body {
        Body {
            level: Seq::empty(),
            trace_id: Seq::empty(),
            span_id: Seq::empty(),
            thread: Seq::empty(),
            logger: Seq::empty(),
            message: Seq::empty(),
            file: Seq::empty(),
            host: Seq::empty(),
            fields: Map::empty(),
            shared: None,
        }
    }

    /// The value of a field: the event's own, or else the source's.
    pub open spec fn lookup(self, key: Seq<char>) -> Option<ValueView> {
        if self.fields.dom().contains(key) {
            Some(self.fields[key])
        } else {
            match self.shared {
                Some(shared) => if shared.dom().contains(key) {
                    Some(shared[key])
                } else {
                    None
                },
                None => None,
            }
        }
    }

    /// The body with a line added to its message.
    pub open spec fn with_line(self, line: Seq<char>) -> Body {
        Body { message: self.message.push('\n') + line, ..self }
    }

    /// The body with a field of its own.
    pub open spec fn with_field(self, key: Seq<char>, value: ValueView) -> Body {
        Body { fields: self.fields.insert(key, value), ..self }
    }
}

/// The entries of `list` whose keys are not in `own`, in order.
pub open spec fn not_overridden(
    list: Seq<(Seq<char>, ValueView)>,
    own: Set<Seq<char>>,
) -> Seq<(Seq<char>, ValueView)>
    decreases list.len(),
{
    if list.len() == 0 {
        Seq::empty()
    } else {
        let rest = not_overridden(list.drop_last(), own);
        if own.contains(list.last().0) {
            rest
        } else {
            rest.push(list.last())
        }
    }
}

/// `s` with blanks behind it, at least `width` characters.
pub open spec fn left_aligned(s: Seq<char>, width: int) -> Seq<char>
    decreases width - s.len(),
{
    if s.len() >= width {
        s
    } else {
        left_aligned(s.push(' '), width)
    }
}

impl LogEvent {
    /// What the event holds beside its time.
    pub open spec fn body(&self) -> Body {
        Body {
            level: self.level@,
            trace_id: self.trace_id@,
            span_id: self.span_id@,
            thread: self.thread@,
            logger: self.logger@,
            message: self.message@,
            file: self.file@,
            host: self.host@,
            fields: field_views(self.fields@),
            shared: match self.shared {
                Some(shared) => Some(field_views(shared@)),
                None => None,
            },
        }
    }

    /// The time is one, and the fields are in order.
    pub open spec fn wf(&self) -> bool {
        &&& self.timestamp.wf()
        &&& self.fields.wf()
        &&& self.shared matches Some(shared) ==> shared.wf()
    }

    /// The source's fields, in the order of their keys.
    pub open spec fn shared_list(&self) -> Seq<(Seq<char>, ValueView)> {
        match self.shared {
            Some(shared) => list_views(shared.list()),
            None => Seq::empty(),
        }
    }

    /// The entries of the event's JSON object, `stamp` for its time: the fixed
    /// ones, the source's fields that the event does not override, its own.
    pub open spec fn json_entries(&self, stamp: Seq<char>) -> Seq<(Seq<char>, ValueView)> {
        seq![
            ("timestamp"@, ValueView::Text(stamp)),
            ("level"@, ValueView::Text(self.level@)),
            ("trace_id"@, ValueView::Text(self.trace_id@)),
            ("span_id"@, ValueView::Text(self.span_id@)),
            ("thread"@, ValueView::Text(self.thread@)),
            ("logger"@, ValueView::Text(self.logger@)),
            ("message"@, ValueView::Text(self.message@)),
            ("file"@, ValueView::Text(self.file@)),
            ("host"@, ValueView::Text(self.host@)),
        ] + not_overridden(self.shared_list(), self.fields@.dom()) + list_views(self.fields.list())
    }

    /// The bytes that the event is reckoned to take in JSON.
    pub open spec fn size(&self) -> nat {
        byte_len(self.level@) + byte_len(self.trace_id@) + byte_len(self.span_id@) + byte_len(
            self.thread@,
        ) + byte_len(self.logger@) + byte_len(self.message@) + byte_len(self.file@) + byte_len(
            self.host@,
        ) + entry_sizes(list_views(self.fields.list())) + entry_sizes(self.shared_list()) + 160
    }

    /// An event of nothing but a text, at the present time.
    pub fn new(message: String) -> (r: Self)
        ensures
            r.wf(),
            r.body() == (Body { message: message@, ..Body::blank() }),
            clock_says(r.timestamp),
    {
        let mut event = LogEvent::default();
        event.timestamp = present_time();
        event.message = message;
        event
    }

    /// The event with a field.
    pub fn with_field(self, key: String, value: Value) -> (r: Self)
        requires
            self.wf(),
        ensures
            r.wf(),
            r.timestamp == self.timestamp,
            r.body() == self.body().with_field(key@, value@),
    {
        let mut event = self;
        event.insert(key, value);
        event
    }

    /// Gives the event a field, and returns the value that it had.
    pub fn insert(&mut self, key: String, value: Value) -> (r: Option<Value>)
        requires
            old(self).wf(),
        ensures
            final(self).wf(),
            final(self).timestamp == old(self).timestamp,
            final(self).body() == old(self).body().with_field(key@, value@),
            final(self).file == old(self).file,
            final(self).host == old(self).host,
            final(self).shared == old(self).shared,
            r is Some <==> old(self).body().fields.dom().contains(key@),
            r matches Some(v) ==> v@ == old(self).body().fields[key@],
    {
        let ghost before = self.fields@;
        let r = self.fields.insert(key, value);
        proof {
            assert(field_views(before.insert(key@, value)) =~= field_views(before).insert(
                key@,
                value@,
            ));
        }
        r
    }

    /// The value of a field: the event's own, or else the source's.
    pub fn get(&self, key: &str) -> (r: Option<&Value>)
        requires
            self.wf(),
        ensures
            r is Some <==> self.body().lookup(key@) is Some,
            r matches Some(v) ==> self.body().lookup(key@) == Some(v@),
    {
        match self.fields.get(key) {
            Some(v) => Some(v),
            None => match &self.shared {
                Some(shared) => shared.get(key),
                None => None,
            },
        }
    }

    /// Adds a line, as of a stack trace, to the message.
    pub fn append_line(&mut self, line: &str)
        ensures
            final(self).body() == old(self).body().with_line(line@),
            old(self).wf() ==> final(self).wf(),
            final(self).timestamp == old(self).timestamp,
            final(self).file == old(self).file,
            final(self).host == old(self).host,
            final(self).shared == old(self).shared,
    {
        self.message.push('\n');
        self.message.append(line);
    }

    /// The bytes that the event is reckoned to take in JSON; batches are cut by
    /// it.
    pub fn estimated_size(&self) -> (r: usize)
        ensures
            r == capped(self.size()),
    {
        let fixed: usize = self.level.as_str().as_bytes().len().saturating_add(
            self.trace_id.as_str().as_bytes().len(),
        ).saturating_add(self.span_id.as_str().as_bytes().len()).saturating_add(
            self.thread.as_str().as_bytes().len(),
        ).saturating_add(self.logger.as_str().as_bytes().len()).saturating_add(
            self.message.as_str().as_bytes().len(),
        ).saturating_add(self.file.as_str().as_bytes().len()).saturating_add(
            self.host.as_str().as_bytes().len(),
        );
        let own: usize = fields_size(&self.fields);
        let shared: usize = match &self.shared {
            Some(shared) => fields_size(shared),
            None => 0,
        };
        fixed.saturating_add(own).saturating_add(shared).saturating_add(160)
    }

    /// The event as one line of JSON.
    pub fn to_json_line(&self) -> (r: Result<String, Error>)
        requires
            self.wf(),
        ensures
            r matches Ok(line) && line@ == object_text(
                self.json_entries(wall_clock(self.timestamp)),
            ),
    {
        let stamp = timestamp_text(&self.timestamp);
        Ok(self.to_json_with(stamp))
    }

    /// The event as one line of JSON, its time written as `stamp`.
    pub fn to_json_with(&self, stamp: String) -> (r: String)
        requires
            self.wf(),
        ensures
            r@ == object_text(self.json_entries(stamp@)),
    {
        let mut entries: Vec<(String, Value)> = Vec::new();
        entries.push(("timestamp".to_owned(), Value::Text(stamp)));
        entries.push(("level".to_owned(), Value::text(self.level.as_str())));
        entries.push(("trace_id".to_owned(), Value::text(self.trace_id.as_str())));
        entries.push(("span_id".to_owned(), Value::text(self.span_id.as_str())));
        entries.push(("thread".to_owned(), Value::text(self.thread.as_str())));
        entries.push(("logger".to_owned(), Value::text(self.logger.as_str())));
        entries.push(("message".to_owned(), Value::text(self.message.as_str())));
        entries.push(("file".to_owned(), Value::text(self.file.as_str())));
        entries.push(("host".to_owned(), Value::text(self.host.as_str())));
        let ghost fixed = entry_views(entries@);
        if let Some(shared) = &self.shared {
            let ghost list = list_views(shared.list());
            proof {
                assert(entry_views(entries@) =~= fixed + not_overridden(list.take(0), self.fields@.dom()));
            }
            let count: usize = shared.len();
            for i in 0..count
                invariant
                    count == list.len(),
                    self.fields.wf(),
                    list == list_views(shared.list()),
                    entry_views(entries@) == fixed + not_overridden(
                        list.take(i as int),
                        self.fields@.dom(),
                    ),
            {
                let (key, value) = shared.entry(i);
                let ghost before = entries@;
                proof {
                    assert(list.take(i + 1).drop_last() =~= list.take(i as int));
                    assert(list.take(i + 1).last() == (key@, value@));
                }
                if !self.fields.contains_key(key.as_str()) {
                    entries.push((key.clone(), value.duplicate()));
                    proof {
                        assert(entry_views(entries@) =~= entry_views(before).push((key@, value@)));
                        assert(entry_views(entries@) =~= fixed + not_overridden(
                            list.take(i + 1),
                            self.fields@.dom(),
                        ));
                    }
                }
            }
            proof {
                assert(list.take(shared.list().len() as int) =~= list);
            }
        }
        let ghost base = fixed + not_overridden(self.shared_list(), self.fields@.dom());
        let ghost own = list_views(self.fields.list());
        proof {
            assert(entry_views(entries@) =~= base + own.take(0));
        }
        let count: usize = self.fields.len();
        for i in 0..count
            invariant
                count == own.len(),
                own == list_views(self.fields.list()),
                entry_views(entries@) == base + own.take(i as int),
        {
            let (key, value) = self.fields.entry(i);
            let ghost before = entries@;
            entries.push((key.clone(), value.duplicate()));
            proof {
                assert(entry_views(entries@) =~= entry_views(before).push((key@, value@)));
                assert(own.take(i + 1) =~= own.take(i as int).push(own[i as int]));
                assert(entry_views(entries@) =~= base + own.take(i + 1));
            }
        }
        proof {
            assert(own.take(self.fields.list().len() as int) =~= own);
            assert(fixed =~= seq![
                ("timestamp"@, ValueView::Text(stamp@)),
                ("level"@, ValueView::Text(self.level@)),
                ("trace_id"@, ValueView::Text(self.trace_id@)),
                ("span_id"@, ValueView::Text(self.span_id@)),
                ("thread"@, ValueView::Text(self.thread@)),
                ("logger"@, ValueView::Text(self.logger@)),
                ("message"@, ValueView::Text(self.message@)),
                ("file"@, ValueView::Text(self.file@)),
                ("host"@, ValueView::Text(self.host@)),
            ]);
            assert(entry_views(entries@) =~= self.json_entries(stamp@));
        }
        let mut out = String::new();
        push_object(&mut out, &entries);
        proof {
            assert(out@ =~= object_text(self.json_entries(stamp@)));
        }
        out
    }

    /// What the line for people to read says.
    pub open spec fn text_line(&self) -> Seq<char> {
        wall_clock(self.timestamp) + " [TID:"@ + self.trace_id@ + "] [SpanID:"@ + self.span_id@
            + "] ["@ + self.thread@ + "] "@ + left_aligned(self.level@, 5) + " "@ + self.logger@
            + " -"@ + self.message@
    }

    /// The event as a line for people to read.
    pub fn to_text_line(&self) -> (r: String)
        requires
            self.wf(),
        ensures
            r@ == self.text_line(),
    {
        let mut out = chrono_text(&self.timestamp);
        out.append(" [TID:");
        out.append(self.trace_id.as_str());
        out.append("] [SpanID:");
        out.append(self.span_id.as_str());
        out.append("] [");
        out.append(self.thread.as_str());
        out.append("] ");
        let level = align_left(&self.level, 5);
        out.append(level.as_str());
        out.append(" ");
        out.append(self.logger.as_str());
        out.append(" -");
        out.append(self.message.as_str());
        out
    }
}

impl Default for LogEvent {
    /// All texts empty, no field, 1970-01-01 00:00:00.
    fn default() -> (r: Self)
        ensures
            r.wf(),
            r.timestamp == (Timestamp { year: 1970, month: 1, day: 1, hour: 0, minute: 0, second: 0, nano: 0 }),
            r.body() == Body::blank(),
    {
        let fields: StrMap<Value> = StrMap::new();
        proof {
            assert(field_views(fields@) =~= Map::empty());
        }
        LogEvent {
            timestamp: Timestamp::default(),
            level: String::new(),
            trace_id: String::new(),
            span_id: String::new(),
            thread: String::new(),
            logger: String::new(),
            message: String::new(),
            file: Arc::new(String::new()),
            host: Arc::new(String::new()),
            fields,
            shared: None,
        }
    }
}

fn fields_size(fields: &StrMap<Value>) -> (r: usize)
    ensures
        r == capped(entry_sizes(list_views(fields.list()))),
{
    let ghost list = list_views(fields.list());
    let mut sum: usize = 0;
    let count: usize = fields.len();
    for i in 0..count
        invariant
            count == list.len(),
            list == list_views(fields.list()),
            sum == capped(entry_sizes(list.take(i as int))),
    {
        let (key, value) = fields.entry(i);
        proof {
            assert(list.take(i + 1).drop_last() =~= list.take(i as int));
        }
        sum = sum.saturating_add(key.as_str().as_bytes().len()).saturating_add(
            value.estimated_size(),
        ).saturating_add(4);
    }
    proof {
        assert(list.take(fields.list().len() as int) =~= list);
    }
    sum
}

fn align_left(s: &String, width: usize) -> (r: String)
    ensures
        r@ == left_aligned(s@, width as int),
{
    let mut out = s.clone();
    let mut count: usize = s.as_str().unicode_len();
    while count < width
        invariant
            count == out@.len(),
            left_aligned(out@, width as int) == left_aligned(s@, width as int),
        decreases width - count,
    {
        out.push(' ');
        count += 1;
    }
    out
}

/// The time as the table has it: written digit by digit where the year has four
/// digits and there is no leap second, else by chrono.
pub fn timestamp_text(ts: &Timestamp) -> (r: String)
    requires
        ts.wf(),
    ensures
        r@ == wall_clock(*ts),
{
    match format_timestamp(ts) {
        Some(text) => text,
        None => chrono_text(ts),
    }
}

/// The time written digit by digit.
///
/// `None` where the year does not have four digits, or where a leap second takes
/// the milliseconds past 999.
pub fn format_timestamp(ts: &Timestamp) -> (r: Option<String>)
    requires
        ts.wf(),
    ensures
        r is Some <==> 0 <= ts.year <= 9999 && ts.nano < 1_000_000_000,
        r matches Some(text) ==> text@ == wall_clock(*ts),
{
    if ts.year < 0 || ts.year > 9999 {
        return None;
    }
    let millis: u32 = ts.nano / 1_000_000;
    if millis > 999 {
        return None;
    }
    let mut out = String::new();
    push_padded(&mut out, ts.year as u64, 4);
    out.push('-');
    push_padded(&mut out, ts.month as u64, 2);
    out.push('-');
    push_padded(&mut out, ts.day as u64, 2);
    out.push(' ');
    push_padded(&mut out, ts.hour as u64, 2);
    out.push(':');
    push_padded(&mut out, ts.minute as u64, 2);
    out.push(':');
    push_padded(&mut out, ts.second as u64, 2);
    out.push('.');
    push_padded(&mut out, millis as u64, 3);
    proof {
        assert(out@ =~= wall_clock(*ts));
    }
    Some(out)
}

/// Reads a time back that was written for the table.
pub fn deserialize_timestamp(raw: &str) -> (r: Result<Timestamp, Error>)
    ensures
        match (r, chrono_time(raw@)) {
            (Ok(ts), Ok(want)) => ts == want && ts.wf(),
            (Err(e), Err(words)) => e@ == ErrorView::Other(words),
            _ => false,
        },
        reads_back(raw@, chrono_time(raw@)),
{
    match parse_chrono(raw) {
        Ok(ts) => Ok(ts),
        Err(words) => Err(Error::Other(words)),
    }
}

} // verus!
