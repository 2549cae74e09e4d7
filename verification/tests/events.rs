use std::sync::Arc;

use logpipe::event::{deserialize_timestamp, format_timestamp, timestamp_text};
use logpipe::map::StrMap;
use logpipe::parser::stamp::parse_timestamp;
use logpipe::sink::console::{encode, Encoding};
use logpipe::time::Timestamp;
use logpipe::value::{Number, Value};
use logpipe::LogEvent;

const FORMAT: &str = "%Y-%m-%d %H:%M:%S%.3f";

fn event(message: &str) -> LogEvent {
    LogEvent::new(message.to_string())
}

fn json(event: &LogEvent) -> serde_json::Value {
    serde_json::from_str(&event.to_json_line().ok().unwrap()).unwrap()
}

#[test]
fn serializes_flat_and_keeps_wall_clock_time() {
    let mut event = event("hi");
    event.timestamp = deserialize_timestamp("2026-09-07 11:04:08.914").ok().unwrap();
    event.level = "INFO".to_string();
    event.insert("app".to_string(), Value::text("delay-task"));

    let json = json(&event);
    assert_eq!(json["timestamp"], "2026-09-07 11:04:08.914");
    assert_eq!(json["level"], "INFO");
    assert_eq!(json["app"], "delay-task");
}

#[test]
fn shared_fields_are_flattened_and_overridden_by_fields() {
    let mut event = event("hi");
    let mut shared = StrMap::new();
    shared.insert("namespace".to_string(), Value::text("prod"));
    shared.insert("app".to_string(), Value::text("shared"));
    event.shared = Some(Arc::new(shared));
    event.insert("app".to_string(), Value::text("own"));

    let json = json(&event);
    assert_eq!(json["namespace"], "prod");
    assert_eq!(json["app"], "own");
    assert_eq!(event.get("namespace"), Some(&Value::text("prod")));
    assert_eq!(event.get("app"), Some(&Value::text("own")));
    assert!(event.estimated_size() > LogEvent::new("hi".to_string()).estimated_size());
}

fn naive(ts: &Timestamp) -> chrono::NaiveDateTime {
    chrono::NaiveDate::from_ymd_opt(ts.year, ts.month, ts.day)
        .unwrap()
        .and_hms_nano_opt(ts.hour, ts.minute, ts.second, ts.nano)
        .unwrap()
}

#[test]
fn fast_timestamp_matches_chrono() {
    let cases = [
        "2026-09-07 11:04:08.914",
        "0001-01-01 00:00:00.000",
        "9999-12-31 23:59:59.999",
        "2026-02-28 09:05:03.007",
    ];
    for raw in cases {
        let ts = deserialize_timestamp(raw).ok().unwrap();
        let fast = format_timestamp(&ts).unwrap();
        assert_eq!(fast, naive(&ts).format(FORMAT).to_string());
        assert_eq!(fast, raw);
    }
    let mut ts = deserialize_timestamp("2026-09-07 11:04:08.000").ok().unwrap();
    ts.nano = 999_999_999;
    assert_eq!(format_timestamp(&ts).unwrap(), "2026-09-07 11:04:08.999");

    let ancient = Timestamp { year: -1, month: 1, day: 1, hour: 0, minute: 0, second: 0, nano: 0 };
    assert!(format_timestamp(&ancient).is_none());
    let json = json(&LogEvent { timestamp: ancient, ..Default::default() });
    assert_eq!(json["timestamp"], naive(&ancient).format(FORMAT).to_string());
}

#[test]
fn appends_stack_trace_lines() {
    let mut event = event("boom");
    event.append_line("\tat com.foo.Bar.baz(Bar.java:1)");
    assert_eq!(event.message, "boom\n\tat com.foo.Bar.baz(Bar.java:1)");
}

#[test]
fn odd_times_are_written_as_chrono_writes_them() {
    for (year, second, nano) in [
        (-1, 0, 0),
        (-44, 3, 15_000_000),
        (10_000, 59, 999_999_999),
        (262_142, 1, 1_000_000),
        (2016, 59, 1_500_000_000),
        (2016, 59, 1_999_999_999),
    ] {
        let ts = Timestamp { year, month: 12, day: 31, hour: 23, minute: 59, second, nano };
        assert_eq!(timestamp_text(&ts), naive(&ts).format(FORMAT).to_string());
    }
}

#[test]
fn what_is_no_time_is_an_error() {
    let want = chrono::NaiveDateTime::parse_from_str("yesterday", FORMAT)
        .unwrap_err()
        .to_string();
    let err = deserialize_timestamp("yesterday").err().unwrap();
    assert_eq!(err.message(), want);
    assert!(deserialize_timestamp("2026-09-07").is_err());
}

#[test]
fn both_readers_agree_on_what_is_written() {
    for raw in ["2026-09-07 11:04:08.914", "0000-02-29 00:00:00.001"] {
        let ts = deserialize_timestamp(raw).ok().unwrap();
        assert_eq!(parse_timestamp(raw), Some(ts));
        assert_eq!(timestamp_text(&ts), raw);
    }
}

#[test]
fn json_is_what_serde_writes() {
    let mut event = event("say \"hi\"\\ \n\t\u{7}中文\u{1F600}");
    event.level = "IN/FO".to_string();
    event.insert("flag".to_string(), Value::Bool(true));
    event.insert("none".to_string(), Value::Null);
    event.insert("big".to_string(), Value::Number(Number::Unsigned(u64::MAX)));
    event.insert("neg".to_string(), Value::Number(Number::Signed(i64::MIN)));
    event.insert(
        "list".to_string(),
        Value::Array(vec![Value::text("a"), Value::Array(Vec::new()), Value::Bool(false)]),
    );
    event.insert(
        "map".to_string(),
        Value::Object(vec![("k\"".to_string(), Value::text("v"))]),
    );
    let line = event.to_json_line().ok().unwrap();
    let mut want = serde_json::Map::new();
    for (key, text) in [
        ("timestamp", timestamp_text(&event.timestamp)),
        ("level", event.level.clone()),
        ("trace_id", String::new()),
        ("span_id", String::new()),
        ("thread", String::new()),
        ("logger", String::new()),
        ("message", event.message.clone()),
        ("file", String::new()),
        ("host", String::new()),
    ] {
        want.insert(key.to_string(), serde_json::Value::from(text));
    }
    want.insert("flag".to_string(), serde_json::Value::from(true));
    want.insert("none".to_string(), serde_json::Value::Null);
    want.insert("big".to_string(), serde_json::Value::from(u64::MAX));
    want.insert("neg".to_string(), serde_json::Value::from(i64::MIN));
    want.insert(
        "list".to_string(),
        serde_json::Value::from(vec![
            serde_json::Value::from("a"),
            serde_json::Value::Array(Vec::new()),
            serde_json::Value::from(false),
        ]),
    );
    let mut inner = serde_json::Map::new();
    inner.insert("k\"".to_string(), serde_json::Value::from("v"));
    want.insert("map".to_string(), serde_json::Value::Object(inner));
    let got: serde_json::Value = serde_json::from_str(&line).unwrap();
    assert_eq!(got, serde_json::Value::Object(want));
    assert!(line.contains(&serde_json::to_string(&event.message).unwrap()));
    assert!(line.contains(r#""list":["a",[],false]"#), "{line}");
    assert!(line.starts_with(r#"{"timestamp":"#), "{line}");
}

#[test]
fn the_console_writes_one_line_for_each_event() {
    let mut a = event("one");
    a.timestamp = parse_timestamp("2026-09-07 11:04:08.914").unwrap();
    a.level = "INFO".to_string();
    a.logger = "c.a.Foo".to_string();
    let b = event("two");
    let text = encode(Encoding::Text, &vec![a, b]).ok().unwrap();
    let mut lines = text.lines();
    let first = lines.next().unwrap();
    assert!(first.starts_with("2026-09-07 11:04:08.914"), "{first}");
    assert!(first.contains("INFO") && first.ends_with("one"), "{first}");
    assert!(lines.next().unwrap().ends_with("two"));
    assert!(lines.next().is_none());
    let rows = encode(Encoding::Json, &vec![event("x"), event("y")]).ok().unwrap();
    assert_eq!(rows.matches('\n').count(), 2);
    assert_eq!(encode(Encoding::Json, &Vec::new()).ok().unwrap(), "");
}

#[test]
fn maps_keep_their_keys_in_order() {
    let mut map: StrMap<u32> = StrMap::new();
    assert!(map.is_empty());
    assert_eq!(map.insert("b".to_string(), 1), None);
    assert_eq!(map.insert("a".to_string(), 2), None);
    assert_eq!(map.insert("c".to_string(), 3), None);
    assert_eq!(map.insert("b".to_string(), 4), Some(1));
    let keys: Vec<&str> = (0..map.len()).map(|i| map.entry(i).0.as_str()).collect();
    assert_eq!(keys, ["a", "b", "c"]);
    *map.get_mut("b").unwrap() += 1;
    assert_eq!(map.get("b"), Some(&5));
    assert_eq!(map.remove("a"), Some(2));
    assert_eq!(map.remove("a"), None);
    assert!(!map.contains_key("a"));
    assert_eq!(map.len(), 2);
}

#[test]
fn sizes_are_reckoned() {
    assert_eq!(event("").estimated_size(), 160);
    let mut e = event("12345");
    assert_eq!(e.estimated_size(), 165);
    let before = e.estimated_size();
    e.insert("key".to_string(), Value::text("value"));
    assert!(e.estimated_size() >= before + 8);
}

#[test]
fn an_event_takes_fields_as_it_is_made() {
    let e = event("x").with_field("n".to_string(), Value::Number(Number::Signed(-3)));
    assert_eq!(e.get("n"), Some(&Value::Number(Number::Signed(-3))));
    assert_eq!(e.get("m"), None);
}

#[test]
fn members_stand_once() {
    let mut shared = StrMap::new();
    shared.insert("env".to_string(), Value::text("prod"));
    shared.insert("zone".to_string(), Value::text("a"));
    let mut event = event("hi").with_field("env".to_string(), Value::text("dev"));
    event.shared = Some(Arc::new(shared));
    let line = event.to_json_line().ok().unwrap();
    assert_eq!(line.matches("\"env\":").count(), 1, "{line}");
    assert_eq!(line.matches("\"zone\":").count(), 1, "{line}");
    assert!(line.contains("\"env\":\"dev\""), "{line}");
}

#[test]
fn a_new_event_has_the_present_time() {
    let before = chrono::Local::now().naive_local();
    let event = event("hi");
    let after = chrono::Local::now().naive_local();
    let text = timestamp_text(&event.timestamp);
    assert!(before.format(FORMAT).to_string() <= text, "{text}");
    assert!(text <= after.format(FORMAT).to_string(), "{text}");
}
