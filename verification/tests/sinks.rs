use std::io::Read;

use logpipe::parser::stamp::parse_timestamp;
use logpipe::sink::clickhouse::{escape_literal, read_reply, HealthStep};
use logpipe::sink::console::{encode, Encoding};
use logpipe::sink::zone::{offset_at, push_offset};
use logpipe::sink::{ClickhouseSink, ConsoleSink};
use logpipe::{Error, LogEvent};

fn sink() -> ClickhouseSink {
    ClickhouseSink::new("http://ck:8123//", "logs", "app_log")
}

fn event(message: &str) -> LogEvent {
    let mut event = LogEvent::new(message.to_string());
    event.timestamp = parse_timestamp("2026-09-07 11:04:08.914").unwrap();
    event
}

const BODY: &str = "    `timestamp` DateTime64(3),
    `level`     LowCardinality(String),
    `trace_id`  String,
    `span_id`   String,
    `thread`    String,
    `logger`    String,
    `message`   String,
    `file`      String,
    `host`      LowCardinality(String),
    INDEX `idx_trace_id` `trace_id` TYPE bloom_filter GRANULARITY 4";

const LAYOUT: &str = "PARTITION BY toYYYYMMDD(`timestamp`)
ORDER BY (`timestamp`, `level`, `trace_id`)
TTL toDateTime(`timestamp`) + INTERVAL 30 DAY";

const ADDS: &str = "ADD COLUMN IF NOT EXISTS `level` LowCardinality(String),
    ADD COLUMN IF NOT EXISTS `trace_id` String,
    ADD COLUMN IF NOT EXISTS `span_id` String,
    ADD COLUMN IF NOT EXISTS `thread` String,
    ADD COLUMN IF NOT EXISTS `logger` String,
    ADD COLUMN IF NOT EXISTS `message` String,
    ADD COLUMN IF NOT EXISTS `file` String,
    ADD COLUMN IF NOT EXISTS `host` LowCardinality(String)";

const INDEX: &str =
    "ADD INDEX IF NOT EXISTS `idx_trace_id` `trace_id` TYPE bloom_filter GRANULARITY 4";

#[test]
fn a_table_on_one_server() {
    let want = format!(
        "CREATE TABLE IF NOT EXISTS `logs`.`app_log`\n(\n{BODY}\n)\nENGINE = MergeTree\n{LAYOUT};\n\nALTER TABLE `logs`.`app_log`\n    {ADDS},\n    {INDEX}"
    );
    assert_eq!(sink().create_table_ddl(), want);
}

#[test]
fn a_table_on_a_cluster() {
    let want = format!(
        "CREATE TABLE IF NOT EXISTS `logs`.`app_log_local` ON CLUSTER `bj`\n(\n{BODY}\n)\nENGINE = ReplicatedMergeTree('/clickhouse/tables/{{shard}}/logs/app_log_local', '{{replica}}')\n{LAYOUT};\n\nCREATE TABLE IF NOT EXISTS `logs`.`app_log` ON CLUSTER `bj`\nAS `logs`.`app_log_local`\nENGINE = Distributed(`bj`, `logs`, `app_log_local`, rand());\n\nALTER TABLE `logs`.`app_log_local` ON CLUSTER `bj`\n    {ADDS},\n    {INDEX};\n\nALTER TABLE `logs`.`app_log` ON CLUSTER `bj`\n    {ADDS}"
    );
    assert_eq!(sink().cluster("bj").create_table_ddl(), want);
    assert_eq!(sink().local_table(), "app_log_local");
}

#[test]
fn more_columns_and_a_zone() {
    let ddl = sink()
        .timezone(chrono_tz::Asia::Shanghai)
        .extra_columns(vec![
            ("service_name".to_string(), "String".to_string()),
            ("timestamp".to_string(), "String".to_string()),
            ("level".to_string(), "Int64".to_string()),
            ("service_name".to_string(), "Int64".to_string()),
        ])
        .create_table_ddl();
    assert!(ddl.contains("    `timestamp`    DateTime64(3, 'Asia/Shanghai'),\n"), "{ddl}");
    assert!(ddl.contains("    `service_name` String,\n"), "{ddl}");
    assert_eq!(ddl.matches("`service_name`").count(), 2, "{ddl}");
    assert!(!ddl.contains("Int64,\n"), "{ddl}");
    assert!(ddl.ends_with("MODIFY COLUMN `timestamp` DateTime64(3, 'Asia/Shanghai')"), "{ddl}");
}

#[test]
fn rows_are_lines_of_json() {
    let rows = sink().insert_rows(&vec![event("one"), event("two")]);
    let lines: Vec<serde_json::Value> =
        rows.lines().map(|line| serde_json::from_str(line).unwrap()).collect();
    assert_eq!(lines.len(), 2);
    assert_eq!(lines[0]["message"], "one");
    assert_eq!(lines[1]["timestamp"], "2026-09-07 11:04:08.914");
    assert!(rows.ends_with('\n'));
    assert_eq!(sink().insert_sql(), "INSERT INTO `logs`.`app_log` FORMAT JSONEachRow");
}

#[test]
fn rows_are_not_broken_by_what_they_hold() {
    let message = "a\nb\t\"c\\\u{1}\u{1f}\u{7f}\r\u{8}\u{c}é";
    let rows = sink().insert_rows(&vec![event(message), event("\n"), event("")]);
    let lines: Vec<&str> = rows.split('\n').collect();
    assert_eq!(lines.len(), 4);
    assert_eq!(lines[3], "");
    let want = "\"message\":\"a\\nb\\t\\\"c\\\\\\u0001\\u001f\u{7f}\\r\\b\\fé\"";
    assert!(lines[0].contains(want), "{}", lines[0]);
    let read: serde_json::Value = serde_json::from_str(lines[0]).unwrap();
    assert_eq!(read["message"], message);
    assert!(lines[1].contains("\"message\":\"\\n\""), "{}", lines[1]);
    assert!(lines[2].contains("\"message\":\"\""), "{}", lines[2]);
}

#[test]
fn quoted_texts_can_be_told_apart() {
    let texts = ["'", "\\", "\\'", "''", "\\\\", ""];
    for (i, a) in texts.iter().enumerate() {
        for (j, b) in texts.iter().enumerate() {
            assert_eq!(escape_literal(a) == escape_literal(b), i == j, "{a} {b}");
        }
    }
}

#[test]
fn rows_carry_the_offset_of_the_zone() {
    let sink = sink().timezone(chrono_tz::Asia::Shanghai);
    let rows = sink.insert_rows(&vec![event("x")]);
    assert!(rows.contains("\"2026-09-07 11:04:08.914+08:00\""), "{rows}");
}

#[test]
fn offsets_follow_the_clock() {
    let berlin = chrono_tz::Europe::Berlin;
    let at = |raw: &str| offset_at(&berlin, &parse_timestamp(raw).unwrap());
    assert_eq!(at("2026-01-01 00:00:00"), 3600);
    assert_eq!(at("2026-07-01 00:00:00"), 7200);
    assert_eq!(at("2026-10-25 02:30:00"), 7200, "shown twice: the first");
    assert_eq!(at("2026-03-29 02:30:00"), 7200, "skipped: by UTC");
    let mut out = String::new();
    push_offset(&mut out, -12_600);
    push_offset(&mut out, 0);
    push_offset(&mut out, 1_172);
    assert_eq!(out, "-03:30+00:00+00:19:32");
}

#[test]
fn requests_are_compressed() {
    let body = "line\n".repeat(1_000).into_bytes();
    let request = sink()
        .auth("me", "SECRET-REDACTED")
        .timeout(5_000)
        .async_insert(true)
        .request("INSERT", body.clone())
        .ok()
        .unwrap();
    assert_eq!(request.endpoint, "http://ck:8123");
    assert!(request.compressed && request.body.len() < body.len() / 4);
    let mut plain = Vec::new();
    flate2::read::GzDecoder::new(&request.body[..]).read_to_end(&mut plain).unwrap();
    assert_eq!(plain, body);
    assert_eq!(request.auth, Some(("me".to_string(), "SECRET-REDACTED".to_string())));
    assert_eq!(request.timeout_ms, 5_000);
    let settings: Vec<(&str, &str)> =
        request.settings.iter().map(|(k, v)| (k.as_str(), v.as_str())).collect();
    assert_eq!(
        settings,
        [
            ("query", "INSERT"),
            ("date_time_input_format", "best_effort"),
            ("input_format_skip_unknown_fields", "1"),
            ("async_insert", "1"),
            ("wait_for_async_insert", "1"),
        ]
    );
}

#[test]
fn empty_bodies_are_not_compressed() {
    let request = sink().request("SELECT 1", Vec::new()).ok().unwrap();
    assert!(!request.compressed && request.body.is_empty() && request.auth.is_none());
    assert_eq!(request.settings.len(), 3);
    let request = sink().compress(false).request("INSERT", vec![1, 2]).ok().unwrap();
    assert!(!request.compressed);
    assert_eq!(request.body, [1, 2]);
    assert_eq!(request.timeout_ms, 30_000);
}

#[test]
fn a_body_that_cannot_be_compressed_is_an_error() {
    let err = sink().packed_request("INSERT", Err("full".to_string())).err().unwrap();
    assert!(matches!(err, Error::Io { .. }));
    assert!(err.message().contains("压缩 ClickHouse 请求体失败"), "{}", err.message());
    assert!(sink().packed_request("INSERT", Ok(vec![1])).is_ok());
}

#[test]
fn the_table_is_looked_at_step_by_step() {
    let sink = ClickhouseSink::new("http://ck", "lo'gs", "app").extra_columns(vec![(
        "env".to_string(),
        "String".to_string(),
    )]);
    assert_eq!(sink.health_query(HealthStep::Ping).unwrap(), "SELECT 1");
    assert_eq!(sink.health_reply(HealthStep::Ping, "1\n").ok().unwrap(), HealthStep::Exists);
    assert_eq!(sink.health_query(HealthStep::Exists).unwrap(), "EXISTS TABLE `lo'gs`.`app`");
    let err = sink.health_reply(HealthStep::Exists, "0\n").err().unwrap();
    assert!(matches!(err, Error::Sink(_)));
    assert!(err.message().contains("表 lo'gs.app 不存在"), "{}", err.message());
    assert_eq!(sink.health_reply(HealthStep::Exists, " 1\n").ok().unwrap(), HealthStep::Columns);
    assert_eq!(
        sink.health_query(HealthStep::Columns).unwrap(),
        "SELECT name FROM system.columns WHERE database = 'lo\\'gs' AND table = 'app' FORMAT TSV"
    );
    let all = "timestamp\nlevel\ntrace_id\nspan_id\nthread\nlogger\nmessage\nfile\nhost\n";
    let err = sink.health_reply(HealthStep::Columns, all).err().unwrap();
    assert!(err.message().contains("缺列 env："), "{}", err.message());
    let more = format!("{all} env \r\n\nother\n");
    assert_eq!(sink.health_reply(HealthStep::Columns, &more).ok().unwrap(), HealthStep::Done);
    assert_eq!(sink.health_query(HealthStep::Done), None);
    assert_eq!(sink.expected_columns().len(), 10);
    assert_eq!(escape_literal(r"a\b'c"), r"a\\b\'c");
}

#[test]
fn replies_that_are_no_success_are_errors() {
    assert_eq!(read_reply(200, "200 OK", "fine".to_string()).ok().unwrap(), "fine");
    assert!(read_reply(299, "299", String::new()).is_ok());
    let err = read_reply(500, "500 Internal Server Error", " boom\n".to_string()).err().unwrap();
    assert!(
        err.message().contains("ClickHouse 返回 500 Internal Server Error: boom"),
        "{}",
        err.message()
    );
    assert!(read_reply(199, "199", String::new()).is_err());
}

#[test]
fn the_console_is_written_to_in_lines() {
    let sink = ConsoleSink::default();
    assert_eq!(sink, ConsoleSink::new(Encoding::Json));
    assert!(!sink.stderr && sink.stderr().stderr);
    let events = vec![event("a\nb"), event("c")];
    let json = encode(Encoding::Json, &events).ok().unwrap();
    assert_eq!(json, self::sink().insert_rows(&events));
    let text = encode(Encoding::Text, &events).ok().unwrap();
    assert_eq!(text.matches('\n').count(), 3);
    assert!(text.ends_with(" -c\n"), "{text}");
}
