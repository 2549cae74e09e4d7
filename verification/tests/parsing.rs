use std::sync::Arc;

use chrono::{Datelike, Local, TimeZone, Timelike};

use logpipe::event::timestamp_text;
use logpipe::parser::access::{level_of_status, parse_u16, take_quoted};
use logpipe::parser::ids::{normalize_span_id, normalize_trace_id};
use logpipe::parser::pattern::captured_event;
use logpipe::parser::stamp::{parse_clf_timestamp, parse_gin_timestamp, parse_timestamp};
use logpipe::parser::{
    Aggregator, BoxedParser, ChainParser, ContainerFormat, GinParser, LogFormat, LogbackParser,
    NginxParser, Parser, RegexParser,
};
use logpipe::time::Timestamp;
use logpipe::value::Value;
use logpipe::{Error, LogEvent};

const LINE: &str = "2026-09-07 11:04:08.914 [TID:e89a476882236ce0f1186d1522c8f59f] [SpanID:e8b0e73e2132f21c] [scheduledThreadPoolExecutor-1] INFO  c.a.c.service.DelayTaskService -redis延时任务触发检查,action数量0";

const GIN_LINE: &str = r#"[GIN] 2026/09/07 - 10:07:01 | 200 |      40.601µs |    172.16.250.3 | POST     "/extra_text""#;

const NGINX_LINE: &str = r#"127.0.0.6 - - [07/Sep/2026:18:06:53 +0800] "GET / HTTP/1.1" 200 601 "-" "kube-probe/1.28+" "-""#;

fn wall(event: &LogEvent) -> String {
    timestamp_text(&event.timestamp)
}

#[test]
fn parses_our_format() {
    let event = RegexParser::new().parse(LINE).expect("应当匹配");
    assert_eq!(event.level, "INFO");
    assert_eq!(event.trace_id, "e89a476882236ce0f1186d1522c8f59f");
    assert_eq!(event.span_id, "e8b0e73e2132f21c");
    assert_eq!(event.thread, "scheduledThreadPoolExecutor-1");
    assert_eq!(event.logger, "c.a.c.service.DelayTaskService");
    assert_eq!(event.message, "redis延时任务触发检查,action数量0");
    assert_eq!(wall(&event), "2026-09-07 11:04:08.914");
}

#[test]
fn hand_parser_matches_regex() {
    let regex = RegexParser::new();
    let hand = LogbackParser;
    let lines = [
        LINE,
        "2026-09-07 11:04:08.914 [main] WARN  c.a.Foo -启动慢",
        "2026-09-07 15:20:43,633 [DEBUG] o.s.w.Foo Returning handler method [public x]",
        "2026-09-07 15:20:43,633 [http-nio-8080-exec-1] [WARN] c.j.b.Foo -慢查询",
        "2026-09-07T15:20:43.633123456 ERROR c.j.b.Foo - 带空格的分隔",
        "2026-09-07 15:20:43 INFO c.j.b.Foo 没有横线",
        "2026-09-07 15:20:43 INFO c.j.b.Foo  -  正文前多一个空格",
        "2026-09-07 15:20:43 INFO c.j.b.Foo",
        "2026-09-07 15:20:43 INFO c.j.b.Foo -",
        "2026-09-07 15:20:43 [TID:][SpanID:][t]INFO c.j.b.Foo -紧挨着",
        "2026-09-07 15:20:43 [SpanID:s] [TID:t] INFO c.j.b.Foo -顺序反了",
        "2026-09-07 15:20:43 [TID: 带空格 ] INFO c.j.b.Foo -x",
        "2026-09-07 15:20:43 [INFO] [WARN] c.j.b.Foo -两个大写括号",
        "2026-09-07 15:20:43 [INFO logger -少个右括号",
        "2026-09-07 15:20:43 INFO] logger -少个左括号",
        "2026-09-07 15:20:43 [tid] [span] [thread] INFO logger -三个普通括号",
        "\tat com.foo.Bar.baz(Bar.java:1)",
        "2026-09-07 15:20:43. INFO c.j.b.Foo -小数点后没数字",
        "2026-09-07 15:20:43.1234567890 INFO c.j.b.Foo -小数十位",
        "2026-09-07 15:20:43INFO c.j.b.Foo -时间后没空白",
        "2026-09-07 15:20:43 info c.j.b.Foo -小写级别",
        "2026-09-07 15:20:43 INFOx c.j.b.Foo -级别后粘着小写",
        "2026-09-07 15:20:43 INFO",
        "2026-09-07 15:20:43 [t] INFO",
        "2026/09/07 15:20:43 INFO c.j.b.Foo -日期分隔符不对",
        "",
    ];
    let fields = |event: Option<LogEvent>| {
        event.map(|e| {
            (
                e.timestamp,
                e.level,
                e.trace_id,
                e.span_id,
                e.thread,
                e.logger,
                e.message,
            )
        })
    };
    for line in lines {
        assert_eq!(fields(hand.parse(line)), fields(regex.parse(line)), "行: {line:?}");
    }
}

#[test]
fn parses_line_without_trace_ids() {
    let event = RegexParser::new()
        .parse("2026-09-07 11:04:08.914 [main] WARN  c.a.Foo -启动慢")
        .expect("应当匹配");
    assert_eq!(event.thread, "main");
    assert!(event.trace_id.is_empty());
    assert_eq!(event.message, "启动慢");
}

#[test]
fn normalizes_trace_ids_for_jaeger() {
    for parser in [
        Box::new(RegexParser::new()) as Box<dyn Parser>,
        Box::new(LogbackParser),
    ] {
        let event = parser
            .parse("2026-09-07 11:04:08.914 [TID:E89A476882236CE0F1186D1522C8F59F] [SpanID:E8B0E73E2132F21C] [main] INFO c.a.Foo -x")
            .expect("应当匹配");
        assert_eq!(event.trace_id, "e89a476882236ce0f1186d1522c8f59f");
        assert_eq!(event.span_id, "e8b0e73e2132f21c");

        let event = parser
            .parse("2026-09-07 11:04:08.914 [TID:e8b0e73e2132f21c] [SpanID:e8b0e73e2132f21c] [main] INFO c.a.Foo -x")
            .expect("应当匹配");
        assert_eq!(event.trace_id, "0000000000000000e8b0e73e2132f21c");
        assert_eq!(event.span_id, "e8b0e73e2132f21c", "span id 不补零");

        let event = parser
            .parse("2026-09-07 11:04:08.914 [TID:N/A] [main] INFO c.a.Foo -x")
            .expect("应当匹配");
        assert!(event.trace_id.is_empty(), "{:?}", event.trace_id);
        assert_eq!(event.thread, "main");

        let event = parser
            .parse("2026-09-07 11:04:08.914 [TID:a1b2c3d4e5f6.53.17257470000000001] [main] INFO c.a.Foo -x")
            .expect("应当匹配");
        assert_eq!(event.trace_id, "a1b2c3d4e5f6.53.17257470000000001");
    }
}

#[test]
fn parses_bracketed_level_with_comma_millis() {
    let event = RegexParser::new()
        .parse("2026-09-07 15:20:43,633 [DEBUG] o.s.w.s.m.m.a.RequestMappingHandlerMapping Returning handler method [public com.jubotech.framework.domain.base.BaseResp com.jubotech.business.web.controller.UploadController.health() throws java.lang.Exception]")
        .expect("应当匹配");
    assert_eq!(event.level, "DEBUG");
    assert_eq!(event.logger, "o.s.w.s.m.m.a.RequestMappingHandlerMapping");
    assert!(event.thread.is_empty());
    assert_eq!(
        event.message,
        "Returning handler method [public com.jubotech.framework.domain.base.BaseResp com.jubotech.business.web.controller.UploadController.health() throws java.lang.Exception]"
    );
    assert_eq!(wall(&event), "2026-09-07 15:20:43.633");
}

#[test]
fn parses_bracketed_level_after_thread() {
    let event = RegexParser::new()
        .parse("2026-09-07 15:20:43,633 [http-nio-8080-exec-1] [WARN] c.j.b.Foo -慢查询")
        .expect("应当匹配");
    assert_eq!(event.thread, "http-nio-8080-exec-1");
    assert_eq!(event.level, "WARN");
    assert_eq!(event.logger, "c.j.b.Foo");
    assert_eq!(event.message, "慢查询");
}

#[test]
fn stack_trace_merges_into_previous_event() {
    let mut agg = Aggregator::new(Arc::new(RegexParser::new()));
    assert!(agg.push(LINE).is_none());
    assert!(agg.push("java.lang.NullPointerException: boom").is_none());
    assert!(agg.push("\tat com.foo.Bar.baz(Bar.java:42)").is_none());

    let event = agg.push(LINE).expect("下一条日志到来时上一条应当闭合");
    assert_eq!(
        event.message,
        "redis延时任务触发检查,action数量0\njava.lang.NullPointerException: boom\n\tat com.foo.Bar.baz(Bar.java:42)"
    );
    assert!(agg.flush().is_some());
    assert!(agg.flush().is_none());
}

#[test]
fn cri_shell_is_stripped() {
    let mut agg =
        Aggregator::new(Arc::new(RegexParser::new())).decoder(ContainerFormat::Cri.decoder());

    assert!(agg
        .push(&format!("2026-09-07T03:04:08.914293456Z stdout F {LINE}"))
        .is_none());
    assert!(agg
        .push("2026-09-07T03:04:09.000000000Z stderr F java.lang.NullPointerException: boom")
        .is_none());

    let event = agg.flush().expect("应当有一条");
    assert_eq!(event.level, "INFO");
    assert_eq!(event.logger, "c.a.c.service.DelayTaskService");
    assert_eq!(event.get("stream").unwrap(), &Value::text("stdout"));
    assert_eq!(
        event.message,
        "redis延时任务触发检查,action数量0\njava.lang.NullPointerException: boom"
    );
}

#[test]
fn cri_partial_lines_are_joined() {
    let mut agg =
        Aggregator::new(Arc::new(RegexParser::new())).decoder(ContainerFormat::Cri.decoder());

    assert!(agg
        .push("2026-09-07T03:04:08.914293456Z stdout P 2026-09-07 11:04:08.914 [TID:t] [SpanID:s] [main] INFO  c.a.Foo -前半")
        .is_none());
    assert!(agg
        .push("2026-09-07T03:04:08.914293456Z stdout F 后半")
        .is_none());

    let event = agg.flush().expect("拼接后应当成条");
    assert_eq!(event.message, "前半后半");
    assert_eq!(event.level, "INFO");
}

#[test]
fn malformed_cri_line_is_kept_as_content() {
    let mut agg =
        Aggregator::new(Arc::new(RegexParser::new())).decoder(ContainerFormat::Cri.decoder());
    let event = agg.push("这行没有 CRI 外壳").expect("兜底成条");
    assert_eq!(event.message, "这行没有 CRI 外壳");
}

#[test]
fn timestamp_variants_all_parse() {
    let cases = [
        ("2026-09-07 11:04:08.914", "2026-09-07 11:04:08.914"),
        ("2026-09-07T11:04:08.914", "2026-09-07 11:04:08.914"),
        ("2026-09-07 11:04:08", "2026-09-07 11:04:08.000"),
        ("2026-09-07T11:04:08", "2026-09-07 11:04:08.000"),
        ("2026-09-07 11:04:08,633", "2026-09-07 11:04:08.633"),
        ("2026-09-07 11:04:08.914293456", "2026-09-07 11:04:08.914"),
        ("2026-09-07 11:04:08.9", "2026-09-07 11:04:08.900"),
    ];
    for (raw, want) in cases {
        let got = parse_timestamp(raw).unwrap_or_else(|| panic!("应当解析 {raw}"));
        assert_eq!(timestamp_text(&got), want, "{raw}");
    }

    for bad in [
        "",
        "2026-09-07",
        "2026/09/07 11:04:08",
        "2026-09-07x11:04:08",
        "2026-13-07 11:04:08",
        "2026-09-07 25:04:08",
        "2026-09-07 11:04:08.",
        "2026-09-07 11:04:08.1234567890",
        "2026-09-07 11:04:0a",
    ] {
        assert!(parse_timestamp(bad).is_none(), "不应解析 {bad:?}");
    }
}

#[test]
fn message_is_sliced_not_captured() {
    let long = "x".repeat(50_000);
    let event = RegexParser::new()
        .parse(&format!("2026-09-07 11:04:08.914 [main] INFO  c.a.Foo -{long}"))
        .expect("应当匹配");
    assert_eq!(event.message, long);
    assert_eq!(event.logger, "c.a.Foo");

    let event = RegexParser::new()
        .parse("2026-09-07 11:04:08.914 [main] INFO  c.a.Foo -a - b -c")
        .expect("应当匹配");
    assert_eq!(event.message, "a - b -c");

    let event = RegexParser::new()
        .parse("2026-09-07 11:04:08.914 [main] INFO  c.a.Foo -")
        .expect("应当匹配");
    assert_eq!(event.message, "");
}

#[test]
fn custom_pattern_with_message_group_still_works() {
    let parser = RegexParser::with_pattern(
        r"^(?P<timestamp>\S+ \S+) (?P<level>[A-Z]+) (?P<message>.*)$",
    )
    .ok()
    .unwrap();
    let event = parser
        .parse("2026-09-07 11:04:08.914 ERROR 出事了")
        .expect("应当匹配");
    assert_eq!(event.level, "ERROR");
    assert_eq!(event.message, "出事了");
}

#[test]
fn parses_gin_access_log() {
    let event = GinParser.parse(GIN_LINE).expect("应当匹配");
    assert_eq!(wall(&event), "2026-09-07 10:07:01.000");
    assert_eq!(event.logger, "gin");
    assert_eq!(event.level, "INFO");
    assert_eq!(event.message, GIN_LINE);
    assert!(event.fields.is_empty());
}

#[test]
fn parses_gin_variants() {
    let event = GinParser
        .parse("[GIN] 2026/09/07 - 10:07:01 | 502 |     1.5ms |     10.0.0.1 | GET      /healthz")
        .expect("应当匹配");
    assert_eq!(event.level, "ERROR");

    let event = GinParser
        .parse(r#"[GIN] 2026/09/07 - 10:07:01 | 404 | 1ms | 10.0.0.1 | GET      "/a|b""#)
        .expect("应当匹配");
    assert_eq!(event.level, "WARN");

    assert!(GinParser
        .parse("[GIN-debug] POST   /extra_text  --> main.handler (3 handlers)")
        .is_none());
    assert!(GinParser
        .parse("[GIN] 2026/09/07 - 10:07:01 |\u{1b}[97;42m 200 \u{1b}[0m| 1ms | 10.0.0.1 | GET /")
        .is_none());
}

#[test]
fn parses_nginx_combined_log() {
    let event = NginxParser.parse(NGINX_LINE).expect("应当匹配");
    assert_eq!(event.logger, "nginx");
    assert_eq!(event.level, "INFO");
    assert_eq!(event.message, NGINX_LINE);
    assert!(event.fields.is_empty());

    let want = chrono::FixedOffset::east_opt(8 * 3600)
        .unwrap()
        .with_ymd_and_hms(2026, 9, 7, 18, 6, 53)
        .unwrap()
        .with_timezone(&Local)
        .naive_local();
    assert_eq!(
        event.timestamp,
        Timestamp {
            year: want.year(),
            month: want.month(),
            day: want.day(),
            hour: want.hour(),
            minute: want.minute(),
            second: want.second(),
            nano: want.nanosecond(),
        }
    );
}

#[test]
fn parses_nginx_variants() {
    let event = NginxParser
        .parse(r#"10.1.2.3 - admin [07/Sep/2026:18:06:53 +0000] "POST /api/v1/order?id=1 HTTP/2.0" 500 - "https://example.com/x" "curl/8.4.0""#)
        .expect("应当匹配");
    assert_eq!(event.level, "ERROR");

    let event = NginxParser
        .parse(r#"10.1.2.3 - - [07/Sep/2026:18:06:53] "GET / HTTP/1.1" 304 0 "-" "-""#)
        .expect("应当匹配");
    assert_eq!(wall(&event), "2026-09-07 18:06:53.000");

    assert!(NginxParser
        .parse("2026-09-07 15:20:43,633 [main] INFO c.a.Foo -handler [public void foo()] 200 ok")
        .is_none());
}

#[test]
fn chain_tries_formats_in_order() {
    let parser = ChainParser::from_formats(
        &[LogFormat::Logback, LogFormat::Gin, LogFormat::Nginx],
        None,
    )
    .ok()
    .unwrap();

    assert_eq!(
        parser.parse(LINE).unwrap().logger,
        "c.a.c.service.DelayTaskService"
    );
    assert_eq!(parser.parse(GIN_LINE).unwrap().logger, "gin");
    assert_eq!(parser.parse(NGINX_LINE).unwrap().logger, "nginx");
    assert!(parser.parse("\tat com.foo.Bar.baz(Bar.java:42)").is_none());
}

#[test]
fn access_log_no_longer_glues_onto_previous_event() {
    let mut agg = Aggregator::new(Arc::new(RegexParser::new()));
    assert!(agg.push(LINE).is_none());
    assert!(agg.push(GIN_LINE).is_none());
    assert!(agg.flush().unwrap().message.contains("[GIN]"), "旧行为：粘连");

    let parser = ChainParser::from_formats(&[LogFormat::Logback, LogFormat::Gin], None)
        .ok()
        .unwrap();
    let mut agg = Aggregator::new(Arc::new(parser));
    assert!(agg.push(LINE).is_none());
    let java = agg.push(GIN_LINE).expect("gin 行到来时 Java 那条应当闭合");
    assert_eq!(java.logger, "c.a.c.service.DelayTaskService");
    assert!(!java.message.contains("[GIN]"));

    assert!(agg.push("Error #01: broken pipe").is_none());
    let access = agg.flush().expect("应当有一条");
    assert_eq!(access.logger, "gin");
    assert!(access.message.ends_with("Error #01: broken pipe"));
}

#[test]
fn access_log_timestamps_reject_garbage() {
    for bad in [
        "",
        "2026/09/07 10:07:01",
        "2026-09-07 - 10:07:01",
        "2026/09/07 - 10:07:0",
        "2026/13/07 - 10:07:01",
    ] {
        assert!(parse_gin_timestamp(bad).is_none(), "不应解析 {bad:?}");
    }
    for bad in [
        "",
        "07/Sep/2026 18:06:53",
        "07/Sept/2026:18:06:53",
        "07/Sep/2026:18:06:53 0800",
        "07/Sep/2026:18:06:53 +08",
        "32/Sep/2026:18:06:53 +0800",
    ] {
        assert!(parse_clf_timestamp(bad).is_none(), "不应解析 {bad:?}");
    }
}

#[test]
fn unparseable_leading_line_is_kept() {
    let mut agg = Aggregator::new(Arc::new(RegexParser::new()));
    let event = agg.push("no timestamp here").expect("兜底成条");
    assert_eq!(event.message, "no timestamp here");
}

#[test]
fn ids_are_written_one_way() {
    let once = normalize_trace_id(" E8B0E73E2132F21C ");
    assert_eq!(once, "0000000000000000e8b0e73e2132f21c");
    assert_eq!(normalize_trace_id(&once), once);
    assert_eq!(normalize_span_id("E8B0E73E2132F21C"), "e8b0e73e2132f21c");
    assert_eq!(normalize_trace_id("n/a"), "");
    assert_eq!(normalize_trace_id("  "), "");
    assert_eq!(normalize_trace_id("ABC"), "abc");
    assert_eq!(normalize_trace_id("XYZ"), "XYZ");
}

#[test]
fn clf_offset_of_a_day_is_refused() {
    assert!(parse_clf_timestamp("07/Sep/2026:18:06:53 +2359").is_some());
    assert!(parse_clf_timestamp("07/Sep/2026:18:06:53 +2400").is_none());
    assert!(parse_clf_timestamp("07/Sep/2026:18:06:53 -0330").is_some());
}

#[test]
fn clf_time_is_shown_on_the_local_clock() {
    let got = parse_clf_timestamp("07/Sep/2026:18:06:53 -0330").unwrap();
    let want = chrono::FixedOffset::west_opt(3 * 3600 + 30 * 60)
        .unwrap()
        .with_ymd_and_hms(2026, 9, 7, 18, 6, 53)
        .unwrap()
        .with_timezone(&Local)
        .naive_local();
    assert_eq!(
        timestamp_text(&got),
        want.format("%Y-%m-%d %H:%M:%S%.3f").to_string()
    );
}

#[test]
fn cri_time_is_used_for_lines_without_one() {
    let mut agg =
        Aggregator::new(Arc::new(LogbackParser)).decoder(ContainerFormat::Cri.decoder());
    let event = agg
        .push("2026-09-07T03:04:08.914293456Z stderr F panic: boom")
        .expect("兜底成条");
    let want = chrono::Utc
        .with_ymd_and_hms(2026, 9, 7, 3, 4, 8)
        .unwrap()
        .with_timezone(&Local)
        .naive_local();
    assert_eq!(event.message, "panic: boom");
    assert_eq!(event.get("stream"), Some(&Value::text("stderr")));
    assert_eq!(
        wall(&event),
        format!("{}.914", want.format("%Y-%m-%d %H:%M:%S"))
    );
}

#[test]
fn unfinished_parts_come_out_with_the_last_event() {
    let mut agg =
        Aggregator::new(Arc::new(LogbackParser)).decoder(ContainerFormat::Cri.decoder());
    assert!(agg
        .push("2026-09-07T03:04:08.914293456Z stdout P:tag half a line")
        .is_none());
    assert!(!agg.has_pending());
    assert_eq!(agg.flush().unwrap().message, "half a line");
    assert!(agg.flush().is_none());

    let mut decoder = ContainerFormat::Cri.decoder();
    assert!(decoder
        .decode("2026-09-07T03:04:08.914293456Z stdout P one ")
        .is_none());
    assert_eq!(decoder.take_partial(), Some("one ".to_string()));
    assert_eq!(decoder.take_partial(), None);
}

#[test]
fn events_take_no_more_lines_than_they_may() {
    let mut agg = Aggregator::new(Arc::new(LogbackParser)).max_lines(3);
    assert!(agg.push(LINE).is_none());
    for i in 0..10 {
        assert!(agg.push(&format!("line {i}")).is_none());
    }
    assert_eq!(
        agg.flush().unwrap().message,
        "redis延时任务触发检查,action数量0\nline 0\nline 1"
    );

    let mut agg = Aggregator::new(Arc::new(LogbackParser)).max_bytes(12);
    assert!(agg
        .push("2026-09-07 11:04:08.914 INFO c.a.Foo -12345")
        .is_none());
    assert!(agg.push("67890").is_none());
    assert!(agg.push("x").is_none());
    assert_eq!(agg.flush().unwrap().message, "12345\n67890");
}

#[test]
fn a_bad_pattern_is_an_error() {
    let err = RegexParser::with_pattern("(").err().unwrap();
    assert!(matches!(err, Error::Config(_)));
    assert!(err.message().contains("正则非法"), "{}", err.message());
    assert!(ChainParser::from_formats(&[LogFormat::Logback], Some("(")).is_err());
    assert!(ChainParser::from_formats(&[LogFormat::Gin], Some("(")).is_ok());
}

#[test]
fn a_pattern_without_a_message_takes_the_rest() {
    let parser = RegexParser::with_pattern(r"^(?P<level>[A-Z]+) (?P<custom>\w+):").ok().unwrap();
    let event = parser.parse("WARN disk: full").unwrap();
    assert_eq!(event.level, "WARN");
    assert_eq!(event.message, " full");
    assert_eq!(event.get("custom"), None);
    assert!(parser.parse("warn disk: full").is_none());
}

#[test]
fn captures_become_an_event() {
    let text = |t: &str| Some(t.to_string());
    let names = vec![None, text("level"), None, text("message"), text("thread")];
    let texts = vec![text("ERROR|boom"), text(" ERROR "), text("|"), text("boom "), None];
    let event = captured_event(&names, "ERROR|boom", 10, &texts);
    assert_eq!(event.level, "ERROR");
    assert_eq!(event.message, "boom ");
    assert_eq!(event.thread, "");
    let event = captured_event(&names[..3].to_vec(), "ERROR|rest", 6, &texts[..3].to_vec());
    assert_eq!(event.message, "rest");
}

#[test]
fn a_pattern_stands_in_for_the_java_format_alone() {
    let parser: BoxedParser = LogFormat::Logback
        .parser(Some(r"^(?P<level>[A-Z]+) (?P<message>.*)$"))
        .ok()
        .unwrap();
    assert_eq!(parser.parse("INFO x").unwrap().message, "x");
    assert!(parser.parse(LINE).is_none());
    let parser: BoxedParser = LogFormat::Gin.parser(Some("(")).ok().unwrap();
    assert_eq!(parser.parse(GIN_LINE).unwrap().logger, "gin");
}

#[test]
fn statuses_become_levels() {
    assert_eq!(level_of_status(200), "INFO");
    assert_eq!(level_of_status(399), "INFO");
    assert_eq!(level_of_status(400), "WARN");
    assert_eq!(level_of_status(499), "WARN");
    assert_eq!(level_of_status(500), "ERROR");
    assert_eq!(level_of_status(599), "ERROR");
    assert_eq!(level_of_status(600), "INFO");
    assert_eq!(level_of_status(65535), "INFO");
}

#[test]
fn small_numbers_are_read_as_std_reads_them() {
    for raw in [
        "", "+", "-", "0", "+0", "-0", "00200", "+200", "65535", "65536", "99999999999", "2x",
        " 2", "１",
    ] {
        assert_eq!(parse_u16(raw), raw.parse::<u16>().ok(), "{raw:?}");
    }
}

#[test]
fn quotes_are_taken_off() {
    assert_eq!(take_quoted(r#""GET /" 200"#), Some(("GET /", " 200")));
    assert_eq!(take_quoted(r#"GET /" 200"#), None);
    assert_eq!(take_quoted(r#""GET /"#), None);
}

#[test]
fn times_are_read_back() {
    for raw in [
        "0000-01-01 00:00:00.000",
        "2024-02-29 23:59:59.999",
        "9999-12-31 12:30:15.001",
    ] {
        let ts = parse_timestamp(raw).unwrap();
        assert_eq!(timestamp_text(&ts), raw);
    }
    assert!(parse_timestamp("2023-02-29 00:00:00").is_none());
    assert!(parse_timestamp("2026-09-07 11:04:60").is_none());
}

#[test]
fn one_moment_is_one_time() {
    let a = parse_clf_timestamp("07/Sep/2026:18:06:53 +0800").unwrap();
    let b = parse_clf_timestamp("07/Sep/2026:10:06:53 +0000").unwrap();
    let c = parse_clf_timestamp("07/Sep/2026:06:36:53 -0330").unwrap();
    assert_eq!(a, b);
    assert_eq!(b, c);
    let at = Local.timestamp_opt(1_788_775_613, 0).unwrap();
    assert_eq!((a.hour, a.minute, a.second), (at.hour(), at.minute(), at.second()));
    assert_eq!((a.year, a.month, a.day), (at.year(), at.month(), at.day()));
    let bare = parse_clf_timestamp("07/Sep/2026:18:06:53").unwrap();
    assert_eq!(timestamp_text(&bare), "2026-09-07 18:06:53.000");
}

#[test]
fn stray_lines_carry_the_runtimes_time() {
    let mut aggregator = Aggregator::new(Arc::new(LogbackParser))
        .decoder(ContainerFormat::Cri.decoder());
    let event = aggregator.push("2026-09-07T10:06:53.500Z stdout F no time").unwrap();
    let at = Local.timestamp_opt(1_788_775_613, 500_000_000).unwrap();
    let got = &event.timestamp;
    assert_eq!((got.hour, got.minute, got.second), (at.hour(), at.minute(), at.second()));
    assert_eq!((got.year, got.month, got.day), (at.year(), at.month(), at.day()));
    assert_eq!(got.nano, 500_000_000);
}

#[test]
fn text_lines_are_read_back() {
    for line in [
        LINE,
        "2026-09-07T11:04:08,914678 [main] [WARN] c.a.Foo - a-b \n\tat x",
        "2026-09-07 11:04:08 [TID:N/A] INFORMATION c.a.Foo",
        "2026-09-07 11:04:08.9 [TID: ABCDEF0123456789 ] [SpanID:x y] [] I c.a.Foo --",
    ] {
        let event = LogbackParser.parse(line).unwrap();
        let again = LogbackParser.parse(&event.to_text_line()).unwrap();
        assert_eq!(again.level, event.level, "{line}");
        assert_eq!(again.trace_id, event.trace_id, "{line}");
        assert_eq!(again.span_id, event.span_id, "{line}");
        assert_eq!(again.thread, event.thread, "{line}");
        assert_eq!(again.logger, event.logger, "{line}");
        assert_eq!(again.message, event.message, "{line}");
        assert_eq!(wall(&again), wall(&event), "{line}");
        assert_eq!(again.timestamp.nano, event.timestamp.nano / 1_000_000 * 1_000_000);
    }
    // The first white space of a message is taken for what parts it from the dash.
    let event = LogbackParser.parse("2026-09-07 11:04:08 INFO c.a.Foo -  two").unwrap();
    assert_eq!(event.message, " two");
    let again = LogbackParser.parse(&event.to_text_line()).unwrap();
    assert_eq!(again.message, "two");
}
