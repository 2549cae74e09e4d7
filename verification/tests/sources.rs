use std::sync::Arc;

use logpipe::map::StrMap;
use logpipe::parser::stamp::parse_timestamp;
use logpipe::parser::{BoxedParser, ContainerFormat, LogbackParser};
use logpipe::source::checkpoint::{Checkpointer, Record, Stored};
use logpipe::source::collection::{pod_key, Collection};
use logpipe::source::discover::{
    exclude_patterns, fingerprint, should_skip, sort_found, start_offset, still_present, tag,
    wanted, Found, Presence,
};
use logpipe::source::file::{is_finished, LabelSource};
use logpipe::source::k8s::{
    api_base, cluster_base, host_or_unknown, hostname, label_of_document, label_of_reply,
    parse_pod_path, picked_by, pod_url, PodMeta, PodSelector,
};
use logpipe::source::path::UnixPath;
use logpipe::source::read::{Delivery, ReadTurn};
use logpipe::source::schedule::{is_due, should_prune, Schedule, Task};
use logpipe::source::stdin::StdinReader;
use logpipe::source::tail::Watcher;
use logpipe::source::{FileSource, StdinSource};
use logpipe::value::Value;
use logpipe::{Error, LogEvent};

fn texts(list: &[&str]) -> Vec<String> {
    list.iter().map(|t| t.to_string()).collect()
}

fn meta(namespace: &str, pod: &str, container: &str) -> PodMeta {
    PodMeta {
        namespace: namespace.to_string(),
        pod: pod.to_string(),
        container: container.to_string(),
    }
}

#[test]
fn parses_pods_layout() {
    let meta = parse_pod_path(
        "/var/log/pods/prod_order-service-7d9f8b6c4-abcde_1f2e3d4c-5b6a/order-service/0.log",
    )
    .unwrap();
    assert_eq!(meta.namespace, "prod");
    assert_eq!(meta.pod, "order-service-7d9f8b6c4-abcde");
    assert_eq!(meta.container, "order-service");
}

#[test]
fn parses_containers_symlink_layout() {
    let meta = parse_pod_path(
        "/var/log/containers/order-service-7d9f8b6c4-abcde_prod_order-service-9f8e7d6c5b4a3210.log",
    )
    .unwrap();
    assert_eq!(meta.namespace, "prod");
    assert_eq!(meta.pod, "order-service-7d9f8b6c4-abcde");
    assert_eq!(meta.container, "order-service");
}

#[test]
fn returns_none_for_plain_paths() {
    assert!(parse_pod_path("/var/log/app/app.log").is_none());
}

#[test]
fn empty_selector_takes_everything() {
    let selector = PodSelector::new();
    assert!(selector.matches(&meta("prod", "order-1", "app")));
    assert!(selector.matches(&meta("kube-system", "kube-proxy-x", "kube-proxy")));
}

#[test]
fn filters_by_namespace() {
    let selector = PodSelector::new()
        .namespaces(texts(&["prod", "staging"]))
        .ok()
        .unwrap();
    assert!(selector.matches(&meta("prod", "order-1", "app")));
    assert!(!selector.matches(&meta("kube-system", "kube-proxy-x", "kube-proxy")));
}

#[test]
fn exclude_wins_over_include() {
    let selector = PodSelector::new()
        .namespaces(texts(&["*"]))
        .ok()
        .unwrap()
        .exclude_namespaces(texts(&["kube-*"]))
        .ok()
        .unwrap();
    assert!(selector.matches(&meta("prod", "order-1", "app")));
    assert!(!selector.matches(&meta("kube-system", "coredns-x", "coredns")));
}

#[test]
fn filters_by_pod_and_container_globs() {
    let selector = PodSelector::new()
        .pods(texts(&["order-*"]))
        .ok()
        .unwrap()
        .exclude_containers(texts(&["istio-proxy"]))
        .ok()
        .unwrap();
    assert!(selector.matches(&meta("prod", "order-abc", "app")));
    assert!(!selector.matches(&meta("prod", "cart-abc", "app")));
    assert!(!selector.matches(&meta("prod", "order-abc", "istio-proxy")));
}

#[test]
fn what_is_no_pattern_is_an_error() {
    let err = PodSelector::new().containers(texts(&["ok", "bad["])).err().unwrap();
    assert!(matches!(err, Error::Config(_)));
    assert!(err.message().contains("名字匹配式非法 bad["), "{}", err.message());
    assert!(PodSelector::new().exclude_pods(texts(&["bad["])).is_err());
}

#[test]
fn the_own_pod_is_left_out() {
    let selector = PodSelector::new().exclude_self(Some("logpipe-abc".to_string()));
    assert!(!selector.matches(&meta("logging", "logpipe-abc", "logpipe")));
    assert!(selector.matches(&meta("logging", "logpipe-def", "logpipe")));
    let selector = PodSelector::new().exclude_pod("x-*");
    assert!(!selector.matches(&meta("n", "x-1", "c")));
    let selector = PodSelector::new().exclude_pod("x[");
    assert!(selector.matches(&meta("n", "x[", "c")));
}

#[test]
fn a_name_is_picked_if_taken_and_not_excluded() {
    assert!(picked_by(true, false));
    assert!(!picked_by(true, true));
    assert!(!picked_by(false, false));
}

fn records(checkpointer: &Checkpointer) -> Stored {
    Stored::Records(checkpointer.records())
}

#[test]
fn survives_reload() {
    let key = "1-2";
    let path = "/var/log/a.log";

    let mut checkpointer = Checkpointer::load(Stored::Missing).ok().unwrap();
    checkpointer.advance(key, path, 100);
    checkpointer.advance(key, path, 40);
    assert!(checkpointer.take_unsaved());
    assert!(!checkpointer.take_unsaved());

    let reloaded = Checkpointer::load(records(&checkpointer)).ok().unwrap();
    assert_eq!(reloaded.get(key), Some(100));
}

#[test]
fn has_dir_sees_recorded_directories() {
    let mut checkpointer = Checkpointer::load(Stored::Missing).ok().unwrap();
    checkpointer.advance("1-2", "/var/log/pods/ns_pod_uid/app/0.log", 10);

    assert!(checkpointer.has_dir("/var/log/pods/ns_pod_uid/app"));
    assert!(!checkpointer.has_dir("/var/log/pods/ns_other_uid/app"));
    assert!(!checkpointer.has_dir("/var/log/pods"));
}

#[test]
fn prune_drops_records_the_caller_does_not_keep() {
    let mut checkpointer = Checkpointer::load(Stored::Missing).ok().unwrap();
    checkpointer.advance("live", "/var/log/a.log", 1);
    checkpointer.advance("gone", "/var/log/b.log", 2);

    let removed = checkpointer.prune(|key, _| key == "live");
    assert_eq!(removed, 1);
    assert_eq!(checkpointer.get("live"), Some(1));
    assert_eq!(checkpointer.get("gone"), None, "已删除文件的位点应当被清掉");
}

#[test]
fn in_memory_when_no_data_dir() {
    let mut checkpointer = Checkpointer::load(Stored::Missing).ok().unwrap();
    checkpointer.advance("k", "/tmp/a", 7);
    assert_eq!(checkpointer.get("k"), Some(7));
}

#[test]
fn offsets_start_over_and_are_dropped() {
    let mut c = Checkpointer::new();
    c.advance("k", "/tmp/a", 7);
    c.reset("k");
    assert_eq!(c.get("k"), Some(0));
    c.advance("k", "/tmp/b", 3);
    assert_eq!(c.get("k"), Some(3));
    assert_eq!(c.records()[0].1.path, "/tmp/b");
    c.forget("k");
    assert_eq!(c.get("k"), None);
    c.reset("k");
    assert_eq!(c.get("k"), None);
    assert!(c.dirs().is_empty());
}

#[test]
fn stored_offsets_that_cannot_be_read() {
    assert_eq!(Checkpointer::load(Stored::Damaged).ok().unwrap().get("k"), None);
    let err = Checkpointer::load(Stored::Failed {
        path: "/data/checkpoints.json".to_string(),
        cause: "denied".to_string(),
    })
    .err()
    .unwrap();
    assert!(matches!(err, Error::Io { .. }));
    assert!(err.message().contains("/data/checkpoints.json"), "{}", err.message());
    assert!(err.message().contains("denied"), "{}", err.message());
    let list = vec![
        ("k".to_string(), Record { path: "/a".to_string(), offset: 1 }),
        ("k".to_string(), Record { path: "/b".to_string(), offset: 2 }),
    ];
    assert_eq!(Checkpointer::load(Stored::Records(list)).ok().unwrap().get("k"), Some(2));
}

#[test]
fn skips_compressed_and_in_flight_rotation_files() {
    assert!(!should_skip("/var/log/pods/ns_pod_uid/app/0.log"));
    assert!(!should_skip("/var/log/pods/ns_pod_uid/app/0.log.20260907-123709"));
    assert!(should_skip("/var/log/pods/ns_pod_uid/app/0.log.20260907-123709.gz"));
    assert!(should_skip("/var/log/pods/ns_pod_uid/app/5.log.20260907-155201.tmp"));
}

#[test]
fn excluded_files_are_not_wanted() {
    let patterns = exclude_patterns(&texts(&["/var/log/*/debug.log", "bad["]));
    assert_eq!(patterns.len(), 1);
    assert!(!wanted("/var/log/app/debug.log", &patterns));
    assert!(wanted("/var/log/app/app.log", &patterns));
    assert!(!wanted("/var/log/app/app.log.gz", &patterns));
}

#[test]
fn presence_is_told_by_the_fingerprint() {
    let key = fingerprint(66_306, 1_048_580);
    assert_eq!(key, "66306-1048580");
    assert!(still_present(&Presence::File(key.clone()), &key));
    assert!(!still_present(&Presence::File(key.clone()), "0-0"));
    assert!(!still_present(&Presence::Gone, &key));
    assert!(still_present(&Presence::Unknown, &key));
}

#[test]
fn fingerprints_tell_files_apart() {
    let keys = [fingerprint(1, 11), fingerprint(11, 1), fingerprint(111, 0), fingerprint(0, 111)];
    for (i, a) in keys.iter().enumerate() {
        for (j, b) in keys.iter().enumerate() {
            assert_eq!(a == b, i == j);
        }
    }
}

fn found(path: &str, key: &str, len: u64, modified: Option<i128>) -> Found {
    Found { path: path.to_string(), key: key.to_string(), len, modified }
}

#[test]
fn files_are_read_in_the_order_they_were_written() {
    let sorted = sort_found(vec![
        found("/b/0.log", "1", 1, Some(20)),
        found("/a/1.log", "2", 1, Some(10)),
        found("/a/0.log", "3", 1, Some(20)),
        found("/z", "4", 1, None),
    ]);
    let keys: Vec<&str> = sorted.iter().map(|f| f.key.as_str()).collect();
    assert_eq!(keys, ["4", "2", "3", "1"]);
}

#[test]
fn only_files_of_the_first_start_are_read_from_their_end() {
    let mut c = Checkpointer::new();
    let file = found("/logs/a/0.log", "k", 100, None);
    let none: Vec<UnixPath> = Vec::new();
    assert_eq!(start_offset(&file, false, true, &none, &mut c), 100);
    assert_eq!(start_offset(&file, true, true, &none, &mut c), 0);
    assert_eq!(start_offset(&file, false, false, &none, &mut c), 0);
    let known = vec![UnixPath::new("/logs/a")];
    assert_eq!(start_offset(&file, false, true, &known, &mut c), 0);
    c.advance("k", "/logs/a/0.log", 60);
    assert_eq!(start_offset(&file, false, true, &none, &mut c), 60);
    let shorter = found("/logs/a/0.log", "k", 10, None);
    assert_eq!(start_offset(&shorter, false, true, &none, &mut c), 0);
    assert_eq!(c.get("k"), Some(0));
}

#[test]
fn containers_carry_their_names() {
    let path = "/var/log/pods/prod_order-1_uid/app/0.log";
    let mut fields: StrMap<Value> = StrMap::new();
    fields.insert("env".to_string(), Value::text("prod"));
    let tags = tag(ContainerFormat::Cri, &None, &fields, path).unwrap();
    assert_eq!(tags.shared.get("namespace"), Some(&Value::text("prod")));
    assert_eq!(tags.shared.get("pod"), Some(&Value::text("order-1")));
    assert_eq!(tags.shared.get("container"), Some(&Value::text("app")));
    assert_eq!(tags.shared.get("env"), Some(&Value::text("prod")));
    let tags = tag(ContainerFormat::Raw, &None, &fields, path).unwrap();
    assert!(tags.pod.is_none());
    assert_eq!(tags.shared.get("namespace"), None);
    let selector = PodSelector::new().namespaces(texts(&["dev"])).ok();
    assert!(tag(ContainerFormat::Cri, &selector, &fields, path).is_none());
    let everything = Some(PodSelector::new());
    assert!(tag(ContainerFormat::Cri, &everything, &fields, "/plain.log").is_none());
    assert!(tag(ContainerFormat::Cri, &None, &fields, "/plain.log").is_some());
}

fn watcher(format: ContainerFormat, start: u64) -> Watcher<LogbackParser> {
    Watcher::new(
        "1-2".to_string(),
        None,
        "/logs/app.log".to_string(),
        start,
        Arc::new(LogbackParser),
        format,
        StrMap::new(),
        Arc::new("box".to_string()),
    )
}

fn messages(events: &[LogEvent]) -> Vec<String> {
    events.iter().map(|e| e.message.clone()).collect()
}

const CONTENT: &str = "\
2026-09-07 11:04:08.914 INFO c.a.Foo -one
\tat com.foo.Bar
2026-09-07 11:04:09.000 WARN c.a.Foo -two\r
2026-09-07 11:04:10.000 INFO c.a.Foo -three
stray at the end
2026-09-07 11:04:11.000 INFO c.a.Foo -four
";

fn read_all(w: &mut Watcher<LogbackParser>, bytes: &[u8], chunk: usize) -> Vec<LogEvent> {
    let mut events = Vec::new();
    for part in bytes.chunks(chunk) {
        w.take(part, 1_048_576, &mut events);
    }
    events
}

#[test]
fn it_does_not_matter_how_a_file_is_cut_up() {
    let mut w = watcher(ContainerFormat::Raw, 0);
    let whole = messages(&read_all(&mut w, CONTENT.as_bytes(), CONTENT.len()));
    assert_eq!(whole, ["one\n\tat com.foo.Bar", "two", "three\nstray at the end"]);
    for chunk in 1..40 {
        let mut w = watcher(ContainerFormat::Raw, 0);
        let mut events = read_all(&mut w, CONTENT.as_bytes(), chunk);
        assert_eq!(messages(&events), whole);
        events.extend(w.flush_pending());
        assert_eq!(events.last().unwrap().message, "four");
        assert_eq!(w.safe_offset, CONTENT.len() as u64);
        assert_eq!(*events[0].file, "/logs/app.log");
        assert_eq!(*events[0].host, "box");
    }
}

#[test]
fn nothing_is_lost_by_a_restart() {
    let bytes = CONTENT.as_bytes();
    let mut w = watcher(ContainerFormat::Raw, 0);
    let mut all = read_all(&mut w, bytes, 7);
    all.extend(w.flush_pending());
    for stop in 0..=bytes.len() {
        let mut first = watcher(ContainerFormat::Raw, 0);
        let mut got = read_all(&mut first, &bytes[..stop], 5);
        let safe = first.safe_offset;
        assert!(safe <= first.offset);
        let mut second = watcher(ContainerFormat::Raw, safe);
        got.extend(read_all(&mut second, &bytes[safe as usize..], 11));
        got.extend(second.flush_pending());
        assert_eq!(messages(&got), messages(&all), "stopped at {stop}");
    }
}

#[test]
fn stray_lines_are_not_sent_again() {
    let content = b"no time here\nnor here\n";
    let mut w = watcher(ContainerFormat::Raw, 0);
    let events = read_all(&mut w, content, 100);
    assert_eq!(messages(&events), ["no time here", "nor here"]);
    assert_eq!(w.safe_offset, content.len() as u64);
}

#[test]
fn a_file_that_is_cut_off_is_read_from_its_start() {
    let mut w = watcher(ContainerFormat::Raw, 0);
    read_all(&mut w, CONTENT.as_bytes(), 64);
    let mut checkpoints = Checkpointer::new();
    checkpoints.advance("1-2", "/logs/app.log", 100);
    let turn = ReadTurn::start(&mut w, 10, &mut checkpoints);
    assert!(turn.rewound);
    assert_eq!(messages(&turn.events), ["four"]);
    assert_eq!((w.offset, w.safe_offset), (0, 0));
    assert_eq!(checkpoints.get("1-2"), Some(0));
    let events = turn.finish(&mut w, 0, 1_000);
    assert_eq!(messages(&events), ["four"]);
}

#[test]
fn the_last_event_waits_for_more_lines() {
    let mut w = watcher(ContainerFormat::Raw, 0);
    let line = b"2026-09-07 11:04:08.914 INFO c.a.Foo -one\n";
    let mut checkpoints = Checkpointer::new();
    let mut turn = ReadTurn::start(&mut w, line.len() as u64, &mut checkpoints);
    assert!(!turn.rewound && turn.wants_more(1_000));
    turn.take(&mut w, line, 1_048_576);
    assert!(turn.wants_more(1_000));
    turn.take(&mut w, &[], 1_048_576);
    assert!(!turn.wants_more(1_000));
    assert!(turn.finish(&mut w, 10, 2_000).is_empty());
    let mut turn = ReadTurn::start(&mut w, line.len() as u64, &mut checkpoints);
    turn.take(&mut w, &[], 1_048_576);
    assert!(turn.finish(&mut w, 2_009, 2_000).is_empty());
    let mut turn = ReadTurn::start(&mut w, line.len() as u64, &mut checkpoints);
    turn.take(&mut w, &[], 1_048_576);
    assert_eq!(messages(&turn.finish(&mut w, 2_010, 2_000)), ["one"]);
    assert_eq!(w.safe_offset, line.len() as u64);
}

#[test]
fn lines_that_never_end_are_thrown_away() {
    let mut w = watcher(ContainerFormat::Raw, 0);
    let mut events = Vec::new();
    w.take(&[b'x'; 11], 10, &mut events);
    assert!(events.is_empty() && w.buf.is_empty());
    assert_eq!((w.offset, w.safe_offset), (11, 11));
    w.take(b"tail\n", 10, &mut events);
    assert_eq!(messages(&events), ["tail"]);
}

#[test]
fn bytes_that_are_no_text_are_replaced() {
    let mut w = watcher(ContainerFormat::Raw, 0);
    let mut events = Vec::new();
    w.take(b"a\xff\xfeb\n", 100, &mut events);
    assert_eq!(messages(&events), ["a\u{fffd}\u{fffd}b"]);
}

#[test]
fn parts_of_lines_are_joined_across_reads() {
    let content = "\
2026-09-07T03:04:08.914293456Z stdout P 2026-09-07 11:04:08.914 INFO c.a.Foo -half
2026-09-07T03:04:08.914293456Z stdout F , half
2026-09-07T03:04:09.914293456Z stderr F boom
2026-09-07T03:04:10.914293456Z stdout F 2026-09-07 11:04:10.914 INFO c.a.Foo -next
";
    let mut w = watcher(ContainerFormat::Cri, 0);
    let mut events = read_all(&mut w, content.as_bytes(), 13);
    events.extend(w.flush_pending());
    assert_eq!(messages(&events), ["half, half\nboom", "next"]);
    assert_eq!(events[0].get("stream"), Some(&Value::text("stdout")));
}

#[test]
fn renamed_files_report_their_new_path() {
    let mut w = watcher(ContainerFormat::Raw, 0);
    w.found_at("/logs/app.log.1");
    let mut events = Vec::new();
    w.take(b"x\n", 100, &mut events);
    assert_eq!(*events[0].file, "/logs/app.log.1");
}

fn boxed_watcher(key: &str, pod: Option<PodMeta>) -> Watcher<BoxedParser> {
    Watcher::new(
        key.to_string(),
        pod,
        format!("/logs/{key}.log"),
        0,
        Arc::new(BoxedParser { inner: Box::new(LogbackParser) }),
        ContainerFormat::Cri,
        StrMap::new(),
        Arc::new("box".to_string()),
    )
}

#[test]
fn labels_become_service_names() {
    let mut c: Collection<BoxedParser> = Collection::new();
    c.watch(boxed_watcher("1", Some(meta("prod", "order", "app"))), true);
    c.watch(boxed_watcher("2", Some(meta("prod", "order", "side"))), true);
    c.watch(boxed_watcher("3", Some(meta("prod", "cart", "app"))), true);
    let mut lookups = c.plan_lookups();
    lookups.sort_by(|a, b| a.pod_key.cmp(&b.pod_key));
    let keys: Vec<&str> = lookups.iter().map(|l| l.pod_key.as_str()).collect();
    assert_eq!(keys, ["prod/cart", "prod/order"]);
    assert_eq!(pod_key(&meta("a", "b", "c")), "a/b");
    c.apply_label(&meta("prod", "order", "app"), Some("orders".to_string()));
    for key in ["1", "2"] {
        let shared = c.watchers.get(key).unwrap().shared.as_ref().unwrap();
        assert_eq!(shared.get("service_name"), Some(&Value::text("orders")));
    }
    assert!(c.watchers.get("3").unwrap().shared.is_none());
    assert!(c.is_first_failure(&meta("prod", "cart", "app")));
    let again = c.plan_lookups();
    assert_eq!(again.len(), 1);
    assert_eq!(again[0].pod_key, "prod/cart");
    assert!(!c.is_first_failure(&meta("prod", "cart", "app")));
}

#[test]
fn offsets_of_files_that_are_gone_are_dropped_in_time() {
    let mut c: Collection<BoxedParser> = Collection::new();
    let mut checkpointer = Checkpointer::new();
    checkpointer.advance("1", "/logs/1.log", 5);
    c.watch(boxed_watcher("1", None), false);
    c.start_scan();
    assert!(!c.found("9", "/logs/9.log"));
    assert!(!c.watchers.get("1").unwrap().seen);
    assert!(c.finish("1", &checkpointer).is_none());
    assert!(c.order.is_empty() && !c.watchers.contains_key("1"));
    assert!(checkpointer.take_unsaved());
    c.forget_left(&vec!["1".to_string()], &mut checkpointer);
    assert_eq!(checkpointer.get("1"), Some(5), "a receipt may still come");
    assert!(!checkpointer.take_unsaved());
    c.forget_left(&Vec::new(), &mut checkpointer);
    assert_eq!(checkpointer.get("1"), None);
    assert!(checkpointer.take_unsaved());
    assert!(c.finish("1", &checkpointer).is_none(), "it is not watched any more");
}

#[test]
fn a_file_is_let_go_at_its_end_when_it_is_gone() {
    let mut w = boxed_watcher("1", None);
    w.at_eof = true;
    assert!(!is_finished(&w, false), "the last scan saw it");
    w.seen = false;
    assert!(is_finished(&w, false));
    assert!(!is_finished(&w, true));
    w.at_eof = false;
    assert!(!is_finished(&w, false));
}

#[test]
fn intervals_come_round() {
    assert!(is_due(None, 5, 100));
    assert!(!is_due(Some(5), 104, 100));
    assert!(is_due(Some(5), 105, 100));
    assert!(should_prune(true, 1));
    assert!(!should_prune(false, 1));
    assert!(!should_prune(true, 0));
}

#[test]
fn a_file_source_has_its_usual_settings() {
    let s = FileSource::new(texts(&["/logs/*.log"]));
    assert_eq!(s.glob_interval_ms, 10_000);
    assert!(s.read_from_beginning);
    assert!(s.check_includes().is_ok());
    let err = FileSource::new(Vec::new()).check_includes().err().unwrap();
    assert_eq!(err.message(), "FileSource 至少需要一个 include 路径");
    let k = FileSource::kubernetes(Some("me".to_string()));
    assert_eq!(k.includes, ["/var/log/pods/*/*/*.log*"]);
    assert!(!k.read_from_beginning);
    assert_eq!(k.container_format, ContainerFormat::Cri);
    assert!(!k.pod_selector.as_ref().unwrap().matches(&meta("n", "me", "c")));
    assert_eq!(k.label_source(false), LabelSource::Nobody);
    let k = k.service_name_label("app".to_string());
    assert_eq!(k.label_source(false), LabelSource::InCluster);
    assert_eq!(k.label_source(true), LabelSource::Given);
    let raw = k.container_format(ContainerFormat::Raw);
    assert_eq!(raw.label_source(false), LabelSource::Nobody);
    let s = FileSource::kubernetes_in("/srv/pods", None)
        .data_dir("/data".to_string())
        .host("h".to_string())
        .idle_flush(1)
        .read_interval(2)
        .checkpoint_interval(3)
        .glob_interval(4)
        .service_name_label(String::new());
    assert_eq!((s.idle_flush_ms, s.read_interval_ms), (1, 2));
    assert_eq!((s.checkpoint_interval_ms, s.glob_interval_ms), (3, 4));
    assert_eq!(s.includes, ["/srv/pods/*/*/*.log*"]);
    assert_eq!(s.data_dir, Some("/data".to_string()));
    assert_eq!(*s.host, "h");
    assert!(s.service_name_label.is_none());
}

#[test]
fn a_found_file_is_admitted_with_what_it_carries() {
    let source = FileSource::kubernetes_in("/srv/pods", None)
        .pod_selector(PodSelector::new().namespaces(texts(&["prod"])).ok().unwrap())
        .service_name_label("app".to_string());
    let mut c = Checkpointer::new();
    let known = source.known_dirs(true, &c);
    let file = found("/srv/pods/prod_order_uid/app/0.log", "k", 42, Some(1));
    let admission = source.consider(&file, true, &known, &mut c).unwrap();
    assert!(admission.wants_label);
    assert_eq!(admission.watcher.offset, 42);
    let shared = admission.watcher.shared.as_ref().unwrap();
    assert_eq!(shared.get("pod"), Some(&Value::text("order")));
    let other = found("/srv/pods/dev_order_uid/app/0.log", "k2", 42, Some(1));
    assert!(source.consider(&other, true, &known, &mut c).is_none());
    let later = source.consider(&file, false, &known, &mut c).unwrap();
    assert_eq!(later.watcher.offset, 0);
}

#[test]
fn replies_of_the_api_server_are_read() {
    let url = pod_url(&api_base("https://10.0.0.1/"), "prod", "order");
    assert_eq!(url, "https://10.0.0.1/api/v1/namespaces/prod/pods/order");
    let body = r#"{"metadata":{"labels":{"app":"orders","n":1}}}"#;
    let label = |status: u16, body: &str, name: &str| {
        label_of_reply(&url, status, "status", body, name)
    };
    assert_eq!(label(200, body, "app").ok().unwrap(), Some("orders".to_string()));
    assert_eq!(label(200, body, "missing").ok().unwrap(), None);
    assert_eq!(label(200, "{}", "app").ok().unwrap(), None);
    assert_eq!(label(404, "gone", "app").ok().unwrap(), None);
    let err = label(403, " no rights ", "app").err().unwrap();
    assert!(matches!(err, Error::Source(_)));
    assert!(err.message().contains("no rights"), "{}", err.message());
    assert!(label(500, "boom", "app").err().unwrap().message().contains("boom"));
    assert!(label(200, "not json", "app").is_err());
    let read = label_of_document(&url, 200, "200 OK", "", Ok(Some("x".to_string())));
    assert_eq!(read.ok().unwrap(), Some("x".to_string()));
    assert!(label_of_document(&url, 200, "200 OK", "", Err("bad".to_string())).is_err());
}

#[test]
fn the_cluster_gives_the_address() {
    assert_eq!(
        cluster_base(Some("10.0.0.1"), Some("443")).ok().unwrap(),
        "https://10.0.0.1:443"
    );
    assert_eq!(cluster_base(Some("fd00::1"), Some("443")).ok().unwrap(), "https://[fd00::1]:443");
    assert_eq!(cluster_base(Some("[fd00::1]"), Some("1")).ok().unwrap(), "https://[fd00::1]:1");
    assert!(matches!(cluster_base(None, Some("443")).err().unwrap(), Error::Config(_)));
}

#[test]
fn a_machine_without_a_name_is_unknown() {
    assert_eq!(host_or_unknown(None), "unknown");
    assert_eq!(host_or_unknown(Some("box".to_string())), "box");
    let real = hostname::get().ok().and_then(|h| h.into_string().ok());
    assert_eq!(hostname(), host_or_unknown(real));
}

#[test]
fn lines_of_standard_input_become_batches() {
    let source = StdinSource::new()
        .parser(BoxedParser { inner: Box::new(LogbackParser) })
        .batch_lines(2);
    let mut reader = StdinReader::new(&source);
    assert!(!reader.line("2026-09-07 11:04:08.914 INFO c.a.Foo -one"));
    assert!(!reader.line("2026-09-07 11:04:09.914 INFO c.a.Foo -two"));
    assert!(reader.line("2026-09-07 11:04:10.914 INFO c.a.Foo -three"));
    let batch = reader.take_batch();
    assert_eq!(messages(&batch), ["one", "two"]);
    assert_eq!(batch[0].timestamp, parse_timestamp("2026-09-07 11:04:08.914").unwrap());
    reader.settle();
    assert_eq!(messages(&reader.take_batch()), ["three"]);
    assert!(reader.take_batch().is_empty());
}

#[test]
fn the_rounds_of_collecting() {
    let mut s = Schedule::new(0, 100, 50, 7);
    assert_eq!(s.next(0, false, 0, false), Task::Scan { first_pass: true });
    assert_eq!(s.next(1, false, 2, false), Task::Prune);
    assert_eq!(s.next(2, false, 2, false), Task::Read);
    assert_eq!(s.next(3, false, 2, true), Task::Tidy);
    assert_eq!(s.next(4, false, 2, true), Task::Read, "more may be there");
    assert_eq!(s.next(60, false, 2, false), Task::Tidy);
    assert_eq!(s.next(61, false, 2, false), Task::Save);
    assert_eq!(s.next(62, false, 2, false), Task::Rest(7));
    assert_eq!(s.next(101, false, 2, false), Task::Scan { first_pass: false });
    assert_eq!(s.next(102, true, 2, false), Task::Read);
    assert_eq!(s.next(103, true, 2, false), Task::Tidy);
    assert_eq!(s.next(104, true, 2, false), Task::Rest(7));
    assert_eq!(s.next(105, true, 2, false), Task::Finish);
}

#[test]
fn deliveries_carry_the_safe_offset() {
    let mut w = watcher(ContainerFormat::Raw, 0);
    let events = read_all(&mut w, CONTENT.as_bytes(), 1_000);
    let last_line = "2026-09-07 11:04:11.000 INFO c.a.Foo -four\n".len();
    let mut c = Checkpointer::new();
    let delivery = Delivery::new(events, &w, &c).unwrap();
    assert_eq!(delivery.offset as usize, CONTENT.len() - last_line);
    assert_eq!(delivery.key, "1-2");
    assert_eq!(delivery.edition, 0);
    assert_eq!(delivery.events.len(), 3);
    assert!(Delivery::new(Vec::new(), &w, &c).is_none());
    c.commit(&delivery.key, &delivery.path, delivery.offset, delivery.edition, false);
    assert_eq!(c.get("1-2"), None);
    c.commit(&delivery.key, &delivery.path, delivery.offset, delivery.edition, true);
    assert_eq!(c.get("1-2"), Some(delivery.offset));
}

#[test]
fn late_receipts_do_not_count() {
    let mut w = watcher(ContainerFormat::Raw, 0);
    let mut c = Checkpointer::new();
    let events = read_all(&mut w, CONTENT.as_bytes(), 1_000);
    let late = Delivery::new(events, &w, &c).unwrap();
    c.advance("1-2", "/logs/app.log", 50);

    let line = "2026-09-07 12:00:00.000 INFO c.a.Foo -new\n";
    let mut turn = ReadTurn::start(&mut w, line.len() as u64, &mut c);
    assert!(turn.rewound);
    turn.take(&mut w, line.as_bytes(), 1_048_576);
    turn.take(&mut w, b"2026-09-07 12:00:01.000 INFO c.a.Foo -newer\n", 1_048_576);
    let now = Delivery::new(turn.finish(&mut w, 0, 1_000), &w, &c).unwrap();
    assert_eq!(messages(&now.events), ["four", "new"]);
    assert_eq!((late.edition, now.edition), (0, 1));

    c.commit(&late.key, &late.path, late.offset, late.edition, true);
    assert_eq!(c.get("1-2"), Some(0), "that was stored of the file as it was");
    c.commit(&now.key, &now.path, now.offset, now.edition, true);
    assert_eq!(c.get("1-2"), Some(line.len() as u64));
    c.commit(&late.key, &late.path, late.offset, late.edition, true);
    assert_eq!(c.get("1-2"), Some(line.len() as u64));

    // Neither do they where no offset had been stored.
    let mut c = Checkpointer::new();
    c.reset("1-2");
    c.commit("1-2", "/logs/app.log", 100, 0, true);
    assert_eq!(c.get("1-2"), None);
    assert_eq!((c.edition("1-2"), c.edition("other")), (1, 0));
}

#[test]
fn nothing_is_left_behind_when_a_file_is_let_go() {
    let checkpointer = Checkpointer::new();
    let shell = "2026-09-07T03:04:08.000000000Z stdout";
    let one = format!("{shell} F 2026-09-07 11:04:08.914 INFO c.a.Foo -one\n");
    let part = format!("{shell} P half\n");
    let unended = format!("{shell} F  a line");
    for (content, want) in [
        (String::new(), vec![]),
        (one.clone(), vec!["one"]),
        (part.clone(), vec!["half"]),
        (format!("{one}{part}"), vec!["one\nhalf"]),
        (format!("{part}{unended}"), vec!["half a line"]),
        (format!("{one}{part}{unended}"), vec!["one\nhalf a line"]),
        (format!("{one}{shell} F 2026-09-07 11:04:09.000 INFO c.a.Foo -two"), vec!["one", "two"]),
    ] {
        let mut c: Collection<LogbackParser> = Collection::new();
        c.watch(watcher(ContainerFormat::Cri, 0), false);
        let w = c.watchers.get_mut("1-2").unwrap();
        assert!(read_all(w, content.as_bytes(), 1_000).is_empty());
        let last = c.finish("1-2", &checkpointer);
        assert!(c.watchers.is_empty() && c.order.is_empty());
        match last {
            Some(last) => {
                assert_eq!(messages(&last.events), want);
                assert_eq!(last.offset, content.len() as u64);
                assert_eq!((last.key.as_str(), last.path.as_str()), ("1-2", "/logs/app.log"));
                assert_eq!(*last.events[0].host, "box");
            }
            None => assert!(want.is_empty(), "{content}"),
        }
    }
}

const CRI_CONTENT: &str = "\
2026-09-07T03:04:08.000000000Z stdout F 2026-09-07 11:04:08.914 INFO c.a.Foo -one
2026-09-07T03:04:09.000000000Z stdout P 2026-09-07 11:04:09.000 WARN c.a.Foo -t
no shell
2026-09-07T03:04:09.000000000Z stdout P w
2026-09-07T03:04:09.000000000Z stdout F o
2026-09-07T03:04:10.000000000Z stderr F \tat com.foo.Bar
2026-09-07T03:04:11.000000000Z stdout P 2026-09-07 11:04:11.000 INFO c.a.Foo -th
2026-09-07 11:04:11.500 INFO c.a.Foo -between
2026-09-07T03:04:11.000000000Z stdout F ree
2026-09-07T03:04:12.000000000Z stdout F 2026-09-07 11:04:12.000 INFO c.a.Foo -four
";

/// Whether the texts of one list stand in another, in the same order.
fn stand_in_order(want: &[String], got: &[String]) -> bool {
    let mut rest = got.iter();
    want.iter().all(|w| rest.any(|g| g == w))
}

#[test]
fn no_part_is_lost_by_a_restart() {
    let bytes = CRI_CONTENT.as_bytes();
    let mut w = watcher(ContainerFormat::Cri, 0);
    let mut all = read_all(&mut w, bytes, 7);
    all.extend(w.flush_pending());
    let all = messages(&all);
    assert_eq!(all, ["one\nno shell", "two\n\tat com.foo.Bar", "between", "three", "four"]);
    for stop in 0..=bytes.len() {
        let mut first = watcher(ContainerFormat::Cri, 0);
        let mut got = read_all(&mut first, &bytes[..stop], 5);
        let safe = first.safe_offset;
        let mut second = watcher(ContainerFormat::Cri, safe);
        got.extend(read_all(&mut second, &bytes[safe as usize..], 11));
        got.extend(second.flush_pending());
        let got = messages(&got);
        assert!(stand_in_order(&all, &got), "stopped at {stop}: {got:?}");
    }
}

#[test]
fn the_safe_offset_stays_before_what_is_held() {
    let parts = "2026-09-07T03:04:09.000000000Z stdout P half \n";
    let mut w = watcher(ContainerFormat::Cri, 0);
    let events = read_all(&mut w, parts.as_bytes(), 100);
    assert!(events.is_empty());
    assert_eq!((w.safe_offset, w.parts_offset, w.event_offset), (0, Some(0), None));
    let events = read_all(&mut w, b"no shell\n", 100);
    assert_eq!(messages(&events), ["no shell"]);
    assert_eq!((w.safe_offset, w.parts_offset), (0, Some(0)));
    let last = b"2026-09-07T03:04:09.000000000Z stdout F a line\n";
    let events = read_all(&mut w, last, 100);
    assert_eq!(messages(&events), ["half a line"]);
    assert_eq!((w.safe_offset, w.parts_offset), (w.offset, None));

    let first = "2026-09-07T03:04:08.000000000Z stdout F 2026-09-07 11:04:08.914 INFO c.a.Foo -one\n";
    let begin = "2026-09-07T03:04:09.000000000Z stdout P 2026-09-07 11:04:09.000 INFO c.a.Foo -t\n";
    let end = "2026-09-07T03:04:09.000000000Z stdout F wo\n";
    let content = [first, begin, end].concat();
    let mut w = watcher(ContainerFormat::Cri, 0);
    let events = read_all(&mut w, content.as_bytes(), 1_000);
    assert_eq!(messages(&events), ["one"]);
    assert_eq!(w.safe_offset, first.len() as u64);
    assert_eq!((w.event_offset, w.parts_offset), (Some(first.len() as u64), None));
}

#[test]
fn what_is_held_outlives_a_line_that_never_ends() {
    let line = b"2026-09-07 11:04:08.914 INFO c.a.Foo -one\n";
    let mut w = watcher(ContainerFormat::Raw, 0);
    let mut events = Vec::new();
    w.take(line, 100, &mut events);
    w.take(&[b'x'; 101], 100, &mut events);
    assert!(events.is_empty() && w.buf.is_empty());
    assert_eq!((w.offset, w.safe_offset), (line.len() as u64 + 101, 0));
    assert_eq!(w.flush_pending().unwrap().message, "one");
    assert_eq!((w.safe_offset, w.event_offset), (w.offset, None));
}

#[test]
fn the_own_pod_has_the_machines_name() {
    let real = hostname::get().ok().and_then(|h| h.into_string().ok());
    for unnamed in [None, Some(String::new())] {
        let selector = PodSelector::new().exclude_self(unnamed.clone());
        let kubernetes = FileSource::kubernetes(unnamed).pod_selector.unwrap();
        let Some(name) = &real else {
            assert!(selector.matches(&meta("n", "some-pod", "c")));
            continue;
        };
        let named = PodSelector::new().exclude_pod(name);
        for pod in [name.as_str(), "some-other-pod"] {
            let pod = meta("logging", pod, "logpipe");
            assert_eq!(selector.matches(&pod), named.matches(&pod));
            assert_eq!(kubernetes.matches(&pod), named.matches(&pod));
        }
        assert!(!selector.matches(&meta("logging", name, "logpipe")));
        assert!(selector.matches(&meta("logging", "some-other-pod", "logpipe")));
    }
    assert_eq!(*FileSource::new(texts(&["/a"])).host, hostname());
    assert_eq!(*FileSource::kubernetes(None).host, hostname());
    assert_eq!(*StdinSource::new().host, hostname());
}

#[test]
fn records_stay_that_are_watched_or_whose_paths_are_there() {
    let mut checkpointer = Checkpointer::load(Stored::Missing).ok().unwrap();
    checkpointer.advance("1-2", "/logs/rotated.log", 1);
    checkpointer.advance("there", "/logs/there.log", 2);
    checkpointer.advance("gone", "/logs/gone.log", 3);
    let mut collection: Collection<LogbackParser> = Collection::new();
    collection.watch(watcher(ContainerFormat::Raw, 0), false);
    let removed = collection.prune(&mut checkpointer, |path| path == "/logs/there.log");
    assert_eq!(removed, 1);
    assert_eq!(checkpointer.get("1-2"), Some(1));
    assert_eq!(checkpointer.get("there"), Some(2));
    assert_eq!(checkpointer.get("gone"), None);
}
