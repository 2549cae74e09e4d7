use logpipe::config::{
    column_type_of, section_error, BatchSettings, Config, ConsoleEncoding, FileSourceConfig,
    KubernetesSourceConfig, OnErrorSetting, ParserConfig, PipelineSettings, RetrySettings,
    SectionStep, Sections, SinkConfig, SinkPlan, SourceConfig, YamlKey, YamlRoot,
};
use logpipe::map::StrMap;
use logpipe::parser::{ContainerFormat, LogFormat, Parser};
use logpipe::pipeline::OnError;
use logpipe::sink::console::Encoding;
use logpipe::source::k8s::PodMeta;
use logpipe::value::{Number, Value};
use logpipe::Error;

fn texts(list: &[&str]) -> Vec<String> {
    list.iter().map(|t| t.to_string()).collect()
}

fn kubernetes() -> KubernetesSourceConfig {
    KubernetesSourceConfig {
        namespaces: Vec::new(),
        exclude_namespaces: Vec::new(),
        pods: Vec::new(),
        exclude_pods: Vec::new(),
        containers: Vec::new(),
        exclude_containers: Vec::new(),
        exclude_self: logpipe::config::yes(),
        log_dir: logpipe::config::default_pod_log_dir(),
        data_dir: None,
        read_from_beginning: false,
        glob_interval_secs: logpipe::config::ten(),
        host: None,
    }
}

fn files(paths: &[&str]) -> FileSourceConfig {
    FileSourceConfig {
        include_paths: texts(paths),
        exclude: Vec::new(),
        data_dir: None,
        read_from_beginning: true,
        glob_interval_secs: 10,
        host: None,
        container_format: ContainerFormat::Raw,
    }
}

fn console() -> SinkConfig {
    SinkConfig::Console { encoding: ConsoleEncoding::default(), stderr: false }
}

fn clickhouse(endpoint: &str, cluster: Option<&str>) -> SinkConfig {
    SinkConfig::Clickhouse {
        endpoint: endpoint.to_string(),
        database: "logs".to_string(),
        table: "app_log".to_string(),
        cluster: cluster.map(String::from),
        user: None,
        password: None,
        async_insert: false,
        compress: true,
        timeout_secs: 30,
    }
}

fn config(source: SourceConfig, sink: SinkConfig) -> Config {
    Config {
        source,
        parser: ParserConfig::default(),
        sink,
        batch: BatchSettings::default(),
        retry: RetrySettings::default(),
        pipeline: PipelineSettings::default(),
        fields: StrMap::new(),
    }
}

fn no_failures() -> Vec<Option<String>> {
    (0..7).map(|_| None).collect()
}

fn settled(text: &str, failures: &Vec<Option<String>>) -> Result<(), Error> {
    match Sections::parse(text) {
        Ok(sections) => sections.settle(failures),
        Err(e) => Err(e),
    }
}

fn with_failure(i: usize, message: &str) -> Vec<Option<String>> {
    let mut failures = no_failures();
    failures[i] = Some(message.to_string());
    failures
}

#[test]
fn parses_minimal_file_config() {
    let text = "
source:
  type: file
  include:
    - /var/log/app/*.log
sink:
  type: console
";
    assert!(settled(text, &no_failures()).is_ok());
    let config = config(SourceConfig::File(files(&["/var/log/app/*.log"])), console());

    assert!(!config.source.emits_pod_metadata());
    assert_eq!(config.batch.timeout_secs, 1);
    assert_eq!(config.pipeline.on_error, OnErrorSetting::Stop);
    assert!(config.build(None).is_ok());
}

#[test]
fn kubernetes_source_needs_no_paths() {
    assert!(settled("source:\n  type: kubernetes\nsink:\n  type: console\n", &no_failures()).is_ok());
    let config = config(SourceConfig::Kubernetes(kubernetes()), console());

    let SourceConfig::Kubernetes(k8s) = &config.source else {
        panic!("应当是 kubernetes source");
    };
    assert_eq!(k8s.log_dir, "/var/log/pods");
    assert!(k8s.exclude_self);
    assert!(!k8s.read_from_beginning);
    assert!(k8s.namespaces.is_empty(), "留空表示全采");
    assert!(config.build(None).is_ok());
}

#[test]
fn kubernetes_selector_is_declared_in_k8s_terms() {
    let mut k8s = kubernetes();
    k8s.namespaces = texts(&["prod", "staging"]);
    k8s.exclude_namespaces = texts(&["kube-*"]);
    k8s.pods = texts(&["order-*"]);
    k8s.exclude_containers = texts(&["istio-proxy"]);
    k8s.data_dir = Some("/var/lib/logpipe".to_string());
    let mut config = config(
        SourceConfig::Kubernetes(k8s),
        clickhouse("http://clickhouse:8123", None),
    );
    config.fields.insert("cluster".to_string(), Value::text("bj-prod"));
    config.fields.insert("replica".to_string(), Value::Number(Number::Unsigned(3)));

    let SourceConfig::Kubernetes(k8s) = &config.source else {
        panic!("应当是 kubernetes source");
    };
    assert_eq!(k8s.namespaces, ["prod", "staging"]);
    assert_eq!(k8s.exclude_containers, ["istio-proxy"]);

    let ddl = config.ddl().ok().unwrap();
    for column in ["`stream`", "`namespace`", "`pod`", "`container`", "`cluster`"] {
        assert!(ddl.contains(column), "DDL 少了 {column}:\n{ddl}");
    }
    assert!(ddl.contains("`replica`   Int64"));
    let assembly = config.build(Some("self".to_string())).ok().unwrap();
    assert_eq!(config.data_dir(), Some("/var/lib/logpipe"));
    let meta = |namespace: &str, pod: &str, container: &str| PodMeta {
        namespace: namespace.to_string(),
        pod: pod.to_string(),
        container: container.to_string(),
    };
    let selector = assembly.source.pod_selector.unwrap();
    assert!(selector.matches(&meta("prod", "order-1", "app")));
    assert!(!selector.matches(&meta("dev", "order-1", "app")));
    assert!(!selector.matches(&meta("prod", "cart-1", "app")));
    assert!(!selector.matches(&meta("prod", "order-1", "istio-proxy")));
}

#[test]
fn cluster_ddl_is_replicated_plus_distributed() {
    let clustered = config(
        SourceConfig::Kubernetes(kubernetes()),
        clickhouse("http://ck-lb:8123", Some("bj_ck")),
    );

    let ddl = clustered.ddl().ok().unwrap();
    assert!(ddl.contains("`logs`.`app_log_local` ON CLUSTER `bj_ck`"), "{ddl}");
    assert!(ddl.contains("ENGINE = ReplicatedMergeTree"), "{ddl}");
    assert!(ddl.contains("Distributed(`bj_ck`, `logs`, `app_log_local`, rand())"), "{ddl}");
    assert_eq!(ddl.matches("CREATE TABLE").count(), 2, "{ddl}");
    assert!(ddl.contains(";"), "{ddl}");
    assert!(ddl.contains("{shard}") && ddl.contains("{replica}"), "{ddl}");

    let single = config(
        SourceConfig::Kubernetes(kubernetes()),
        clickhouse("http://127.0.0.1:8123", None),
    )
    .ddl()
    .ok()
    .unwrap();
    assert!(single.contains("ENGINE = MergeTree"), "{single}");
    assert!(!single.contains("ON CLUSTER"), "{single}");
    assert!(!single.contains("app_log_local"), "{single}");
}

#[test]
fn access_log_formats_do_not_change_the_schema() {
    let mut config = config(
        SourceConfig::Kubernetes(kubernetes()),
        clickhouse("http://clickhouse:8123", None),
    );
    let plain = config.ddl().ok().unwrap();
    config.parser.formats = vec![LogFormat::Logback, LogFormat::Gin, LogFormat::Nginx];

    assert_eq!(config.formats(), [LogFormat::Logback, LogFormat::Gin, LogFormat::Nginx]);

    let ddl = config.ddl().ok().unwrap();
    for column in ["`status`", "`path`", "`latency_us`", "`user_agent`"] {
        assert!(!ddl.contains(column), "多出了 {column}:\n{ddl}");
    }
    assert_eq!(ddl, plain);
    assert!(config.build(None).is_ok());
}

#[test]
fn rejects_pattern_without_logback_format() {
    let mut config = config(SourceConfig::Kubernetes(kubernetes()), console());
    config.parser.formats = vec![LogFormat::Gin];
    config.parser.pattern =
        Some(r"^(?P<timestamp>\S+ \S+) (?P<level>[A-Z]+) (?P<message>.*)$".to_string());
    let err = config.check(None).err().expect("pattern 配了却不生效应当报错");
    assert!(err.message().contains("logback"), "{}", err.message());
}

#[test]
fn rejects_unknown_format() {
    let text = "source:\n  type: kubernetes\nparser:\n  formats: [log4j]\nsink:\n  type: console\n";
    let failures = with_failure(1, "formats[0]: unknown variant `log4j`");
    let err = settled(text, &failures).err().unwrap();
    assert!(err.message().contains("`parser` 配置有问题"), "{}", err.message());
}

#[test]
fn rejects_bad_selector_pattern() {
    let mut k8s = kubernetes();
    k8s.namespaces = texts(&["prod["]);
    let config = config(SourceConfig::Kubernetes(k8s), console());
    let err = config.build(None).err().expect("非法匹配式应当报错");
    assert!(err.message().contains("名字匹配式非法"), "{}", err.message());
}

#[test]
fn rejects_unknown_keys() {
    let text = "source:\n  type: file\n  include:\n    - a.log\n  typo_here: 1\nsink:\n  type: console\n";
    let failures = with_failure(0, "unknown field `typo_here`, expected one of `include`");
    let err = settled(text, &failures).err().unwrap();
    assert!(err.message().contains("`source` 配置有问题"), "{}", err.message());
}

#[test]
fn rejects_unknown_source_type() {
    let text = "source:\n  type: kafka\nsink:\n  type: console\n";
    let failures = with_failure(0, "unknown variant `kafka`");
    let err = settled(text, &failures).err().unwrap();
    assert!(err.message().contains("`source` 配置有问题"), "{}", err.message());
}

#[test]
fn names_the_section_and_hints_type_mismatch() {
    let text = "
source:
  type: kubernetes
sink:
  type: console
  endpoint: http://127.0.0.1:8123
";
    let failures = with_failure(2, "unknown field `endpoint`, expected `encoding` or `stderr`");
    let err = settled(text, &failures).err().unwrap().message();

    assert!(err.contains("`sink` 配置有问题"), "{err}");
    assert!(err.contains("unknown field `endpoint`"), "{err}");
    assert!(err.contains("sink.type"), "{err}");
}

#[test]
fn rejects_unknown_top_level_section() {
    let text = "
source:
  type: kubernetes
sink:
  type: console
sinks:
  type: console
";
    let err = settled(text, &no_failures()).err().unwrap().message();
    assert!(err.contains("未知的配置项 `sinks`"), "{err}");
    assert!(
        err.contains("source / parser / sink / batch / retry / pipeline / fields"),
        "{err}"
    );
}

#[test]
fn reports_missing_section() {
    let err = settled("source:\n  type: kubernetes\n", &no_failures()).err().unwrap().message();
    assert!(err.contains("缺少 `sink` 配置"), "{err}");
}

#[test]
fn documents_that_are_no_configuration() {
    let err = settled("a: [", &no_failures()).err().unwrap();
    assert!(matches!(err, Error::Config(_)));
    let want = serde_yaml_ng::from_str::<serde_yaml_ng::Value>("a: [").unwrap_err().to_string();
    assert!(err.message().ends_with(&format!("YAML 语法错误: {want}")), "{}", err.message());
    let err = settled("# nothing\n", &no_failures()).err().unwrap().message();
    assert!(err.contains("配置是空的"), "{err}");
    let err = settled("- a\n", &no_failures()).err().unwrap().message();
    assert!(err.contains("配置最外层应当是 key: value 形式"), "{err}");
    let err = settled("1: a\n", &no_failures()).err().unwrap().message();
    assert!(err.contains("未知的配置项 ``"), "{err}");
}

#[test]
fn empty_sections_are_as_usual() {
    let sections = Sections::parse("source:\nparser:\nsink: 1\nbatch: {}\n").ok().unwrap();
    assert_eq!(sections.step(0), SectionStep::Read);
    assert_eq!(sections.step(1), SectionStep::Default);
    assert_eq!(sections.step(2), SectionStep::Read);
    assert_eq!(sections.step(3), SectionStep::Read);
    assert_eq!(sections.step(4), SectionStep::Default);
    let none = Sections::parse("fields: {}\n").ok().unwrap();
    assert_eq!(none.step(0), SectionStep::Missing);
    let tagged = Sections::parse("!t source: 1\nsink: 1\n").ok().unwrap();
    assert_eq!(tagged.step(0), SectionStep::Missing);
}

#[test]
fn the_first_fault_counts() {
    let key = |name: &str| YamlKey { text: Some(name.to_string()), tagged: false, empty: false };
    let root = YamlRoot::Mapping(vec![key("batch"), key("source")]);
    let sections = Sections::of_root(Ok(root)).ok().unwrap();
    let mut failures = with_failure(3, "later");
    let err = sections.settle(&failures).err().unwrap().message();
    assert!(err.contains("缺少 `sink` 配置"), "{err}");
    failures[0] = Some("first".to_string());
    let err = sections.settle(&failures).err().unwrap().message();
    assert!(err.contains("`source` 配置有问题: first"), "{err}");
    let err = Sections::of_root(Err("line 1".to_string())).err().unwrap();
    assert!(err.message().contains("YAML 语法错误: line 1"), "{}", err.message());
}

#[test]
fn hints_are_for_sections_of_several_kinds() {
    let plain = section_error("batch", "unknown field `x`").message();
    assert!(!plain.contains("type"), "{plain}");
    let other = section_error("source", "missing field `x`").message();
    assert!(!other.contains("source.type"), "{other}");
}

#[test]
fn fields_have_types() {
    assert_eq!(column_type_of(&Value::Bool(true)), "UInt8");
    assert_eq!(column_type_of(&Value::Number(Number::Signed(-1))), "Int64");
    assert_eq!(column_type_of(&Value::Number(Number::Unsigned(1))), "Int64");
    assert_eq!(column_type_of(&Value::Number(Number::Decimal("1.5".to_string()))), "Float64");
    assert_eq!(column_type_of(&Value::text("x")), "LowCardinality(String)");
    assert_eq!(column_type_of(&Value::Null), "LowCardinality(String)");
}

#[test]
fn sinks_and_settings_are_put_together() {
    let mut c = config(SourceConfig::File(files(&["a.log"])), console());
    c.retry.max_attempts = 0;
    c.pipeline.buffer = 0;
    c.pipeline.on_error = OnErrorSetting::Drop;
    c.batch.timeout_secs = u64::MAX;
    c.sink = SinkConfig::Console { encoding: ConsoleEncoding::Text, stderr: true };
    let a = c.build(None).ok().unwrap();
    assert_eq!(a.plan.retry.max_attempts, 1);
    assert_eq!(a.plan.retry.max_backoff_ms, 30_000);
    assert_eq!(a.plan.buffer, 1);
    assert_eq!(a.plan.batch.timeout_ms, u64::MAX);
    assert_eq!(a.plan.on_error, OnError::Drop);
    match a.sink {
        SinkPlan::Console(plan) => assert!(plan.stderr && plan.encoding == Encoding::Text),
        SinkPlan::Clickhouse(_) => panic!("console"),
    }
    assert!(a.source.parser.parse("2026-09-07 11:04:08.914 INFO a.B -x").is_some());
    assert!(c.build_clickhouse().is_err());
    assert!(c.ddl().err().unwrap().message().contains("没有建表语句"));
    c.sink = clickhouse("http://ck/", None);
    if let SinkConfig::Clickhouse { user, .. } = &mut c.sink {
        *user = Some("me".to_string());
    }
    let sink = c.build_clickhouse().ok().unwrap();
    assert_eq!(sink.endpoint, "http://ck");
    assert_eq!(sink.password, Some(String::new()));
}

#[test]
fn a_file_source_needs_paths() {
    let mut c = config(SourceConfig::File(files(&[])), console());
    let err = c.check(None).err().unwrap();
    assert!(err.message().contains("source.include 不能为空"), "{}", err.message());
    let mut some = files(&["a"]);
    some.container_format = ContainerFormat::Cri;
    some.host = Some("h".to_string());
    c.source = SourceConfig::File(some);
    assert!(c.source.emits_pod_metadata());
    assert_eq!(*c.build(None).ok().unwrap().source.host, "h");
    assert_eq!(c.data_dir(), None);
    c.parser.pattern = Some("(".to_string());
    assert!(c.check(None).err().unwrap().message().contains("正则非法"));
}
