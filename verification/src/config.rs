//! The configuration of the program.

use serde_yaml_ng::Value as Yaml;
use vstd::prelude::*;
use vstd::string::*;

use crate::batch::{BatchConfig, RetryConfig};
use crate::error::{Error, ErrorView};
use crate::event::{field_views, list_views};
use crate::map::StrMap;
use crate::parser::api::Parser;
use crate::parser::chain::{formats_fault, formats_read, BoxedParser, ChainParser, LogFormat};
use crate::parser::cri::ContainerFormat;
use crate::pipeline::{OnError, PipelineBuilder, Plan};
use crate::sink::clickhouse::ClickhouseSink;
use crate::sink::console::{ConsoleSink, Encoding};
use crate::sink::ddl::{columns_view, ddl_text};
use crate::source::file::FileSource;
use crate::source::k8s::{is_host_name, leaves_out_self, patterns_fault, PodSelector, SelectorView};
use crate::source::k8s::DEFAULT_POD_LOG_DIR;
use crate::source::tail::duplicate_fields;
use crate::text::{has_part, has_text, holds_part, join, joined, opt_string_view, opt_view, same};
use crate::text::{texts_view, trimmed_end_char};
use crate::value::{Number, NumberView, Value, ValueView};

verus! {

/// The whole configuration.
pub struct Config {
    pub source: SourceConfig,
    pub parser: ParserConfig,
    pub sink: SinkConfig,
    pub batch: BatchSettings,
    pub retry: RetrySettings,
    pub pipeline: PipelineSettings,
    /// Fields that every event has.
    pub fields: StrMap<Value>,
}

/// Where to collect from.
pub enum SourceConfig {
    /// All containers of this machine.
    Kubernetes(KubernetesSourceConfig),
    /// Files.
    File(FileSourceConfig),
}

/// Which containers to collect from. The names may be patterns.
pub struct KubernetesSourceConfig {
    /// Empty means all, here and below.
    pub namespaces: Vec<String>,
    /// What is excluded is excluded even if it is taken, here and below.
    pub exclude_namespaces: Vec<String>,
    pub pods: Vec<String>,
    pub exclude_pods: Vec<String>,
    pub containers: Vec<String>,
    pub exclude_containers: Vec<String>,
    /// Whether to leave out the own pod.
    pub exclude_self: bool,
    /// Where the kubelet puts the logs.
    pub log_dir: String,
    /// Where offsets are stored.
    pub data_dir: Option<String>,
    pub read_from_beginning: bool,
    pub glob_interval_secs: u64,
    /// The name of the host, where it is not the machine's.
    pub host: Option<String>,
}

/// Which files to collect from.
pub struct FileSourceConfig {
    pub include_paths: Vec<String>,
    pub exclude: Vec<String>,
    /// Where offsets are stored.
    pub data_dir: Option<String>,
    pub read_from_beginning: bool,
    pub glob_interval_secs: u64,
    /// The name of the host, where it is not the machine's.
    pub host: Option<String>,
    pub container_format: ContainerFormat,
}

/// How lines are read.
pub struct ParserConfig {
    /// The formats, in the order in which they are tried; the Java format where
    /// there is none.
    pub formats: Vec<LogFormat>,
    /// A pattern that stands in for the Java format.
    pub pattern: Option<String>,
}

/// Where events go.
pub enum SinkConfig {
    Clickhouse {
        endpoint: String,
        database: String,
        table: String,
        cluster: Option<String>,
        user: Option<String>,
        password: Option<String>,
        async_insert: bool,
        compress: bool,
        timeout_secs: u64,
    },
    Console { encoding: ConsoleEncoding, stderr: bool },
}

/// How events are written out.
#[derive(Clone, Copy, Debug, PartialEq, Eq, Structural)]
pub enum ConsoleEncoding {
    Json,
    Text,
}

/// When a batch is full.
#[derive(Clone, Copy, Debug, PartialEq, Eq, Structural)]
pub struct BatchSettings {
    pub max_events: usize,
    pub max_bytes: usize,
    pub timeout_secs: u64,
}

/// How often a batch is tried.
#[derive(Clone, Copy, Debug, PartialEq, Eq, Structural)]
pub struct RetrySettings {
    pub max_attempts: usize,
    pub initial_backoff_ms: u64,
    pub max_backoff_secs: u64,
}

/// What lies between source and sink.
#[derive(Clone, Copy, Debug, PartialEq, Eq, Structural)]
pub struct PipelineSettings {
    pub buffer: usize,
    pub require_healthy: bool,
    pub on_error: OnErrorSetting,
}

/// What becomes of a batch that cannot be stored.
#[derive(Clone, Copy, Debug, PartialEq, Eq, Structural)]
pub enum OnErrorSetting {
    Stop,
    Drop,
}

pub fn yes() -> (r: bool)
    ensures
        r,
{
    true
}

pub fn one() -> (r: u64)
    ensures
        r == 1,
{
    1
}

pub fn five() -> (r: usize)
    ensures
        r == 5,
{
    5
}

pub fn ten() -> (r: u64)
    ensures
        r == 10,
{
    10
}

pub fn thirty() -> (r: u64)
    ensures
        r == 30,
{
    30
}

pub fn default_max_events() -> (r: usize)
    ensures
        r == 10_000,
{
    BatchConfig::default().max_events
}

pub fn default_max_bytes() -> (r: usize)
    ensures
        r == 10_485_760,
{
    BatchConfig::default().max_bytes
}

pub fn default_initial_backoff_ms() -> (r: u64)
    ensures
        r == 500,
{
    RetryConfig::default().initial_backoff_ms
}

pub fn default_buffer() -> (r: usize)
    ensures
        r == 64,
{
    64
}

pub fn default_pod_log_dir() -> (r: String)
    ensures
        r@ == DEFAULT_POD_LOG_DIR@,
{
    DEFAULT_POD_LOG_DIR.to_owned()
}

impl Default for BatchSettings {
    fn default() -> (r: Self)
        ensures
            r.max_events == 10_000,
            r.max_bytes == 10_485_760,
            r.timeout_secs == 1,
    {
        BatchSettings {
            max_events: default_max_events(),
            max_bytes: default_max_bytes(),
            timeout_secs: one(),
        }
    }
}

impl Default for RetrySettings {
    fn default() -> (r: Self)
        ensures
            r.max_attempts == 5,
            r.initial_backoff_ms == 500,
            r.max_backoff_secs == 30,
    {
        RetrySettings {
            max_attempts: five(),
            initial_backoff_ms: default_initial_backoff_ms(),
            max_backoff_secs: thirty(),
        }
    }
}

impl Default for PipelineSettings {
    fn default() -> (r: Self)
        ensures
            r.buffer == 64,
            !r.require_healthy,
            r.on_error == OnErrorSetting::Stop,
    {
        PipelineSettings {
            buffer: default_buffer(),
            require_healthy: false,
            on_error: OnErrorSetting::Stop,
        }
    }
}

impl Default for ParserConfig {
    fn default() -> (r: Self)
        ensures
            r.formats@ == Seq::<LogFormat>::empty(),
            r.pattern is None,
    {
        ParserConfig { formats: Vec::new(), pattern: None }
    }
}

impl Default for ConsoleEncoding {
    fn default() -> (r: Self)
        ensures
            r == ConsoleEncoding::Json,
    {
        ConsoleEncoding::Json
    }
}

impl Default for OnErrorSetting {
    fn default() -> (r: Self)
        ensures
            r == OnErrorSetting::Stop,
    {
        OnErrorSetting::Stop
    }
}

/// One key of a mapping in YAML.
pub struct YamlKey {
    /// What it says, if it is a text.
    pub text: Option<String>,
    /// Whether it has a tag, such as `!t`.
    pub tagged: bool,
    /// Whether its value is nothing, and has no tag.
    pub empty: bool,
}

/// What a [`YamlKey`] holds.
pub struct KeyView {
    pub text: Option<Seq<char>>,
    pub tagged: bool,
    pub empty: bool,
}

impl YamlKey {
    pub open spec fn view(&self) -> KeyView {
        KeyView { text: opt_string_view(self.text), tagged: self.tagged, empty: self.empty }
    }
}

/// The outermost value of a document in YAML.
pub enum YamlRoot {
    /// Nothing.
    Null,
    /// Keys and values.
    Mapping(Vec<YamlKey>),
    /// Anything else.
    Other,
}

/// What a [`YamlRoot`] holds.
pub enum RootView {
    Null,
    Mapping(Seq<KeyView>),
    Other,
}

impl YamlRoot {
    pub open spec fn view(&self) -> RootView {
        match *self {
            YamlRoot::Null => RootView::Null,
            YamlRoot::Mapping(keys) => RootView::Mapping(keys_view(keys@)),
            YamlRoot::Other => RootView::Other,
        }
    }
}

/// What keys hold.
pub open spec fn keys_view(keys: Seq<YamlKey>) -> Seq<KeyView> {
    keys.map_values(|k: YamlKey| k@)
}

/// The outermost value of a document, or what is wrong with the document.
pub uninterp spec fn yaml_root(text: Seq<char>) -> Result<RootView, Seq<char>>;

/// What a document's outermost value came to.
pub open spec fn root_view(r: Result<YamlRoot, String>) -> Result<RootView, Seq<char>> {
    match r {
        Ok(root) => Ok(root@),
        Err(e) => Err(e@),
    }
}

/// Reads a document in YAML with `serde_yaml_ng::from_str`. The outermost value
/// that it comes to, or the text of its error, depends on the document alone;
/// what the value is for a given document is left unsaid.
#[verifier::external_body]
fn read_yaml(text: &str) -> (r: Result<YamlRoot, String>)
    ensures
        root_view(r) == yaml_root(text@),
{
    let root: Yaml = serde_yaml_ng::from_str(text).map_err(|e| e.to_string())?;
    Ok(match root {
        Yaml::Null => YamlRoot::Null,
        Yaml::Bool(_) => YamlRoot::Other,
        Yaml::Number(_) => YamlRoot::Other,
        Yaml::String(_) => YamlRoot::Other,
        Yaml::Sequence(_) => YamlRoot::Other,
        Yaml::Tagged(_) => YamlRoot::Other,
        Yaml::Mapping(mapping) => YamlRoot::Mapping(mapping.iter().map(|(key, value)| YamlKey {
            text: key.as_str().map(|text| text.to_owned()),
            tagged: matches!(key, Yaml::Tagged(_)),
            empty: matches!(value, Yaml::Null),
        }).collect()),
    })
}

/// The names of the sections.
pub open spec fn section_names() -> Seq<Seq<char>> {
    seq!["source"@, "parser"@, "sink"@, "batch"@, "retry"@, "pipeline"@, "fields"@]
}

fn section_list() -> (r: Vec<String>)
    ensures
        texts_view(r@) == section_names(),
{
    let mut out: Vec<String> = Vec::new();
    out.push("source".to_owned());
    out.push("parser".to_owned());
    out.push("sink".to_owned());
    out.push("batch".to_owned());
    out.push("retry".to_owned());
    out.push("pipeline".to_owned());
    out.push("fields".to_owned());
    proof {
        assert(texts_view(out@) =~= section_names());
    }
    out
}

/// What a key is called; nothing where it is no text.
pub open spec fn key_name(key: KeyView) -> Seq<char> {
    match key.text {
        Some(text) => text,
        None => Seq::empty(),
    }
}

/// The first key that is not called like a section.
pub open spec fn first_unknown(keys: Seq<KeyView>) -> Option<Seq<char>>
    decreases keys.len(),
{
    if keys.len() == 0 {
        None
    } else if section_names().contains(key_name(keys[0])) {
        first_unknown(keys.drop_first())
    } else {
        Some(key_name(keys[0]))
    }
}

/// What is wrong with a document as a configuration.
pub open spec fn root_fault(root: Result<RootView, Seq<char>>) -> Option<ErrorView> {
    match root {
        Err(e) => Some(ErrorView::Config("YAML 语法错误: "@ + e)),
        Ok(RootView::Null) => Some(ErrorView::Config("配置是空的"@)),
        Ok(RootView::Other) => Some(
            ErrorView::Config("配置最外层应当是 key: value 形式"@),
        ),
        Ok(RootView::Mapping(keys)) => match first_unknown(keys) {
            Some(name) => Some(
                ErrorView::Config(
                    "未知的配置项 `"@ + name + "`；可用的有: "@ + joined(
                        section_names(),
                        " / "@,
                    ),
                ),
            ),
            None => None,
        },
    }
}

/// The sections that a document has.
pub struct Sections {
    keys: Vec<YamlKey>,
}

/// What is to be done about a section.
#[derive(Clone, Copy, Debug, PartialEq, Eq, Structural)]
pub enum SectionStep {
    /// It is there and to be read.
    Read,
    /// It is not there, or empty: all of it is as usual.
    Default,
    /// It is not there and has to be.
    Missing,
}

impl Sections {
    /// The keys of the document.
    pub closed spec fn view(&self) -> Seq<KeyView> {
        keys_view(self.keys@)
    }

    /// Looks at a document as a whole. Keys that are not known are refused, so
    /// that a slip of the pen is not passed over in silence.
    pub fn parse(text: &str) -> (r: Result<Sections, Error>)
        ensures
            r is Ok <==> root_fault(yaml_root(text@)) is None,
            r matches Ok(s) ==> yaml_root(text@) == Ok::<RootView, Seq<char>>(
                RootView::Mapping(s@),
            ),
            r matches Err(e) ==> root_fault(yaml_root(text@)) == Some(e@),
    {
        Self::of_root(read_yaml(text))
    }

    /// The same, for what a document was read as.
    pub fn of_root(document: Result<YamlRoot, String>) -> (r: Result<Sections, Error>)
        ensures
            r is Ok <==> root_fault(root_view(document)) is None,
            r matches Ok(s) ==> root_view(document) == Ok::<RootView, Seq<char>>(
                RootView::Mapping(s@),
            ),
            r matches Err(e) ==> root_fault(root_view(document)) == Some(e@),
    {
        let ghost whole = root_view(document);
        let root = match document {
            Ok(root) => root,
            Err(e) => {
                let mut message = "YAML 语法错误: ".to_owned();
                message.append(e.as_str());
                return Err(Error::Config(message));
            },
        };
        let keys = match root {
            YamlRoot::Mapping(keys) => keys,
            YamlRoot::Null => {
                return Err(Error::config("配置是空的"));
            },
            YamlRoot::Other => {
                return Err(Error::config("配置最外层应当是 key: value 形式"));
            },
        };
        let known = section_list();
        let ghost views = keys_view(keys@);
        proof {
            assert(views.skip(0) =~= views);
            reveal_strlit("");
            assert(""@ =~= Seq::<char>::empty());
        }
        for i in 0..keys.len()
            invariant
                views == keys_view(keys@),
                whole == root_view(document),
                whole == Ok::<RootView, Seq<char>>(RootView::Mapping(views)),
                texts_view(known@) == section_names(),
                ""@ == Seq::<char>::empty(),
                first_unknown(views) == first_unknown(views.skip(i as int)),
        {
            proof {
                assert(views.skip(i as int).drop_first() =~= views.skip(i + 1));
                assert(views.skip(i as int)[0] == views[i as int]);
            }
            let name: &str = match &keys[i].text {
                Some(text) => text.as_str(),
                None => "",
            };
            if !has_text(&known, name) {
                let mut message = "未知的配置项 `".to_owned();
                message.append(name);
                message.append("`；可用的有: ");
                let list = join(&known, " / ");
                message.append(list.as_str());
                return Err(Error::Config(message));
            }
        }
        Ok(Sections { keys })
    }

    /// Whether a section is there, and whether it is empty. A key with a tag is
    /// not the section's.
    pub open spec fn state(keys: Seq<KeyView>, name: Seq<char>) -> Option<bool>
        decreases keys.len(),
    {
        if keys.len() == 0 {
            None
        } else if keys[0].text == Some(name) && !keys[0].tagged {
            Some(keys[0].empty)
        } else {
            Self::state(keys.drop_first(), name)
        }
    }

    fn find(&self, name: &str) -> (r: Option<bool>)
        ensures
            r == Self::state(self@, name@),
    {
        let ghost views = self@;
        proof {
            assert(views.skip(0) =~= views);
        }
        for i in 0..self.keys.len()
            invariant
                views == keys_view(self.keys@),
                views == self@,
                Self::state(views, name@) == Self::state(views.skip(i as int), name@),
        {
            proof {
                assert(views.skip(i as int).drop_first() =~= views.skip(i + 1));
                assert(views.skip(i as int)[0] == views[i as int]);
            }
            if let Some(text) = &self.keys[i].text {
                if !self.keys[i].tagged && same(text.as_str(), name) {
                    return Some(self.keys[i].empty);
                }
            }
        }
        None
    }

    /// What is to be done about the section of this number.
    pub fn step(&self, i: usize) -> (r: SectionStep)
        requires
            i < section_names().len(),
        ensures
            r == section_step(self@, i as int),
    {
        let names = section_list();
        let found = self.find(names[i].as_str());
        proof {
            assert(texts_view(names@)[i as int] == names@[i as int]@);
        }
        match found {
            Some(empty) => if empty && !(i == 0 || i == 2) {
                SectionStep::Default
            } else {
                SectionStep::Read
            },
            None => if i == 0 || i == 2 {
                SectionStep::Missing
            } else {
                SectionStep::Default
            },
        }
    }

    /// Whether all sections are in order. `failures` says what was wrong with
    /// those that were read; the first fault in the order of the sections counts.
    pub fn settle(&self, failures: &Vec<Option<String>>) -> (r: Result<(), Error>)
        requires
            failures@.len() == section_names().len(),
        ensures
            r is Ok <==> sections_fault(self@, failures@, 0) is None,
            r matches Err(e) ==> sections_fault(self@, failures@, 0) == Some(e@),
    {
        let names = section_list();
        for i in 0..failures.len()
            invariant
                texts_view(names@) == section_names(),
                failures@.len() == section_names().len(),
                sections_fault(self@, failures@, 0) == sections_fault(self@, failures@, i as int),
        {
            proof {
                assert(texts_view(names@)[i as int] == names@[i as int]@);
            }
            match self.step(i) {
                SectionStep::Default => {},
                SectionStep::Missing => {
                    let mut message = "缺少 `".to_owned();
                    message.append(names[i].as_str());
                    message.append("` 配置");
                    return Err(Error::Config(message));
                },
                SectionStep::Read => {
                    if let Some(message) = &failures[i] {
                        return Err(section_error(names[i].as_str(), message.as_str()));
                    }
                },
            }
        }
        Ok(())
    }
}

/// What is to be done about the section of this number: where to collect from and
/// where events go has to be said, and an empty section counts as missing
/// elsewhere.
pub open spec fn section_step(keys: Seq<KeyView>, i: int) -> SectionStep {
    let required = i == 0 || i == 2;
    match Sections::state(keys, section_names()[i]) {
        Some(empty) => if empty && !required {
            SectionStep::Default
        } else {
            SectionStep::Read
        },
        None => if required {
            SectionStep::Missing
        } else {
            SectionStep::Default
        },
    }
}

/// The first thing that is wrong with the sections from this number on.
pub open spec fn sections_fault(
    keys: Seq<KeyView>,
    failures: Seq<Option<String>>,
    i: int,
) -> Option<ErrorView>
    decreases failures.len() - i,
{
    if i < 0 || i >= failures.len() {
        None
    } else {
        match (section_step(keys, i), failures[i]) {
            (SectionStep::Missing, _) => Some(
                ErrorView::Config("缺少 `"@ + section_names()[i] + "` 配置"@),
            ),
            (SectionStep::Read, Some(message)) => Some(
                section_fault(section_names()[i], message@),
            ),
            _ => sections_fault(keys, failures, i + 1),
        }
    }
}

/// What to look at where a section of several kinds has a field that is not
/// known.
pub open spec fn section_hint(name: Seq<char>, message: Seq<char>) -> Seq<char> {
    if (name == "source"@ || name == "sink"@) && holds_part(message, "unknown field"@) {
        "；请检查 "@ + name + ".type 和下面的字段是否匹配"@
    } else {
        Seq::empty()
    }
}

/// What is wrong with a section that cannot be read, with the section's name in
/// it.
pub open spec fn section_fault(name: Seq<char>, message: Seq<char>) -> ErrorView {
    ErrorView::Config("`"@ + name + "` 配置有问题: "@ + message + section_hint(name, message))
}

/// The error of a section that cannot be read.
pub fn section_error(name: &str, message: &str) -> (r: Error)
    ensures
        r@ == section_fault(name@, message@),
{
    let mut out = "`".to_owned();
    out.append(name);
    out.append("` 配置有问题: ");
    out.append(message);
    let ghost before = out@;
    if (same(name, "source") || same(name, "sink")) && has_part(message, "unknown field") {
        let mut hint = "；请检查 ".to_owned();
        hint.append(name);
        hint.append(".type 和下面的字段是否匹配");
        out.append(hint.as_str());
    } else {
        proof {
            assert(before + Seq::<char>::empty() =~= before);
        }
    }
    Error::Config(out)
}

/// The type of the column for a field.
pub open spec fn column_type(value: ValueView) -> Seq<char> {
    match value {
        ValueView::Bool(_) => "UInt8"@,
        ValueView::Number(NumberView::Decimal(_)) => "Float64"@,
        ValueView::Number(_) => "Int64"@,
        _ => "LowCardinality(String)"@,
    }
}

/// The type of the column for a field. Texts are mostly from a small set, such as
/// the names of services.
pub fn column_type_of(value: &Value) -> (r: String)
    ensures
        r@ == column_type(value@),
{
    match value {
        Value::Bool(_) => "UInt8".to_owned(),
        Value::Number(n) => match n {
            Number::Decimal(_) => "Float64".to_owned(),
            _ => "Int64".to_owned(),
        },
        _ => "LowCardinality(String)".to_owned(),
    }
}

/// Seconds in milliseconds, as far as they fit.
pub open spec fn millis(secs: u64) -> u64 {
    if secs * 1000 <= u64::MAX {
        (secs * 1000) as u64
    } else {
        u64::MAX
    }
}

fn to_millis(secs: u64) -> (r: u64)
    ensures
        r == millis(secs),
{
    match secs.checked_mul(1000) {
        Some(ms) => ms,
        None => u64::MAX,
    }
}

impl SourceConfig {
    /// Whether events carry the names of containers and the stream.
    pub open spec fn has_pods(&self) -> bool {
        match *self {
            SourceConfig::Kubernetes(_) => true,
            SourceConfig::File(file) => file.container_format == ContainerFormat::Cri,
        }
    }

    /// Whether events carry the names of containers and the stream.
    pub fn emits_pod_metadata(&self) -> (r: bool)
        ensures
            r == self.has_pods(),
    {
        match self {
            SourceConfig::Kubernetes(_) => true,
            SourceConfig::File(file) => match file.container_format {
                ContainerFormat::Cri => true,
                ContainerFormat::Raw => false,
            },
        }
    }

    /// Where offsets are stored.
    pub open spec fn stores_in(&self) -> Option<Seq<char>> {
        match *self {
            SourceConfig::Kubernetes(k8s) => opt_string_view(k8s.data_dir),
            SourceConfig::File(file) => opt_string_view(file.data_dir),
        }
    }
}

/// The columns that a container's events have.
pub open spec fn pod_columns() -> Seq<(Seq<char>, Seq<char>)> {
    seq![
        ("stream"@, "LowCardinality(String)"@),
        ("namespace"@, "LowCardinality(String)"@),
        ("pod"@, "String"@),
        ("container"@, "LowCardinality(String)"@),
    ]
}

/// The columns of fields.
pub open spec fn field_columns(fields: Seq<(Seq<char>, ValueView)>) -> Seq<
    (Seq<char>, Seq<char>),
> {
    fields.map_values(|f: (Seq<char>, ValueView)| (f.0, column_type(f.1)))
}

/// The patterns of a selection of containers.
pub open spec fn selection(k8s: KubernetesSourceConfig) -> SelectorView {
    SelectorView {
        namespaces: texts_view(k8s.namespaces@),
        exclude_namespaces: texts_view(k8s.exclude_namespaces@),
        pods: texts_view(k8s.pods@),
        exclude_pods: texts_view(k8s.exclude_pods@),
        containers: texts_view(k8s.containers@),
        exclude_containers: texts_view(k8s.exclude_containers@),
    }
}

/// The first of two faults.
pub open spec fn first_fault(a: Option<ErrorView>, b: Option<ErrorView>) -> Option<ErrorView> {
    match a {
        Some(e) => Some(e),
        None => b,
    }
}

/// What is wrong with a selection of containers.
pub open spec fn selection_fault(s: SelectorView) -> Option<ErrorView> {
    first_fault(
        patterns_fault(s.namespaces),
        first_fault(
            patterns_fault(s.exclude_namespaces),
            first_fault(
                patterns_fault(s.pods),
                first_fault(
                    patterns_fault(s.exclude_pods),
                    first_fault(
                        patterns_fault(s.containers),
                        patterns_fault(s.exclude_containers),
                    ),
                ),
            ),
        ),
    )
}

fn build_selector(k8s: &KubernetesSourceConfig) -> (r: Result<PodSelector, Error>)
    ensures
        r is Ok <==> selection_fault(selection(*k8s)) is None,
        r matches Ok(s) ==> s@ == selection(*k8s),
        r matches Err(e) ==> selection_fault(selection(*k8s)) == Some(e@),
{
    let selector = match PodSelector::new().namespaces(duplicate_texts(&k8s.namespaces)) {
        Ok(s) => s,
        Err(e) => {
            return Err(e);
        },
    };
    let selector = match selector.exclude_namespaces(duplicate_texts(&k8s.exclude_namespaces)) {
        Ok(s) => s,
        Err(e) => {
            return Err(e);
        },
    };
    let selector = match selector.pods(duplicate_texts(&k8s.pods)) {
        Ok(s) => s,
        Err(e) => {
            return Err(e);
        },
    };
    let selector = match selector.exclude_pods(duplicate_texts(&k8s.exclude_pods)) {
        Ok(s) => s,
        Err(e) => {
            return Err(e);
        },
    };
    let selector = match selector.containers(duplicate_texts(&k8s.containers)) {
        Ok(s) => s,
        Err(e) => {
            return Err(e);
        },
    };
    selector.exclude_containers(duplicate_texts(&k8s.exclude_containers))
}

fn duplicate_texts(list: &Vec<String>) -> (r: Vec<String>)
    ensures
        texts_view(r@) == texts_view(list@),
{
    let mut out: Vec<String> = Vec::new();
    for i in 0..list.len()
        invariant
            out@.len() == i,
            forall|k: int| 0 <= k < i ==> (#[trigger] out@[k])@ == list@[k]@,
    {
        out.push(list[i].clone());
    }
    proof {
        assert(texts_view(out@) =~= texts_view(list@));
    }
    out
}

/// What events go to.
pub enum SinkPlan {
    Clickhouse(ClickhouseSink),
    Console(ConsoleSink),
}

/// What a configuration comes to.
pub struct Assembly {
    pub source: FileSource,
    pub sink: SinkPlan,
    pub plan: Plan,
}

impl Config {
    /// The fields are in order.
    pub open spec fn wf(&self) -> bool {
        self.fields.wf()
    }

    /// The columns beside the usual ones: those of containers, and the fields.
    pub open spec fn more_columns(&self) -> Seq<(Seq<char>, Seq<char>)> {
        (if self.source.has_pods() {
            pod_columns()
        } else {
            Seq::empty()
        }) + field_columns(list_views(self.fields.list()))
    }

    /// The columns beside the usual ones.
    pub fn extra_columns(&self) -> (r: Vec<(String, String)>)
        ensures
            columns_view(r@) == self.more_columns(),
    {
        let mut out: Vec<(String, String)> = Vec::new();
        if self.source.emits_pod_metadata() {
            out.push(("stream".to_owned(), "LowCardinality(String)".to_owned()));
            out.push(("namespace".to_owned(), "LowCardinality(String)".to_owned()));
            out.push(("pod".to_owned(), "String".to_owned()));
            out.push(("container".to_owned(), "LowCardinality(String)".to_owned()));
        }
        let ghost base = if self.source.has_pods() {
            pod_columns()
        } else {
            Seq::empty()
        };
        let ghost more = field_columns(list_views(self.fields.list()));
        proof {
            assert(columns_view(out@) =~= base + more.take(0));
        }
        let count: usize = self.fields.len();
        for i in 0..count
            invariant
                count == self.fields.list().len(),
                more == field_columns(list_views(self.fields.list())),
                columns_view(out@) == base + more.take(i as int),
        {
            let ghost before = out@;
            let (key, value) = self.fields.entry(i);
            out.push((key.clone(), column_type_of(value)));
            proof {
                assert(columns_view(out@) =~= columns_view(before).push(more[i as int]));
                assert(more.take(i + 1) =~= more.take(i as int).push(more[i as int]));
                assert(columns_view(out@) =~= base + more.take(i + 1));
            }
        }
        proof {
            assert(more.take(count as int) =~= more);
        }
        out
    }

    /// What the statements for the table of this configuration are; the console has
    /// none.
    pub open spec fn statements(&self) -> Option<Seq<char>> {
        match self.sink {
            SinkConfig::Clickhouse { database, table, cluster, .. } => Some(
                ddl_text(
                    database@,
                    table@,
                    opt_string_view(cluster),
                    None,
                    self.more_columns(),
                ),
            ),
            SinkConfig::Console { .. } => None,
        }
    }

    /// The statements for the table of this configuration.
    pub fn ddl(&self) -> (r: Result<String, Error>)
        ensures
            match self.statements() {
                Some(statements) => r matches Ok(text) && text@ == statements,
                None => r matches Err(e) && e@ == ErrorView::Config(
                    "当前 sink 是 console，没有建表语句"@,
                ),
            },
    {
        match &self.sink {
            SinkConfig::Clickhouse { .. } => match self.build_clickhouse() {
                Ok(sink) => Ok(sink.create_table_ddl_with(&self.extra_columns())),
                Err(e) => Err(e),
            },
            SinkConfig::Console { .. } => Err(
                Error::config("当前 sink 是 console，没有建表语句"),
            ),
        }
    }

    /// Whether a sink is the one that this configuration asks for.
    pub open spec fn is_clickhouse(&self, sink: &ClickhouseSink) -> bool {
        match self.sink {
            SinkConfig::Clickhouse {
                endpoint,
                database,
                table,
                cluster,
                user,
                password,
                async_insert,
                compress,
                timeout_secs,
            } => {
                &&& sink.endpoint@ == trimmed_end_char(endpoint@, '/')
                &&& sink.database@ == database@
                &&& sink.table@ == table@
                &&& opt_string_view(sink.cluster) == opt_string_view(cluster)
                &&& sink.timezone is None
                &&& sink.extra_columns@ == Seq::<(String, String)>::empty()
                &&& opt_string_view(sink.user) == opt_string_view(user)
                &&& opt_string_view(sink.password) == match user {
                    Some(_) => Some(
                        match password {
                            Some(password) => password@,
                            None => Seq::<char>::empty(),
                        },
                    ),
                    None => None,
                }
                &&& sink.timeout_ms == millis(timeout_secs)
                &&& sink.async_insert == async_insert
                &&& sink.compress == compress
            },
            SinkConfig::Console { .. } => false,
        }
    }

    /// Puts the sink for the table together.
    pub fn build_clickhouse(&self) -> (r: Result<ClickhouseSink, Error>)
        ensures
            r is Ok <==> self.sink is Clickhouse,
            r matches Ok(sink) ==> self.is_clickhouse(&sink),
            r matches Err(e) ==> e@ == ErrorView::Config("sink 不是 clickhouse"@),
    {
        match &self.sink {
            SinkConfig::Clickhouse {
                endpoint,
                database,
                table,
                cluster,
                user,
                password,
                async_insert,
                compress,
                timeout_secs,
            } => {
                let mut sink = ClickhouseSink::new(
                    endpoint.as_str(),
                    database.as_str(),
                    table.as_str(),
                ).timeout(to_millis(*timeout_secs)).async_insert(*async_insert).compress(*compress);
                if let Some(cluster) = cluster {
                    sink = sink.cluster(cluster.as_str());
                }
                proof {
                    reveal_strlit("");
                    assert(""@ =~= Seq::<char>::empty());
                }
                if let Some(user) = user {
                    let password: &str = match password {
                        Some(password) => password.as_str(),
                        None => "",
                    };
                    sink = sink.auth(user.as_str(), password);
                }
                Ok(sink)
            },
            SinkConfig::Console { .. } => Err(Error::config("sink 不是 clickhouse")),
        }
    }

    /// The formats that count: the Java format where none is given.
    pub open spec fn used_formats(&self) -> Seq<LogFormat> {
        if self.parser.formats@.len() == 0 {
            seq![LogFormat::Logback]
        } else {
            self.parser.formats@
        }
    }

    /// The formats that count.
    pub fn formats(&self) -> (r: Vec<LogFormat>)
        ensures
            r@ == self.used_formats(),
    {
        let mut out: Vec<LogFormat> = Vec::new();
        if self.parser.formats.len() == 0 {
            out.push(LogFormat::Logback);
            proof {
                assert(out@ =~= seq![LogFormat::Logback]);
            }
            return out;
        }
        for i in 0..self.parser.formats.len()
            invariant
                out@ == self.parser.formats@.take(i as int),
        {
            out.push(self.parser.formats[i]);
            proof {
                assert(out@ =~= self.parser.formats@.take(i + 1));
            }
        }
        proof {
            assert(out@ =~= self.parser.formats@);
        }
        out
    }

    /// What is wrong with how lines are to be read.
    pub open spec fn parser_fault(&self) -> Option<ErrorView> {
        if self.parser.pattern is Some && !self.used_formats().contains(LogFormat::Logback) {
            Some(
                ErrorView::Config(
                    "parser.pattern 是给 logback 格式用的，formats 里没有 logback 时它不会生效"@,
                ),
            )
        } else {
            formats_fault(self.used_formats(), opt_string_view(self.parser.pattern))
        }
    }

    /// Puts together what lines are read with. A pattern that would be of no use
    /// is refused.
    pub fn build_parser(&self) -> (r: Result<ChainParser, Error>)
        ensures
            r is Ok <==> self.parser_fault() is None,
            r matches Ok(p) ==> forall|line: Seq<char>| #[trigger]
                p.reads(line) == formats_read(
                    self.used_formats(),
                    opt_string_view(self.parser.pattern),
                    line,
                ),
            r matches Err(e) ==> self.parser_fault() == Some(e@),
    {
        let formats = self.formats();
        if self.parser.pattern.is_some() && !has_logback(&formats) {
            return Err(
                Error::config(
                    "parser.pattern 是给 logback 格式用的，formats 里没有 logback 时它不会生效",
                ),
            );
        }
        let pattern: Option<&str> = match &self.parser.pattern {
            Some(pattern) => Some(pattern.as_str()),
            None => None,
        };
        ChainParser::from_formats(formats.as_slice(), pattern)
    }

    /// What is wrong with where to collect from.
    pub open spec fn source_fault(&self) -> Option<ErrorView> {
        first_fault(
            self.parser_fault(),
            match self.source {
                SourceConfig::Kubernetes(k8s) => selection_fault(selection(k8s)),
                SourceConfig::File(file) => if file.include_paths@.len() == 0 {
                    Some(ErrorView::Config("source.include 不能为空"@))
                } else {
                    None
                },
            },
        )
    }

    /// Whether a source is the one that this configuration asks for.
    pub open spec fn is_source(&self, s: &FileSource, pod_name: Option<String>) -> bool {
        &&& s.wf()
        &&& forall|line: Seq<char>| #[trigger]
            s.parser.reads(line) == formats_read(
                self.used_formats(),
                opt_string_view(self.parser.pattern),
                line,
            )
        &&& field_views(s.fields@) == field_views(self.fields@)
        &&& opt_string_view(s.data_dir) == self.source.stores_in()
        &&& s.service_name_label is None
        &&& s.read_interval_ms == 500
        &&& s.checkpoint_interval_ms == 5_000
        &&& s.idle_flush_ms == 2_000
        &&& s.max_line_bytes == 1_048_576
        &&& s.batch_lines == 1_000
        &&& match self.source {
            SourceConfig::Kubernetes(k8s) => {
                &&& texts_view(s.includes@) == seq![k8s.log_dir@ + "/*/*/*.log*"@]
                &&& s.excludes@ == Seq::<String>::empty()
                &&& s.container_format == ContainerFormat::Cri
                &&& s.pod_selector matches Some(selector) && if !k8s.exclude_self {
                    selector@ == selection(k8s)
                } else {
                    leaves_out_self(selection(k8s), pod_name, selector@)
                }
                &&& s.read_from_beginning == k8s.read_from_beginning
                &&& s.glob_interval_ms == millis(k8s.glob_interval_secs)
                &&& match k8s.host {
                    Some(host) => s.host@ == host@,
                    None => is_host_name(s.host@),
                }
            },
            SourceConfig::File(file) => {
                &&& texts_view(s.includes@) == texts_view(file.include_paths@)
                &&& texts_view(s.excludes@) == texts_view(file.exclude@)
                &&& s.container_format == file.container_format
                &&& s.pod_selector is None
                &&& s.read_from_beginning == file.read_from_beginning
                &&& s.glob_interval_ms == millis(file.glob_interval_secs)
                &&& match file.host {
                    Some(host) => s.host@ == host@,
                    None => is_host_name(s.host@),
                }
            },
        }
    }

    /// Puts together what is collected from. `pod_name` is the own pod's name where
    /// the environment gives one.
    pub fn build_source(&self, pod_name: Option<String>) -> (r: Result<FileSource, Error>)
        requires
            self.wf(),
        ensures
            r is Ok <==> self.source_fault() is None,
            r matches Ok(s) ==> self.is_source(&s, pod_name),
            r matches Err(e) ==> self.source_fault() == Some(e@),
    {
        let chain = match self.build_parser() {
            Ok(parser) => parser,
            Err(e) => {
                return Err(e);
            },
        };
        let parser = BoxedParser { inner: Box::new(chain) };
        let fields = duplicate_fields(&self.fields);
        match &self.source {
            SourceConfig::Kubernetes(k8s) => {
                let mut selector = match build_selector(k8s) {
                    Ok(selector) => selector,
                    Err(e) => {
                        return Err(e);
                    },
                };
                if k8s.exclude_self {
                    let own = match &pod_name {
                        Some(name) => Some(name.clone()),
                        None => None,
                    };
                    selector = selector.exclude_self(own);
                }
                let mut source = FileSource::kubernetes_in(
                    k8s.log_dir.as_str(),
                    pod_name,
                ).pod_selector(selector).parser(parser).read_from_beginning(
                    k8s.read_from_beginning,
                ).glob_interval(to_millis(k8s.glob_interval_secs));
                if let Some(dir) = &k8s.data_dir {
                    source = source.data_dir(dir.clone());
                }
                if let Some(host) = &k8s.host {
                    source = source.host(host.clone());
                }
                Ok(source.fields(fields))
            },
            SourceConfig::File(file) => {
                if file.include_paths.len() == 0 {
                    return Err(Error::config("source.include 不能为空"));
                }
                let mut source = FileSource::new(duplicate_texts(&file.include_paths)).exclude(
                    duplicate_texts(&file.exclude),
                ).parser(parser).container_format(file.container_format).read_from_beginning(
                    file.read_from_beginning,
                ).glob_interval(to_millis(file.glob_interval_secs));
                if let Some(dir) = &file.data_dir {
                    source = source.data_dir(dir.clone());
                }
                if let Some(host) = &file.host {
                    source = source.host(host.clone());
                }
                Ok(source.fields(fields))
            },
        }
    }

    /// Whether the parts can be put together.
    pub fn check(&self, pod_name: Option<String>) -> (r: Result<(), Error>)
        requires
            self.wf(),
        ensures
            r is Ok <==> self.source_fault() is None,
            r matches Err(e) ==> self.source_fault() == Some(e@),
    {
        match self.build_source(pod_name) {
            Ok(_) => {},
            Err(e) => {
                return Err(e);
            },
        }
        match &self.sink {
            SinkConfig::Clickhouse { .. } => match self.build_clickhouse() {
                Ok(_) => Ok(()),
                Err(e) => Err(e),
            },
            SinkConfig::Console { .. } => Ok(()),
        }
    }

    /// Where offsets are stored.
    pub fn data_dir(&self) -> (r: Option<&str>)
        ensures
            opt_view(r) == self.source.stores_in(),
    {
        match &self.source {
            SourceConfig::Kubernetes(k8s) => match &k8s.data_dir {
                Some(dir) => Some(dir.as_str()),
                None => None,
            },
            SourceConfig::File(file) => match &file.data_dir {
                Some(dir) => Some(dir.as_str()),
                None => None,
            },
        }
    }

    /// Whether settings are the ones that this configuration asks for. A batch is
    /// tried at least once, and at least one may wait.
    pub open spec fn is_plan(&self, plan: &Plan) -> bool {
        &&& plan.batch.max_events == self.batch.max_events
        &&& plan.batch.max_bytes == self.batch.max_bytes
        &&& plan.batch.timeout_ms == millis(self.batch.timeout_secs)
        &&& plan.retry.max_attempts == if self.retry.max_attempts < 1 {
            1
        } else {
            self.retry.max_attempts
        }
        &&& plan.retry.initial_backoff_ms == self.retry.initial_backoff_ms
        &&& plan.retry.max_backoff_ms == millis(self.retry.max_backoff_secs)
        &&& plan.buffer == if self.pipeline.buffer < 1 {
            1
        } else {
            self.pipeline.buffer
        }
        &&& plan.max_inflight_bytes == 67_108_864
        &&& plan.require_healthy == self.pipeline.require_healthy
        &&& plan.on_error == match self.pipeline.on_error {
            OnErrorSetting::Stop => OnError::Stop,
            OnErrorSetting::Drop => OnError::Drop,
        }
    }

    /// Puts all of it together.
    pub fn build(&self, pod_name: Option<String>) -> (r: Result<Assembly, Error>)
        requires
            self.wf(),
        ensures
            r is Ok <==> self.source_fault() is None,
            r matches Ok(a) ==> self.is_source(&a.source, pod_name) && self.is_sink(&a.sink)
                && self.is_plan(&a.plan),
            r matches Err(e) ==> self.source_fault() == Some(e@),
    {
        let source = match self.build_source(pod_name) {
            Ok(source) => source,
            Err(e) => {
                return Err(e);
            },
        };
        let batch = BatchConfig::default().max_events(self.batch.max_events).max_bytes(
            self.batch.max_bytes,
        ).timeout(to_millis(self.batch.timeout_secs));
        let retry = RetryConfig {
            max_attempts: if self.retry.max_attempts < 1 {
                1
            } else {
                self.retry.max_attempts
            },
            initial_backoff_ms: self.retry.initial_backoff_ms,
            max_backoff_ms: to_millis(self.retry.max_backoff_secs),
        };
        let on_error = match self.pipeline.on_error {
            OnErrorSetting::Stop => OnError::Stop,
            OnErrorSetting::Drop => OnError::Drop,
        };
        let builder = PipelineBuilder::new().batch(batch).retry(retry).buffer(
            self.pipeline.buffer,
        ).require_healthy(self.pipeline.require_healthy).on_error(on_error);
        let sink = match self.build_sink() {
            Ok(sink) => sink,
            Err(e) => {
                return Err(e);
            },
        };
        match builder.build(true, true) {
            Ok(plan) => Ok(Assembly { source, sink, plan }),
            Err(e) => Err(e),
        }
    }

    /// Whether what events go to is what this configuration asks for.
    pub open spec fn is_sink(&self, plan: &SinkPlan) -> bool {
        match (self.sink, *plan) {
            (SinkConfig::Clickhouse { .. }, SinkPlan::Clickhouse(sink)) => self.is_clickhouse(
                &sink,
            ),
            (SinkConfig::Console { encoding, stderr }, SinkPlan::Console(sink)) => {
                &&& sink.stderr == stderr
                &&& sink.encoding == match encoding {
                    ConsoleEncoding::Json => Encoding::Json,
                    ConsoleEncoding::Text => Encoding::Text,
                }
            },
            _ => false,
        }
    }

    /// Puts together what events go to.
    pub fn build_sink(&self) -> (r: Result<SinkPlan, Error>)
        ensures
            r matches Ok(plan) && self.is_sink(&plan),
    {
        match &self.sink {
            SinkConfig::Clickhouse { .. } => match self.build_clickhouse() {
                Ok(sink) => Ok(SinkPlan::Clickhouse(sink)),
                Err(e) => Err(e),
            },
            SinkConfig::Console { encoding, stderr } => {
                let sink = ConsoleSink::new(
                    match encoding {
                        ConsoleEncoding::Json => Encoding::Json,
                        ConsoleEncoding::Text => Encoding::Text,
                    },
                );
                if *stderr {
                    Ok(SinkPlan::Console(sink.stderr()))
                } else {
                    Ok(SinkPlan::Console(sink))
                }
            },
        }
    }
}

fn has_logback(formats: &Vec<LogFormat>) -> (r: bool)
    ensures
        r == formats@.contains(LogFormat::Logback),
{
    for i in 0..formats.len()
        invariant
            forall|k: int| 0 <= k < i ==> #[trigger] formats@[k] != LogFormat::Logback,
    {
        if formats[i] == LogFormat::Logback {
            return true;
        }
    }
    false
}

} // verus!
