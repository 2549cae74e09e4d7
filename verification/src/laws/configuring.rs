//! What a configuration has to say, what is refused, and what is as usual.

use vstd::prelude::*;

use crate::batch::{BatchConfig, RetryConfig};
use crate::config::{default_buffer, default_initial_backoff_ms, default_max_bytes};
use crate::config::{default_max_events, default_pod_log_dir, five, one, section_error, ten, thirty};
use crate::config::{yes, BatchSettings, Config, ConsoleEncoding, KeyView, OnErrorSetting};
use crate::config::{ParserConfig, PipelineSettings, RetrySettings, SectionStep, Sections};
use crate::config::{first_unknown, key_name, keys_view, section_fault, section_names, section_step};
use crate::config::{sections_fault, SourceConfig, YamlKey, YamlRoot};
use crate::error::{Error, ErrorView};
use crate::map::StrMap;
use crate::parser::chain::{formats_fault, BoxedParser, LogFormat};
use crate::parser::cri::ContainerFormat;
use crate::pipeline::{OnError, PipelineBuilder};
use crate::sink::console::{ConsoleSink, Encoding};
use crate::source::file::FileSource;
use crate::source::k8s::{patterns_fault, PodSelector};
use crate::text::{holds_part, opt_view, texts_view};
use crate::value::Value;

verus! {

/// Whether this is a section's name.
pub open spec fn is_section(name: Seq<char>) -> bool {
    name == "source"@ || name == "parser"@ || name == "sink"@ || name == "batch"@ || name
        == "retry"@ || name == "pipeline"@ || name == "fields"@
}

/// Whether a key is called like a section.
pub open spec fn is_known(key: YamlKey) -> bool {
    key.text matches Some(text) && is_section(text@)
}

/// A document has to be keys and values, and each key has to be a section's name: a slip of
/// the pen is not passed over. The error tells the first key that is not known.
pub proof fn law_unknown_keys_are_refused(
    document: Result<YamlRoot, String>,
    r: Result<Sections, Error>,
)
    requires
        call_ensures(Sections::of_root, (document,), r),
    ensures
        r matches Err(e) ==> e@ is Config,
        match document {
            Ok(YamlRoot::Mapping(keys)) => {
                &&& r is Ok <==> forall|i: int|
                    0 <= i < keys@.len() ==> is_known(#[trigger] keys@[i])
                &&& r matches Err(e) ==> exists|i: int|
                    {
                        &&& 0 <= i < keys@.len()
                        &&& !is_known(#[trigger] keys@[i])
                        &&& forall|k: int| 0 <= k < i ==> is_known(#[trigger] keys@[k])
                        &&& ("未知的配置项 `"@ + match keys@[i].text {
                            Some(text) => text@,
                            None => Seq::empty(),
                        } + "`"@).is_prefix_of(e@->Config_0)
                    }
            },
            _ => r is Err,
        },
{
    if let Ok(YamlRoot::Mapping(keys)) = document {
        let views = keys_view(keys@);
        lemma_unknown(keys@, 0);
        assert(views.skip(0) =~= views);
        reveal_strlit("`；可用的有: ");
        reveal_strlit("`");
        assert("`；可用的有: "@[0] == "`"@[0]);
        if let Err(e) = r {
            let name = first_unknown(views)->0;
            let i = choose|i: int|
                {
                    &&& 0 <= i < keys@.len()
                    &&& !is_known(#[trigger] keys@[i])
                    &&& forall|k: int| 0 <= k < i ==> is_known(#[trigger] keys@[k])
                    &&& name == key_name(keys@[i]@)
                };
            assert(name == match keys@[i].text {
                Some(text) => text@,
                None => Seq::empty(),
            });
            let front = "未知的配置项 `"@ + name;
            assert((front + "`"@).is_prefix_of(e@->Config_0));
        }
    }
}

proof fn lemma_section(name: Seq<char>)
    ensures
        section_names().contains(name) <==> is_section(name),
{
    let names = section_names();
    assert(names.len() == 7);
    if is_section(name) {
        assert(names[0] == "source"@ && names[1] == "parser"@ && names[2] == "sink"@);
        assert(names[3] == "batch"@ && names[4] == "retry"@ && names[5] == "pipeline"@);
        assert(names[6] == "fields"@);
    }
}

proof fn lemma_unknown(keys: Seq<YamlKey>, n: int)
    requires
        0 <= n <= keys.len(),
    ensures
        ({
            let left = keys_view(keys).skip(n);
            &&& first_unknown(left) is None <==> forall|i: int|
                n <= i < keys.len() ==> is_known(#[trigger] keys[i])
            &&& first_unknown(left) matches Some(name) ==> exists|i: int|
                {
                    &&& n <= i < keys.len()
                    &&& !is_known(#[trigger] keys[i])
                    &&& forall|k: int| n <= k < i ==> is_known(#[trigger] keys[k])
                    &&& name == key_name(keys[i]@)
                }
        }),
    decreases keys.len() - n,
{
    let views = keys_view(keys);
    if n < keys.len() {
        lemma_unknown(keys, n + 1);
        assert(views.skip(n).drop_first() =~= views.skip(n + 1));
        assert(views.skip(n)[0] == keys[n]@);
        lemma_section(key_name(keys[n]@));
        reveal_strlit("source");
        reveal_strlit("parser");
        reveal_strlit("sink");
        reveal_strlit("batch");
        reveal_strlit("retry");
        reveal_strlit("pipeline");
        reveal_strlit("fields");
        if keys[n].text is None {
            assert(key_name(keys[n]@).len() == 0);
        }
        assert(is_known(keys[n]) <==> is_section(key_name(keys[n]@)));
        if is_known(keys[n]) {
            if let Some(name) = first_unknown(views.skip(n + 1)) {
                let i = choose|i: int|
                    {
                        &&& n + 1 <= i < keys.len()
                        &&& !is_known(#[trigger] keys[i])
                        &&& forall|k: int| n + 1 <= k < i ==> is_known(#[trigger] keys[k])
                        &&& name == key_name(keys[i]@)
                    };
                assert(!is_known(keys[i]));
                assert forall|k: int| n <= k < i implies is_known(#[trigger] keys[k]) by {
                    if k > n {
                    }
                }
            }
        } else {
            assert(!is_known(keys[n]));
        }
    }
}

/// Whether the first key of a name is this one.
pub open spec fn is_first_named(keys: Seq<KeyView>, k: int, name: Seq<char>) -> bool {
    &&& 0 <= k < keys.len()
    &&& keys[k].text == Some(name) && !keys[k].tagged
    &&& forall|j: int|
        0 <= j < k ==> (#[trigger] keys[j]).text != Some(name) || keys[j].tagged
}

/// Whether no key has a name.
pub open spec fn is_not_named(keys: Seq<KeyView>, name: Seq<char>) -> bool {
    forall|j: int|
        0 <= j < keys.len() ==> (#[trigger] keys[j]).text != Some(name) || keys[j].tagged
}

/// The names of the sections in the order in which they are read.
pub open spec fn is_name_of(name: Seq<char>, i: int) -> bool {
    ||| i == 0 && name == "source"@
    ||| i == 1 && name == "parser"@
    ||| i == 2 && name == "sink"@
    ||| i == 3 && name == "batch"@
    ||| i == 4 && name == "retry"@
    ||| i == 5 && name == "pipeline"@
    ||| i == 6 && name == "fields"@
}

/// A source and a sink have to be there; any other section may be missing or empty, and all
/// of it is as usual then. What is there is read.
pub proof fn law_sections_are_read_or_as_usual(
    s: &Sections,
    i: usize,
    name: Seq<char>,
    k: int,
    r: SectionStep,
)
    requires
        is_name_of(name, i as int),
        call_ensures(Sections::step, (s, i), r),
    ensures
        is_first_named(s@, k, name) ==> r == if s@[k].empty && name != "source"@ && name
            != "sink"@ {
            SectionStep::Default
        } else {
            SectionStep::Read
        },
        is_not_named(s@, name) ==> r == if name == "source"@ || name == "sink"@ {
            SectionStep::Missing
        } else {
            SectionStep::Default
        },
{
    assert(section_names()[i as int] == name);
    reveal_strlit("source");
    reveal_strlit("parser");
    reveal_strlit("sink");
    reveal_strlit("batch");
    reveal_strlit("retry");
    reveal_strlit("pipeline");
    reveal_strlit("fields");
    if i == 3 {
        assert("batch"@[0] != "sink"@[0]);
    }
    assert("source"@.len() == 6 && "sink"@.len() == 4 && "parser"@.len() == 6);
    assert("source"@[0] == 's' && "parser"@[0] == 'p' && "fields"@[0] == 'f');
    assert("batch"@.len() == 5 && "retry"@.len() == 5 && "pipeline"@.len() == 8);
    assert(s@.skip(0) =~= s@);
    if is_first_named(s@, k, name) {
        lemma_named(s@, 0, k, name);
    }
    if is_not_named(s@, name) {
        lemma_not_named(s@, 0, name);
    }
}

proof fn lemma_named(keys: Seq<KeyView>, n: int, k: int, name: Seq<char>)
    requires
        0 <= n <= k,
        is_first_named(keys, k, name),
    ensures
        Sections::state(keys.skip(n), name) == Some(keys[k].empty),
    decreases k - n,
{
    assert(keys.skip(n)[0] == keys[n]);
    if n < k {
        assert(keys.skip(n).drop_first() =~= keys.skip(n + 1));
        lemma_named(keys, n + 1, k, name);
    }
}

proof fn lemma_not_named(keys: Seq<KeyView>, n: int, name: Seq<char>)
    requires
        0 <= n <= keys.len(),
        is_not_named(keys, name),
    ensures
        Sections::state(keys.skip(n), name) is None,
    decreases keys.len() - n,
{
    if n < keys.len() {
        assert(keys.skip(n)[0] == keys[n]);
        assert(keys.skip(n).drop_first() =~= keys.skip(n + 1));
        lemma_not_named(keys, n + 1, name);
    }
}

/// Whether a section is in order: it is not missing, and if it is to be read, it could be.
pub open spec fn is_in_order(step: SectionStep, failure: Option<String>) -> bool {
    !(step is Missing) && (step is Read ==> failure is None)
}

/// A configuration is in order if each section is; else the first that is not counts, and the
/// error names it.
pub proof fn law_the_first_fault_counts(
    s: &Sections,
    failures: &Vec<Option<String>>,
    steps: Seq<SectionStep>,
    r: Result<(), Error>,
    k: int,
    name: &str,
    message: &str,
    told: Error,
)
    requires
        failures@.len() == 7,
        steps.len() == 7,
        forall|i: int|
            0 <= i < 7 ==> call_ensures(Sections::step, (s, i as usize), #[trigger] steps[i]),
        call_ensures(Sections::settle, (s, failures), r),
        is_name_of(name@, k),
        call_ensures(section_error, (name, message), told),
    ensures
        r is Ok <==> forall|i: int|
            0 <= i < 7 ==> is_in_order(#[trigger] steps[i], failures@[i]),
        !is_in_order(steps[k], failures@[k]) && (forall|i: int|
            0 <= i < k ==> is_in_order(#[trigger] steps[i], failures@[i])) ==> {
            &&& r is Err
            &&& steps[k] is Missing ==> r->Err_0@ == ErrorView::Config(
                "缺少 `"@ + name@ + "` 配置"@,
            )
            &&& steps[k] is Read && failures@[k]->0@ == message@ ==> r->Err_0@ == told@
        },
{
    assert forall|i: int| 0 <= i < 7 implies #[trigger] steps[i] == section_step(
        s@,
        i,
    ) by {
        assert(call_ensures(Sections::step, (s, i as usize), steps[i]));
    }
    lemma_faults(s@, failures@, steps, 0, k);
    assert(section_names()[k] == name@);
}

proof fn lemma_faults(
    keys: Seq<KeyView>,
    failures: Seq<Option<String>>,
    steps: Seq<SectionStep>,
    n: int,
    k: int,
)
    requires
        failures.len() == 7,
        steps.len() == 7,
        0 <= n <= 7,
        0 <= k < 7,
        forall|i: int|
            0 <= i < 7 ==> #[trigger] steps[i] == section_step(keys, i),
    ensures
        sections_fault(keys, failures, n) is None <==> forall|i: int|
            n <= i < 7 ==> is_in_order(#[trigger] steps[i], failures[i]),
        n <= k && !is_in_order(steps[k], failures[k]) && (forall|i: int|
            n <= i < k ==> is_in_order(#[trigger] steps[i], failures[i])) ==> {
            &&& steps[k] is Missing ==> sections_fault(keys, failures, n) == Some(
                ErrorView::Config("缺少 `"@ + section_names()[k] + "` 配置"@),
            )
            &&& steps[k] is Read ==> sections_fault(keys, failures, n) == Some(
                section_fault(section_names()[k], failures[k]->0@),
            )
        },
    decreases 7 - n,
{
    if n < 7 {
        lemma_faults(keys, failures, steps, n + 1, k);
        assert(steps[n] == section_step(keys, n));
        if is_in_order(steps[n], failures[n]) {
            assert forall|i: int| n <= i < 7 && (forall|j: int|
                n + 1 <= j < 7 ==> is_in_order(#[trigger] steps[j], failures[j])) implies is_in_order(
                #[trigger] steps[i],
                failures[i],
            ) by {
                if i > n {
                }
            }
        }
    }
}

/// The error of a section says which one it is and what is wrong; of a source or a sink with
/// a field that is not known it says more, and of no other.
pub proof fn law_errors_name_their_section(
    name: &str,
    message: &str,
    r: Error,
    before: Seq<char>,
    after: Seq<char>,
)
    requires
        call_ensures(section_error, (name, message), r),
    ensures
        r@ is Config,
        ("`"@ + name@ + "` 配置有问题: "@ + message@).is_prefix_of(r@->Config_0),
        name@ != "source"@ && name@ != "sink"@ ==> r@->Config_0 == "`"@ + name@
            + "` 配置有问题: "@ + message@,
        (name@ == "source"@ || name@ == "sink"@) && message@ == before + "unknown field"@ + after
            ==> r@->Config_0 == "`"@ + name@ + "` 配置有问题: "@ + message@ + "；请检查 "@ + name@
            + ".type 和下面的字段是否匹配"@,
{
    let plain = "`"@ + name@ + "` 配置有问题: "@ + message@;
    assert(plain + Seq::<char>::empty() =~= plain);
    if message@ == before + "unknown field"@ + after {
        lemma_holds(before, "unknown field"@, after);
        assert(r@->Config_0 =~= plain + "；请检查 "@ + name@ + ".type 和下面的字段是否匹配"@
            || !(name@ == "source"@ || name@ == "sink"@));
    }
}

proof fn lemma_holds(before: Seq<char>, part: Seq<char>, after: Seq<char>)
    ensures
        holds_part(before + part + after, part),
    decreases before.len(),
{
    let s = before + part + after;
    if before.len() == 0 {
        assert(s =~= part + after);
        assert(part.is_prefix_of(s));
    } else {
        lemma_holds(before.drop_first(), part, after);
        assert(s.drop_first() =~= before.drop_first() + part + after);
    }
}

/// Files have to be named; a pattern is of no use without the Java format, which is used where
/// no format is given. Where neither is the matter and no pattern is given, files can be
/// collected from. A look at a configuration finds what putting it together would.
pub proof fn law_useless_settings_are_refused(
    c: &Config,
    pod: Option<String>,
    checked: Result<(), Error>,
    built: Result<FileSource, Error>,
    formats: Vec<LogFormat>,
    dir: Option<&str>,
    names: bool,
)
    requires
        c.wf(),
        call_ensures(Config::check, (c, pod), checked),
        call_ensures(Config::build_source, (c, pod), built),
        call_ensures(Config::formats, (c,), formats),
        call_ensures(Config::data_dir, (c,), dir),
        call_ensures(SourceConfig::emits_pod_metadata, (&c.source,), names),
    ensures
        checked is Ok <==> built is Ok,
        checked matches Err(e) ==> e@ == built->Err_0@,
        c.parser.formats@.len() == 0 ==> formats@ == seq![LogFormat::Logback],
        c.parser.formats@.len() > 0 ==> formats@ == c.parser.formats@,
        c.parser.pattern is Some && c.parser.formats@.len() > 0 && (forall|i: int|
            0 <= i < c.parser.formats@.len() ==> #[trigger] c.parser.formats@[i]
                != LogFormat::Logback) ==> checked is Err && checked->Err_0@ is Config,
        match c.source {
            SourceConfig::File(file) => {
                &&& file.include_paths@.len() == 0 ==> checked is Err
                &&& file.include_paths@.len() > 0 && c.parser.pattern is None ==> checked is Ok
                &&& names <==> file.container_format is Cri
                &&& file.data_dir is None ==> dir is None
                &&& file.data_dir is Some ==> dir is Some && dir->0@ == file.data_dir->0@
            },
            SourceConfig::Kubernetes(k) => {
                &&& names
                &&& k.data_dir is None ==> dir is None
                &&& k.data_dir is Some ==> dir is Some && dir->0@ == k.data_dir->0@
            },
        },
{
    assert(opt_view(dir) is Some <==> dir is Some);
    if c.parser.pattern is None {
        lemma_no_fault(c.used_formats());
    }
}

proof fn lemma_no_fault(formats: Seq<LogFormat>)
    ensures
        formats_fault(formats, None) is None,
    decreases formats.len(),
{
    if formats.len() > 0 {
        lemma_no_fault(formats.drop_first());
    }
}

/// Collecting from containers leaves out the own pod, as far as its name is a pattern; nothing
/// else of a selection changes by that.
pub proof fn law_the_own_pod_is_left_out(
    s: PodSelector,
    name: String,
    own: PodSelector,
    other: PodSelector,
    list: Vec<String>,
    valid: Result<PodSelector, Error>,
)
    requires
        name@.len() > 0,
        call_ensures(PodSelector::exclude_self, (s, Some(name)), own),
        list@.len() == 1,
        list@[0]@ == name@,
        call_ensures(PodSelector::exclude_pods, (other, list), valid),
    ensures
        valid is Ok ==> own@.exclude_pods == s@.exclude_pods.push(name@),
        valid is Err ==> own@.exclude_pods == s@.exclude_pods,
        own@.namespaces == s@.namespaces && own@.exclude_namespaces == s@.exclude_namespaces,
        own@.pods == s@.pods,
        own@.containers == s@.containers && own@.exclude_containers == s@.exclude_containers,
{
    let texts = texts_view(list@);
    assert(texts =~= seq![name@]);
    assert(texts.drop_first() =~= Seq::<Seq<char>>::empty());
    reveal_with_fuel(patterns_fault, 3);
}

/// Containers are collected from where the kubelet puts their logs, rotated ones too, out of
/// their shell, and from what is new when it starts first.
pub proof fn law_containers_have_the_usual_settings(
    dir: &str,
    pod: Option<String>,
    s: FileSource,
    usual: FileSource,
    all: PodSelector,
)
    requires
        call_ensures(FileSource::kubernetes_in, (dir, pod), s),
        call_ensures(FileSource::kubernetes, (pod,), usual),
        call_ensures(PodSelector::new, (), all),
    ensures
        s.includes@.len() == 1 && s.includes@[0]@ == dir@ + "/*/*/*.log*"@,
        usual.includes@.len() == 1 && usual.includes@[0]@ == "/var/log/pods"@ + "/*/*/*.log*"@,
        s.excludes@.len() == 0 && s.container_format is Cri && !s.read_from_beginning,
        s.pod_selector is Some && s.data_dir is None && s.service_name_label is None,
        pod is Some && pod->0@.len() > 0 ==> s.pod_selector->0@.namespaces.len() == 0
            && s.pod_selector->0@.exclude_namespaces.len() == 0
            && s.pod_selector->0@.pods.len() == 0 && s.pod_selector->0@.containers.len() == 0
            && s.pod_selector->0@.exclude_containers.len() == 0
            && s.pod_selector->0@.exclude_pods.len() <= 1,
        s.glob_interval_ms == 10_000 && s.read_interval_ms == 500,
        s.checkpoint_interval_ms == 5_000 && s.idle_flush_ms == 2_000,
        s.max_line_bytes == 1_048_576 && s.batch_lines == 1_000,
        all@.namespaces.len() == 0 && all@.exclude_namespaces.len() == 0 && all@.pods.len() == 0,
        all@.exclude_pods.len() == 0 && all@.containers.len() == 0
            && all@.exclude_containers.len() == 0,
{
    assert(texts_view(s.includes@).len() == s.includes@.len());
    assert(texts_view(s.includes@)[0] == s.includes@[0]@);
    assert(texts_view(usual.includes@).len() == usual.includes@.len());
    assert(texts_view(usual.includes@)[0] == usual.includes@[0]@);
}

/// Each setting of a source goes where it belongs, and changes no other.
pub proof fn law_source_settings_go_where_they_belong(
    s: FileSource,
    list: Vec<String>,
    text: String,
    ms: u64,
    yes: bool,
    format: ContainerFormat,
    fields: StrMap<Value>,
    parser: BoxedParser,
    line: Seq<char>,
    a: FileSource,
    b: FileSource,
    c: FileSource,
    d: FileSource,
    e: FileSource,
    f: FileSource,
    g: FileSource,
    h: FileSource,
    i: FileSource,
    j: FileSource,
    k: FileSource,
    empty: Result<(), Error>,
)
    requires
        call_ensures(FileSource::exclude, (s, list), a),
        call_ensures(FileSource::data_dir, (s, text), b),
        call_ensures(FileSource::host, (s, text), c),
        call_ensures(FileSource::service_name_label, (s, text), d),
        call_ensures(FileSource::glob_interval, (s, ms), e),
        call_ensures(FileSource::checkpoint_interval, (s, ms), f),
        call_ensures(FileSource::read_interval, (s, ms), g),
        call_ensures(FileSource::idle_flush, (s, ms), h),
        call_ensures(FileSource::read_from_beginning, (s, yes), i),
        call_ensures(FileSource::container_format, (s, format), j),
        call_ensures(FileSource::fields, (s, fields), k),
        call_ensures(FileSource::check_includes, (&s,), empty),
    ensures
        a.excludes == list && a.includes == s.includes && a.data_dir == s.data_dir,
        b.data_dir == Some(text) && b.includes == s.includes && b.host == s.host,
        c.host@ == text@ && c.data_dir == s.data_dir,
        text@.len() > 0 ==> d.service_name_label == Some(text),
        text@.len() == 0 ==> d.service_name_label is None,
        e.glob_interval_ms == ms && e.read_interval_ms == s.read_interval_ms,
        e.checkpoint_interval_ms == s.checkpoint_interval_ms && e.idle_flush_ms == s.idle_flush_ms,
        f.checkpoint_interval_ms == ms && f.glob_interval_ms == s.glob_interval_ms,
        g.read_interval_ms == ms && g.glob_interval_ms == s.glob_interval_ms,
        h.idle_flush_ms == ms && h.read_interval_ms == s.read_interval_ms,
        i.read_from_beginning == yes && i.container_format == s.container_format,
        j.container_format == format && j.read_from_beginning == s.read_from_beginning,
        k.fields == fields && k.host == s.host,
        empty is Ok <==> s.includes@.len() > 0,
{
}

/// Each setting of a pipeline goes where it belongs, and changes no other; at least one batch
/// may wait.
pub proof fn law_pipeline_settings_go_where_they_belong(
    p: PipelineBuilder,
    batch: BatchConfig,
    retry: RetryConfig,
    n: usize,
    ms: u64,
    yes: bool,
    on_error: OnError,
    a: PipelineBuilder,
    b: PipelineBuilder,
    c: PipelineBuilder,
    d: PipelineBuilder,
    e: PipelineBuilder,
    f: PipelineBuilder,
    x: BatchConfig,
    y: BatchConfig,
    z: BatchConfig,
)
    requires
        call_ensures(PipelineBuilder::batch, (p, batch), a),
        call_ensures(PipelineBuilder::retry, (p, retry), b),
        call_ensures(PipelineBuilder::buffer, (p, n), c),
        call_ensures(PipelineBuilder::max_inflight_bytes, (p, n), d),
        call_ensures(PipelineBuilder::require_healthy, (p, yes), e),
        call_ensures(PipelineBuilder::on_error, (p, on_error), f),
        call_ensures(BatchConfig::max_events, (batch, n), x),
        call_ensures(BatchConfig::max_bytes, (batch, n), y),
        call_ensures(BatchConfig::timeout, (batch, ms), z),
    ensures
        a == (PipelineBuilder { batch: Some(batch), ..p }),
        b == (PipelineBuilder { retry: Some(retry), ..p }),
        n >= 1 ==> c == (PipelineBuilder { buffer: Some(n), ..p }),
        n == 0 ==> c == (PipelineBuilder { buffer: Some(1), ..p }),
        d == (PipelineBuilder { max_inflight_bytes: Some(n), ..p }),
        e == (PipelineBuilder { require_healthy: yes, ..p }),
        f == (PipelineBuilder { on_error: Some(on_error), ..p }),
        x == (BatchConfig { max_events: n, ..batch }),
        y == (BatchConfig { max_bytes: n, ..batch }),
        z == (BatchConfig { timeout_ms: ms, ..batch }),
{
}

/// What is not configured is as it is without a configuration: the settings of batches and of
/// attempts are those that a pipeline has by itself.
pub proof fn law_defaults_agree(
    batch: BatchSettings,
    retry: RetrySettings,
    pipeline: PipelineSettings,
    parser: ParserConfig,
    b: BatchConfig,
    a: RetryConfig,
    events: usize,
    bytes: usize,
    backoff: u64,
    buffer: usize,
    dir: String,
)
    requires
        call_ensures(BatchSettings::default, (), batch),
        call_ensures(RetrySettings::default, (), retry),
        call_ensures(PipelineSettings::default, (), pipeline),
        call_ensures(ParserConfig::default, (), parser),
        call_ensures(BatchConfig::default, (), b),
        call_ensures(RetryConfig::default, (), a),
        call_ensures(default_max_events, (), events),
        call_ensures(default_max_bytes, (), bytes),
        call_ensures(default_initial_backoff_ms, (), backoff),
        call_ensures(default_buffer, (), buffer),
        call_ensures(default_pod_log_dir, (), dir),
    ensures
        b == (BatchConfig { max_events: 10_000, max_bytes: 10_485_760, timeout_ms: 1_000 }),
        a == (RetryConfig { max_attempts: 5, initial_backoff_ms: 500, max_backoff_ms: 30_000 }),
        batch.max_events == b.max_events && batch.max_bytes == b.max_bytes,
        batch.timeout_secs * 1000 == b.timeout_ms,
        retry.max_attempts == a.max_attempts && retry.initial_backoff_ms == a.initial_backoff_ms,
        retry.max_backoff_secs * 1000 == a.max_backoff_ms,
        pipeline.buffer == 64 && !pipeline.require_healthy && pipeline.on_error is Stop,
        parser.formats@.len() == 0 && parser.pattern is None,
        events == b.max_events && bytes == b.max_bytes && backoff == a.initial_backoff_ms,
        buffer == pipeline.buffer && dir@ == "/var/log/pods"@,
{
}

/// Small settings that are not given: what is on is on, and numbers are what they are called.
pub proof fn law_small_defaults(
    on: bool,
    a: u64,
    b: usize,
    c: u64,
    d: u64,
    encoding: ConsoleEncoding,
    on_error: OnErrorSetting,
    sink: ConsoleSink,
    chosen: Encoding,
    plain: ConsoleSink,
    other: ConsoleSink,
)
    requires
        call_ensures(yes, (), on),
        call_ensures(one, (), a),
        call_ensures(five, (), b),
        call_ensures(ten, (), c),
        call_ensures(thirty, (), d),
        call_ensures(ConsoleEncoding::default, (), encoding),
        call_ensures(OnErrorSetting::default, (), on_error),
        call_ensures(ConsoleSink::default, (), sink),
        call_ensures(ConsoleSink::new, (chosen,), plain),
        call_ensures(ConsoleSink::stderr, (plain,), other),
    ensures
        on && a == 1 && b == 5 && c == 10 && d == 30,
        encoding is Json && on_error is Stop,
        sink.encoding is Json && !sink.stderr,
        plain.encoding == chosen && !plain.stderr,
        other.encoding == chosen && other.stderr,
{
}

} // verus!
