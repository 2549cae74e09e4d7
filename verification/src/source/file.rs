//! Collecting from files: what is asked for, and what that means for each file.
//!
//! * An offset moves on only when the data up to it is stored.
//! * A file that was cut off is read from its start.
//! * A file that was renamed is read to its end before it is let go.
//! * The lines of a stack trace are merged into one event.

use std::sync::Arc;

use vstd::prelude::*;
use vstd::string::*;

use crate::error::{Error, ErrorView};
use crate::event::field_views;
use crate::map::StrMap;
use crate::parser::api::Parser;
use crate::parser::chain::BoxedParser;
use crate::parser::cri::ContainerFormat;
use crate::parser::logback::{logback_reads, LogbackParser};
use crate::source::checkpoint::{holds_path, known_dir, renewed, restarted, Checkpointer};
use crate::source::discover::{is_void, selector_view, start_at, start_offset, tag, tagged_as, Found};
use crate::source::k8s::{hostname, is_host_name, leaves_out_self, pod_view, DEFAULT_POD_LOG_DIR};
use crate::source::k8s::{PodSelector, SelectorView};
use crate::source::path::{components, PathView, UnixPath};
use crate::source::tail::{begun, Watcher};
use crate::text::texts_view;
use crate::value::{Value, ValueView};

verus! {

/// How much is read at once.
pub const READ_CHUNK: usize = 65536;

/// How long to wait for receipts before the end, in milliseconds.
pub const COMMIT_WAIT_MS: u64 = 30_000;

/// Collects from files.
pub struct FileSource {
    /// Patterns of the files to collect from.
    pub includes: Vec<String>,
    /// Patterns of the files to leave out.
    pub excludes: Vec<String>,
    /// Where offsets are stored; they are kept in memory only otherwise.
    pub data_dir: Option<String>,
    pub parser: Arc<BoxedParser>,
    pub host: Arc<String>,
    pub container_format: ContainerFormat,
    pub pod_selector: Option<PodSelector>,
    /// The label of a pod that becomes `service_name`.
    pub service_name_label: Option<String>,
    pub read_from_beginning: bool,
    /// How often to look for new files, in milliseconds.
    pub glob_interval_ms: u64,
    /// How long to wait where there was nothing to read, in milliseconds.
    pub read_interval_ms: u64,
    /// How often to store offsets, in milliseconds.
    pub checkpoint_interval_ms: u64,
    /// How long the last event waits for more lines, in milliseconds.
    pub idle_flush_ms: u64,
    pub max_line_bytes: usize,
    pub batch_lines: usize,
    /// Fields that every event has.
    pub fields: StrMap<Value>,
}

/// Whom to ask for labels.
#[derive(Clone, Copy, Debug, PartialEq, Eq, Structural)]
pub enum LabelSource {
    /// No one: none is wanted.
    Nobody,
    /// The client that was given.
    Given,
    /// The API server of the cluster that this runs in.
    InCluster,
}

/// What a file is read with from when it is found.
pub struct Admission {
    pub watcher: Watcher<BoxedParser>,
    /// Whether the label of its pod is to be asked for.
    pub wants_label: bool,
}

impl FileSource {
    /// The fields are in order.
    pub open spec fn wf(&self) -> bool {
        self.fields.wf()
    }

    /// Collects from files whose paths match these patterns.
    pub fn new(includes: Vec<String>) -> (r: Self)
        ensures
            r.wf(),
            r.includes == includes,
            r.excludes@ == Seq::<String>::empty(),
            r.data_dir is None,
            forall|line: Seq<char>| #[trigger] r.parser.reads(line) == logback_reads(line),
            is_host_name(r.host@),
            r.container_format == ContainerFormat::Raw,
            r.pod_selector is None,
            r.service_name_label is None,
            r.read_from_beginning,
            r.glob_interval_ms == 10_000,
            r.read_interval_ms == 500,
            r.checkpoint_interval_ms == 5_000,
            r.idle_flush_ms == 2_000,
            r.max_line_bytes == 1_048_576,
            r.batch_lines == 1_000,
            r.fields@ == Map::<Seq<char>, Value>::empty(),
    {
        let parser = BoxedParser { inner: Box::new(LogbackParser) };
        FileSource {
            includes,
            excludes: Vec::new(),
            data_dir: None,
            parser: Arc::new(parser),
            host: Arc::new(hostname()),
            container_format: ContainerFormat::Raw,
            pod_selector: None,
            service_name_label: None,
            read_from_beginning: true,
            glob_interval_ms: 10_000,
            read_interval_ms: 500,
            checkpoint_interval_ms: 5_000,
            idle_flush_ms: 2_000,
            max_line_bytes: 1_048_576,
            batch_lines: 1_000,
            fields: StrMap::new(),
        }
    }

    /// Collects from all containers of this machine but its own: logs of the
    /// kubelet in their shell, and only what is new when it starts for the first
    /// time. `pod_name` is the own pod's name where the environment gives one.
    pub fn kubernetes(pod_name: Option<String>) -> (r: Self)
        ensures
            r.is_kubernetes(DEFAULT_POD_LOG_DIR@, pod_name),
    {
        Self::kubernetes_in(DEFAULT_POD_LOG_DIR, pod_name)
    }

    /// What collecting from containers is.
    pub open spec fn is_kubernetes(&self, log_dir: Seq<char>, pod_name: Option<String>) -> bool {
        &&& self.wf()
        &&& texts_view(self.includes@) == seq![log_dir + "/*/*/*.log*"@]
        &&& self.excludes@ == Seq::<String>::empty()
        &&& self.data_dir is None
        &&& forall|line: Seq<char>| #[trigger] self.parser.reads(line) == logback_reads(line)
        &&& is_host_name(self.host@)
        &&& self.container_format == ContainerFormat::Cri
        &&& self.pod_selector matches Some(selector) && leaves_out_self(
            SelectorView::empty(),
            pod_name,
            selector@,
        )
        &&& self.service_name_label is None
        &&& !self.read_from_beginning
        &&& self.glob_interval_ms == 10_000
        &&& self.read_interval_ms == 500
        &&& self.checkpoint_interval_ms == 5_000
        &&& self.idle_flush_ms == 2_000
        &&& self.max_line_bytes == 1_048_576
        &&& self.batch_lines == 1_000
        &&& self.fields@ == Map::<Seq<char>, Value>::empty()
    }

    /// The same, with the logs in another directory. What was rotated away while
    /// nothing ran is found by its ending `.log` and more.
    pub fn kubernetes_in(log_dir: &str, pod_name: Option<String>) -> (r: Self)
        ensures
            r.is_kubernetes(log_dir@, pod_name),
    {
        let mut pattern = log_dir.to_owned();
        pattern.append("/*/*/*.log*");
        let mut includes: Vec<String> = Vec::new();
        includes.push(pattern);
        let source = Self::new(includes).container_format(ContainerFormat::Cri).pod_selector(
            PodSelector::new().exclude_self(pod_name),
        ).read_from_beginning(false);
        proof {
            assert(texts_view(source.includes@) =~= seq![log_dir@ + "/*/*/*.log*"@]);
        }
        source
    }

    /// Sets which containers to collect from.
    pub fn pod_selector(self, selector: PodSelector) -> (r: Self)
        ensures
            r == (FileSource { pod_selector: Some(selector), ..self }),
    {
        let mut source = self;
        source.pod_selector = Some(selector);
        source
    }

    /// Sets the label of a pod that becomes `service_name`. An empty one is none.
    pub fn service_name_label(self, label: String) -> (r: Self)
        ensures
            r == (FileSource {
                service_name_label: if label@.len() == 0 {
                    None
                } else {
                    Some(label)
                },
                ..self
            }),
    {
        let mut source = self;
        source.service_name_label = if label.as_str().is_empty() {
            None
        } else {
            Some(label)
        };
        source
    }

    /// Sets the patterns of the files to leave out.
    pub fn exclude(self, excludes: Vec<String>) -> (r: Self)
        ensures
            r == (FileSource { excludes, ..self }),
    {
        let mut source = self;
        source.excludes = excludes;
        source
    }

    /// Sets where offsets are stored.
    pub fn data_dir(self, dir: String) -> (r: Self)
        ensures
            r == (FileSource { data_dir: Some(dir), ..self }),
    {
        let mut source = self;
        source.data_dir = Some(dir);
        source
    }

    /// Sets how lines are read.
    pub fn parser(self, parser: BoxedParser) -> (r: Self)
        ensures
            forall|line: Seq<char>| #[trigger] r.parser.reads(line) == parser.reads(line),
            r == (FileSource { parser: r.parser, ..self }),
    {
        let mut source = self;
        source.parser = Arc::new(parser);
        source
    }

    /// Sets the shell that lines are in.
    pub fn container_format(self, format: ContainerFormat) -> (r: Self)
        ensures
            r == (FileSource { container_format: format, ..self }),
    {
        let mut source = self;
        source.container_format = format;
        source
    }

    /// Sets whether files without an offset are read from their start.
    pub fn read_from_beginning(self, yes: bool) -> (r: Self)
        ensures
            r == (FileSource { read_from_beginning: yes, ..self }),
    {
        let mut source = self;
        source.read_from_beginning = yes;
        source
    }

    /// Sets how often to look for new files.
    pub fn glob_interval(self, interval_ms: u64) -> (r: Self)
        ensures
            r == (FileSource { glob_interval_ms: interval_ms, ..self }),
    {
        let mut source = self;
        source.glob_interval_ms = interval_ms;
        source
    }

    /// Sets how often to store offsets.
    pub fn checkpoint_interval(self, interval_ms: u64) -> (r: Self)
        ensures
            r == (FileSource { checkpoint_interval_ms: interval_ms, ..self }),
    {
        let mut source = self;
        source.checkpoint_interval_ms = interval_ms;
        source
    }

    /// Sets how long to wait where there was nothing to read.
    pub fn read_interval(self, interval_ms: u64) -> (r: Self)
        ensures
            r == (FileSource { read_interval_ms: interval_ms, ..self }),
    {
        let mut source = self;
        source.read_interval_ms = interval_ms;
        source
    }

    /// Sets how long the last event waits for more lines.
    pub fn idle_flush(self, idle_flush_ms: u64) -> (r: Self)
        ensures
            r == (FileSource { idle_flush_ms, ..self }),
    {
        let mut source = self;
        source.idle_flush_ms = idle_flush_ms;
        source
    }

    /// Sets the name of the host that events carry.
    pub fn host(self, host: String) -> (r: Self)
        ensures
            r.host@ == host@,
            r == (FileSource { host: r.host, ..self }),
    {
        let mut source = self;
        source.host = Arc::new(host);
        source
    }

    /// Sets the fields that every event has.
    pub fn fields(self, fields: StrMap<Value>) -> (r: Self)
        ensures
            r == (FileSource { fields, ..self }),
    {
        let mut source = self;
        source.fields = fields;
        source
    }

    /// Whether there is anything to collect from.
    pub fn check_includes(&self) -> (r: Result<(), Error>)
        ensures
            r is Ok <==> self.includes@.len() > 0,
            r matches Err(e) ==> e@ == ErrorView::Config(
                "FileSource 至少需要一个 include 路径"@,
            ),
    {
        if self.includes.len() == 0 {
            return Err(Error::config("FileSource 至少需要一个 include 路径"));
        }
        Ok(())
    }

    /// Whom to ask for labels: a client that was given, or else the API server of
    /// the cluster, where logs of containers are collected.
    pub fn label_source(&self, has_client: bool) -> (r: LabelSource)
        ensures
            r == (if self.service_name_label is None {
                LabelSource::Nobody
            } else if has_client {
                LabelSource::Given
            } else if self.container_format == ContainerFormat::Cri {
                LabelSource::InCluster
            } else {
                LabelSource::Nobody
            }),
    {
        if self.service_name_label.is_none() {
            return LabelSource::Nobody;
        }
        if has_client {
            return LabelSource::Given;
        }
        match self.container_format {
            ContainerFormat::Cri => LabelSource::InCluster,
            ContainerFormat::Raw => LabelSource::Nobody,
        }
    }

    /// The directories that files were collected from before; they count only
    /// when nothing else says that a file is to be read from its start.
    pub fn known_dirs(&self, first_pass: bool, checkpointer: &Checkpointer) -> (r: Vec<UnixPath>)
        ensures
            first_pass && !self.read_from_beginning ==> forall|p: PathView|
                #[trigger] holds_path(r@, p) <==> known_dir(
                    checkpointer@,
                    p,
                ),
            !(first_pass && !self.read_from_beginning) ==> r@ == Seq::<UnixPath>::empty(),
    {
        if first_pass && !self.read_from_beginning {
            checkpointer.dirs()
        } else {
            Vec::new()
        }
    }

    /// Settles what to do about a file that is not watched yet: from where to
    /// read it and what its events carry, or that it is not to be collected from.
    pub fn consider(
        &self,
        found: &Found,
        first_pass: bool,
        known: &Vec<UnixPath>,
        checkpointer: &mut Checkpointer,
    ) -> (r: Option<Admission>)
        requires
            self.wf(),
        ensures
            if is_void(old(checkpointer)@, found) {
                &&& final(checkpointer)@ == restarted(old(checkpointer)@, found.key@)
                &&& final(checkpointer).unsaved()
                &&& final(checkpointer).editions() == renewed(
                    old(checkpointer).editions(),
                    found.key@,
                )
            } else {
                *final(checkpointer) == *old(checkpointer)
            },
            ({
                let tags = tagged_as(
                    self.container_format,
                    selector_view(self.pod_selector),
                    field_views(self.fields@),
                    found.path@,
                );
                let start = start_at(
                    if old(checkpointer)@.dom().contains(found.key@) {
                        Some(old(checkpointer)@[found.key@].offset)
                    } else {
                        None
                    },
                    found.len,
                    self.read_from_beginning,
                    first_pass,
                    components(found.path@).parent() matches Some(dir) && holds_path(known@, dir),
                );
                match (r, tags) {
                    (Some(a), Some(tags)) => {
                        &&& a.watcher.wf()
                        &&& a.watcher.key@ == found.key@
                        &&& a.watcher.path@ == found.path@
                        &&& a.watcher.seen
                        &&& !a.watcher.at_eof
                        &&& a.watcher.pending_since is None
                        &&& pod_view(a.watcher.pod) == tags.pod
                        &&& a.watcher.origin().file == found.path@
                        &&& a.watcher.origin().host == self.host@
                        &&& a.watcher.origin().shared == if tags.shared == Map::<
                            Seq<char>,
                            ValueView,
                        >::empty() {
                            None
                        } else {
                            Some(tags.shared)
                        }
                        &&& a.watcher.tail() == begun(self.container_format.held(), start as int)
                        &&& forall|line: Seq<char>| #[trigger]
                            (a.watcher.aggregator.rules().reads)(line) == self.parser.reads(line)
                        &&& a.watcher.aggregator.rules().max_lines == 500
                        &&& a.watcher.aggregator.rules().max_bytes == 256 * 1024
                        &&& a.wants_label == (tags.pod is Some && self.service_name_label is Some)
                    },
                    (None, None) => true,
                    _ => false,
                }
            }),
    {
        let start: u64 = start_offset(
            found,
            self.read_from_beginning,
            first_pass,
            known,
            checkpointer,
        );
        let tags = match tag(
            self.container_format,
            &self.pod_selector,
            &self.fields,
            found.path.as_str(),
        ) {
            Some(tags) => tags,
            None => {
                return None;
            },
        };
        proof {
            lemma_views_empty(tags.shared@);
        }
        let wants_label = tags.pod.is_some() && self.service_name_label.is_some();
        let watcher = Watcher::new(
            found.key.clone(),
            tags.pod,
            found.path.clone(),
            start,
            self.parser.clone(),
            self.container_format,
            tags.shared,
            self.host.clone(),
        );
        Some(Admission { watcher, wants_label })
    }
}

proof fn lemma_views_empty(m: Map<Seq<char>, Value>)
    ensures
        m == Map::<Seq<char>, Value>::empty() <==> field_views(m) == Map::<
            Seq<char>,
            ValueView,
        >::empty(),
{
    if m == Map::<Seq<char>, Value>::empty() {
        assert(field_views(m) =~= Map::empty());
    }
    if field_views(m) == Map::<Seq<char>, ValueView>::empty() {
        assert(m.dom() =~= field_views(m).dom());
        assert(m =~= Map::empty());
    }
}

/// Whether a file is to be let go: the last scan did not find it, it was read to
/// its end, and a look at its path says that it is gone. The scan alone does not
/// count: a directory that cannot be read for a moment would have everything in
/// it read again.
pub fn is_finished(watcher: &Watcher<BoxedParser>, present: bool) -> (r: bool)
    ensures
        r == (!watcher.seen && watcher.at_eof && !present),
{
    !watcher.seen && watcher.at_eof && !present
}

} // verus!
