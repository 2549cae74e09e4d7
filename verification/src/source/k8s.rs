//! What is known of a container: its names from the path of its log, a label of
//! its pod from the API server.
//!
//! ```text
//! /var/log/pods/<namespace>_<pod>_<uid>/<container>/0.log
//! /var/log/containers/<pod>_<namespace>_<container>-<id>.log
//! ```

use vstd::prelude::*;
use vstd::string::*;

use crate::error::{Error, ErrorView};
use crate::source::path::{components, PathView, UnixPath};
use crate::text::{first_split, has_char, last_split, opt_string_view, rsplit_once};
use crate::text::{split_first, split_once, strip_suffix, suffix_stripped, texts_view, trim, trimmed};
use crate::text::{trim_end_char, trimmed_end_char};

verus! {

/// Where the kubelet puts the logs of containers.
pub const DEFAULT_POD_LOG_DIR: &'static str = "/var/log/pods";

/// The names of a container.
#[derive(Clone, Debug, PartialEq, Eq)]
pub struct PodMeta {
    pub namespace: String,
    pub pod: String,
    pub container: String,
}

/// What a [`PodMeta`] holds.
pub struct PodView {
    pub namespace: Seq<char>,
    pub pod: Seq<char>,
    pub container: Seq<char>,
}

impl PodMeta {
    pub open spec fn view(&self) -> PodView {
        PodView { namespace: self.namespace@, pod: self.pod@, container: self.container@ }
    }

    /// A copy with the same names.
    pub fn duplicate(&self) -> (r: PodMeta)
        ensures
            r@ == self@,
    {
        PodMeta {
            namespace: self.namespace.clone(),
            pod: self.pod.clone(),
            container: self.container.clone(),
        }
    }
}

/// What an optional [`PodMeta`] holds.
pub open spec fn pod_view(r: Option<PodMeta>) -> Option<PodView> {
    match r {
        Some(meta) => Some(meta@),
        None => None,
    }
}

/// The names in `<namespace>_<pod>_<uid>/<container>/<file>`. Neither a namespace
/// nor a pod's name has an underscore in it.
pub open spec fn pods_layout(path: PathView) -> Option<PodView> {
    match path.parent() {
        None => None,
        Some(container_dir) => match (container_dir.file_name(), container_dir.parent()) {
            (Some(container), Some(pod_dir)) => match pod_dir.file_name() {
                None => None,
                Some(name) => match first_split(name, '_') {
                    None => None,
                    Some((namespace, rest)) => match last_split(rest, '_') {
                        None => None,
                        Some((pod, uid)) => if namespace.len() == 0 || pod.len() == 0
                            || container.len() == 0 {
                            None
                        } else {
                            Some(PodView { namespace, pod, container })
                        },
                    },
                },
            },
            _ => None,
        },
    }
}

/// The names in `<pod>_<namespace>_<container>-<id>.log`.
pub open spec fn containers_layout(path: PathView) -> Option<PodView> {
    match path.file_name() {
        None => None,
        Some(name) => match suffix_stripped(name, ".log"@) {
            None => None,
            Some(stem) => match first_split(stem, '_') {
                None => None,
                Some((pod, rest)) => match first_split(rest, '_') {
                    None => None,
                    Some((namespace, rest)) => match last_split(rest, '-') {
                        None => None,
                        Some((container, id)) => if pod.len() == 0 || namespace.len() == 0
                            || container.len() == 0 || id.len() == 0 {
                            None
                        } else {
                            Some(PodView { namespace, pod, container })
                        },
                    },
                },
            },
        },
    }
}

/// The names in the path of a container's log.
pub open spec fn pod_of_path(path: Seq<char>) -> Option<PodView> {
    match pods_layout(components(path)) {
        Some(meta) => Some(meta),
        None => containers_layout(components(path)),
    }
}

/// Reads the names out of the path of a container's log.
pub fn parse_pod_path(path: &str) -> (r: Option<PodMeta>)
    ensures
        pod_view(r) == pod_of_path(path@),
{
    match parse_pods_layout(path) {
        Some(meta) => Some(meta),
        None => parse_containers_layout(path),
    }
}

fn parse_pods_layout(path: &str) -> (r: Option<PodMeta>)
    ensures
        pod_view(r) == pods_layout(components(path@)),
{
    let container_dir = UnixPath::new(path).parent()?;
    let container = container_dir.file_name()?.to_owned();
    let pod_dir = container_dir.parent()?;
    let name = pod_dir.file_name()?;
    let (namespace, rest) = split_once(name, '_')?;
    let (pod, _) = rsplit_once(rest, '_')?;
    if namespace.is_empty() || pod.is_empty() || container.as_str().is_empty() {
        return None;
    }
    Some(PodMeta { namespace: namespace.to_owned(), pod: pod.to_owned(), container })
}

fn parse_containers_layout(path: &str) -> (r: Option<PodMeta>)
    ensures
        pod_view(r) == containers_layout(components(path@)),
{
    let path = UnixPath::new(path);
    let stem = strip_suffix(path.file_name()?, ".log")?;
    let (pod, rest) = split_once(stem, '_')?;
    let (namespace, rest) = split_once(rest, '_')?;
    let (container, id) = rsplit_once(rest, '-')?;
    if pod.is_empty() || namespace.is_empty() || container.is_empty() || id.is_empty() {
        return None;
    }
    Some(
        PodMeta {
            namespace: namespace.to_owned(),
            pod: pod.to_owned(),
            container: container.to_owned(),
        },
    )
}

/// A compiled shell pattern.
#[verifier::external_type_specification]
#[verifier::external_body]
pub struct ExPattern(glob::Pattern);

/// The text that a shell pattern was compiled from, as `Pattern::as_str` gives
/// it.
pub uninterp spec fn glob_text(pattern: glob::Pattern) -> Seq<char>;

/// What `Pattern::new` has against a text, in words.
pub uninterp spec fn glob_error(text: Seq<char>) -> Option<Seq<char>>;

/// Whether a pattern matches a text.
pub uninterp spec fn glob_matches(pattern: Seq<char>, text: Seq<char>) -> bool;

/// Compiles a shell pattern.
///
/// `Pattern::new` depends on the text alone, and keeps it.
#[verifier::external_body]
pub(crate) fn compile_glob(text: &str) -> (r: Result<glob::Pattern, String>)
    ensures
        r matches Ok(pattern) ==> glob_text(pattern) == text@ && glob_error(text@) is None,
        r matches Err(e) ==> glob_error(text@) == Some(e@),
{
    glob::Pattern::new(text).map_err(|e| e.to_string())
}

/// Matches a text.
///
/// `Pattern::matches` depends on the pattern's text and the text alone.
#[verifier::external_body]
pub(crate) fn match_glob(pattern: &glob::Pattern, text: &str) -> (r: bool)
    ensures
        r == glob_matches(glob_text(*pattern), text@),
{
    pattern.matches(text)
}

/// The texts of a list of patterns.
pub open spec fn glob_texts(list: Seq<glob::Pattern>) -> Seq<Seq<char>> {
    list.map_values(|p: glob::Pattern| glob_text(p))
}

/// Whether one of a list of patterns matches.
pub open spec fn any_matches(patterns: Seq<Seq<char>>, text: Seq<char>) -> bool {
    exists|i: int| 0 <= i < patterns.len() && glob_matches(#[trigger] patterns[i], text)
}

/// Tells whether one of a list of patterns matches.
pub(crate) fn matches_any(patterns: &Vec<glob::Pattern>, text: &str) -> (r: bool)
    ensures
        r == any_matches(glob_texts(patterns@), text@),
{
    for i in 0..patterns.len()
        invariant
            forall|k: int|
                0 <= k < i ==> !glob_matches(#[trigger] glob_texts(patterns@)[k], text@),
    {
        if match_glob(&patterns[i], text) {
            proof {
                assert(glob_matches(glob_texts(patterns@)[i as int], text@));
            }
            return true;
        }
    }
    false
}

/// What is wrong with the first of a list of patterns that something is wrong
/// with.
pub open spec fn patterns_fault(values: Seq<Seq<char>>) -> Option<ErrorView>
    decreases values.len(),
{
    if values.len() == 0 {
        None
    } else {
        match glob_error(values[0]) {
            Some(e) => Some(ErrorView::Config("名字匹配式非法 "@ + values[0] + ": "@ + e)),
            None => patterns_fault(values.drop_first()),
        }
    }
}

/// Compiles a list of patterns.
fn patterns(values: &Vec<String>) -> (r: Result<Vec<glob::Pattern>, Error>)
    ensures
        r is Ok <==> patterns_fault(texts_view(values@)) is None,
        r matches Ok(list) ==> glob_texts(list@) == texts_view(values@),
        r matches Err(e) ==> patterns_fault(texts_view(values@)) == Some(e@),
{
    let mut out: Vec<glob::Pattern> = Vec::new();
    let ghost all = texts_view(values@);
    proof {
        assert(all.skip(0) =~= all);
    }
    for i in 0..values.len()
        invariant
            all == texts_view(values@),
            out@.len() == i,
            forall|k: int| 0 <= k < i ==> glob_text(#[trigger] out@[k]) == all[k],
            patterns_fault(all) == patterns_fault(all.skip(i as int)),
    {
        proof {
            assert(all.skip(i as int).drop_first() =~= all.skip(i + 1));
        }
        match compile_glob(values[i].as_str()) {
            Ok(pattern) => {
                out.push(pattern);
            },
            Err(e) => {
                let mut message = "名字匹配式非法 ".to_owned();
                message.append(values[i].as_str());
                message.append(": ");
                message.append(e.as_str());
                return Err(Error::Config(message));
            },
        }
    }
    proof {
        assert(glob_texts(out@) =~= all);
    }
    Ok(out)
}

/// Picks the containers to collect from, by the names of namespace, pod and
/// container, all of which may be patterns.
///
/// Nothing to take means all; what is excluded is excluded even if it is taken.
pub struct PodSelector {
    namespaces: Vec<glob::Pattern>,
    exclude_namespaces: Vec<glob::Pattern>,
    pods: Vec<glob::Pattern>,
    exclude_pods: Vec<glob::Pattern>,
    containers: Vec<glob::Pattern>,
    exclude_containers: Vec<glob::Pattern>,
}

/// The patterns of a [`PodSelector`].
pub struct SelectorView {
    pub namespaces: Seq<Seq<char>>,
    pub exclude_namespaces: Seq<Seq<char>>,
    pub pods: Seq<Seq<char>>,
    pub exclude_pods: Seq<Seq<char>>,
    pub containers: Seq<Seq<char>>,
    pub exclude_containers: Seq<Seq<char>>,
}

/// Whether a name is picked.
pub open spec fn picked(take: Seq<Seq<char>>, exclude: Seq<Seq<char>>, name: Seq<char>) -> bool {
    !any_matches(exclude, name) && (take.len() == 0 || any_matches(take, name))
}

impl SelectorView {
    /// Whether a container is picked: all three of its names are.
    pub open spec fn picks(self, meta: PodView) -> bool {
        &&& picked(self.namespaces, self.exclude_namespaces, meta.namespace)
        &&& picked(self.pods, self.exclude_pods, meta.pod)
        &&& picked(self.containers, self.exclude_containers, meta.container)
    }

    /// No pattern at all.
    pub open spec fn empty() -> SelectorView {
        SelectorView {
            namespaces: Seq::empty(),
            exclude_namespaces: Seq::empty(),
            pods: Seq::empty(),
            exclude_pods: Seq::empty(),
            containers: Seq::empty(),
            exclude_containers: Seq::empty(),
        }
    }

    /// One more pod that is excluded, where its name is a pattern at all.
    pub open spec fn excluding_pod(self, name: Seq<char>) -> SelectorView {
        if glob_error(name) is None {
            SelectorView { exclude_pods: self.exclude_pods.push(name), ..self }
        } else {
            self
        }
    }
}

/// Whether `after` is `before` with the own pod left out: the one that is named,
/// or, where none is, the one with the machine's name, if it has one.
pub open spec fn leaves_out_self(
    before: SelectorView,
    pod_name: Option<String>,
    after: SelectorView,
) -> bool {
    match pod_name {
        Some(name) if name@.len() > 0 => after == before.excluding_pod(name@),
        _ => exists|found: Option<String>| #[trigger]
            machine_says(found) && after == match found {
                Some(name) => before.excluding_pod(name@),
                None => before,
            },
    }
}

impl Default for PodSelector {
    /// Takes everything.
    fn default() -> (r: Self)
        ensures
            r@ == SelectorView::empty(),
    {
        Self::new()
    }
}

impl PodSelector {
    pub closed spec fn view(&self) -> SelectorView {
        SelectorView {
            namespaces: glob_texts(self.namespaces@),
            exclude_namespaces: glob_texts(self.exclude_namespaces@),
            pods: glob_texts(self.pods@),
            exclude_pods: glob_texts(self.exclude_pods@),
            containers: glob_texts(self.containers@),
            exclude_containers: glob_texts(self.exclude_containers@),
        }
    }

    /// Takes everything.
    pub fn new() -> (r: Self)
        ensures
            r@ == SelectorView::empty(),
    {
        let r = PodSelector {
            namespaces: Vec::new(),
            exclude_namespaces: Vec::new(),
            pods: Vec::new(),
            exclude_pods: Vec::new(),
            containers: Vec::new(),
            exclude_containers: Vec::new(),
        };
        proof {
            assert(glob_texts(r.namespaces@) =~= Seq::empty());
        }
        r
    }

    /// The namespaces to take.
    pub fn namespaces(self, values: Vec<String>) -> (r: Result<Self, Error>)
        ensures
            r is Ok <==> patterns_fault(texts_view(values@)) is None,
            r matches Ok(s) ==> s@ == (SelectorView { namespaces: texts_view(values@), ..self@ }),
            r matches Err(e) ==> patterns_fault(texts_view(values@)) == Some(e@),
    {
        let mut selector = self;
        selector.namespaces = match patterns(&values) {
            Ok(list) => list,
            Err(e) => {
                return Err(e);
            },
        };
        Ok(selector)
    }

    /// The namespaces to leave out.
    pub fn exclude_namespaces(self, values: Vec<String>) -> (r: Result<Self, Error>)
        ensures
            r is Ok <==> patterns_fault(texts_view(values@)) is None,
            r matches Ok(s) ==> s@ == (SelectorView {
                exclude_namespaces: texts_view(values@),
                ..self@
            }),
            r matches Err(e) ==> patterns_fault(texts_view(values@)) == Some(e@),
    {
        let mut selector = self;
        selector.exclude_namespaces = match patterns(&values) {
            Ok(list) => list,
            Err(e) => {
                return Err(e);
            },
        };
        Ok(selector)
    }

    /// The pods to take.
    pub fn pods(self, values: Vec<String>) -> (r: Result<Self, Error>)
        ensures
            r is Ok <==> patterns_fault(texts_view(values@)) is None,
            r matches Ok(s) ==> s@ == (SelectorView { pods: texts_view(values@), ..self@ }),
            r matches Err(e) ==> patterns_fault(texts_view(values@)) == Some(e@),
    {
        let mut selector = self;
        selector.pods = match patterns(&values) {
            Ok(list) => list,
            Err(e) => {
                return Err(e);
            },
        };
        Ok(selector)
    }

    /// The pods to leave out.
    pub fn exclude_pods(self, values: Vec<String>) -> (r: Result<Self, Error>)
        ensures
            r is Ok <==> patterns_fault(texts_view(values@)) is None,
            r matches Ok(s) ==> s@ == (SelectorView { exclude_pods: texts_view(values@), ..self@ }),
            r matches Err(e) ==> patterns_fault(texts_view(values@)) == Some(e@),
    {
        let mut selector = self;
        selector.exclude_pods = match patterns(&values) {
            Ok(list) => list,
            Err(e) => {
                return Err(e);
            },
        };
        Ok(selector)
    }

    /// The containers to take.
    pub fn containers(self, values: Vec<String>) -> (r: Result<Self, Error>)
        ensures
            r is Ok <==> patterns_fault(texts_view(values@)) is None,
            r matches Ok(s) ==> s@ == (SelectorView { containers: texts_view(values@), ..self@ }),
            r matches Err(e) ==> patterns_fault(texts_view(values@)) == Some(e@),
    {
        let mut selector = self;
        selector.containers = match patterns(&values) {
            Ok(list) => list,
            Err(e) => {
                return Err(e);
            },
        };
        Ok(selector)
    }

    /// The containers to leave out.
    pub fn exclude_containers(self, values: Vec<String>) -> (r: Result<Self, Error>)
        ensures
            r is Ok <==> patterns_fault(texts_view(values@)) is None,
            r matches Ok(s) ==> s@ == (SelectorView {
                exclude_containers: texts_view(values@),
                ..self@
            }),
            r matches Err(e) ==> patterns_fault(texts_view(values@)) == Some(e@),
    {
        let mut selector = self;
        selector.exclude_containers = match patterns(&values) {
            Ok(list) => list,
            Err(e) => {
                return Err(e);
            },
        };
        Ok(selector)
    }

    /// Leaves out the pod that this program runs in: collecting its own log
    /// would make more of it.
    ///
    /// `pod_name` is the pod's name where the environment gives one. Where it
    /// gives none, the host's name stands in: in a container that is the pod's.
    pub fn exclude_self(self, pod_name: Option<String>) -> (r: Self)
        ensures
            leaves_out_self(self@, pod_name, r@),
    {
        let name = match pod_name {
            Some(name) => if name.as_str().is_empty() {
                ask_machine()
            } else {
                Some(name)
            },
            None => ask_machine(),
        };
        match name {
            Some(name) => self.exclude_pod(name.as_str()),
            None => self,
        }
    }

    /// Leaves out one pod; a name that is no pattern is passed over.
    pub fn exclude_pod(self, name: &str) -> (r: Self)
        ensures
            r@ == self@.excluding_pod(name@),
    {
        let mut selector = self;
        if let Ok(pattern) = compile_glob(name) {
            selector.exclude_pods.push(pattern);
            proof {
                assert(glob_texts(selector.exclude_pods@) =~= self@.exclude_pods.push(name@));
            }
        }
        selector
    }

    /// Whether to collect from a container.
    pub fn matches(&self, meta: &PodMeta) -> (r: bool)
        ensures
            r == self@.picks(meta@),
    {
        selected(&self.namespaces, &self.exclude_namespaces, meta.namespace.as_str()) && selected(
            &self.pods,
            &self.exclude_pods,
            meta.pod.as_str(),
        ) && selected(&self.containers, &self.exclude_containers, meta.container.as_str())
    }
}

fn selected(take: &Vec<glob::Pattern>, exclude: &Vec<glob::Pattern>, name: &str) -> (r: bool)
    ensures
        r == picked(glob_texts(take@), glob_texts(exclude@), name@),
{
    if take.len() == 0 {
        picked_by(true, matches_any(exclude, name))
    } else {
        picked_by(matches_any(take, name), matches_any(exclude, name))
    }
}

/// Whether a name is picked that the patterns take and exclude, or do not.
pub fn picked_by(taken: bool, excluded: bool) -> (r: bool)
    ensures
        r == (taken && !excluded),
{
    taken && !excluded
}

/// The name of this machine, where it has one that is a text.
///
/// `hostname::get` asks the system: nothing is known of what it says.
#[verifier::external_body]
fn machine_hostname() -> (r: Option<String>) {
    hostname::get().ok().and_then(|host| host.into_string().ok())
}

/// Whether asking for this machine's name may have come to this.
pub closed spec fn machine_says(found: Option<String>) -> bool {
    call_ensures(machine_hostname, (), found)
}

/// The name of this machine, as it says.
fn ask_machine() -> (r: Option<String>)
    ensures
        machine_says(r),
{
    machine_hostname()
}

/// The name to go by on a machine with this name.
pub open spec fn known_name(found: Option<String>) -> Seq<char> {
    match found {
        Some(name) => name@,
        None => "unknown"@,
    }
}

/// The name to go by on a machine with this name.
pub fn host_or_unknown(found: Option<String>) -> (r: String)
    ensures
        r@ == known_name(found),
{
    match found {
        Some(name) => name,
        None => "unknown".to_owned(),
    }
}

/// Whether a text is this machine's name, or `unknown` where it has none.
pub open spec fn is_host_name(host: Seq<char>) -> bool {
    exists|found: Option<String>| #[trigger] machine_says(found) && host == known_name(found)
}

/// The name of this machine, or `unknown`.
///
/// The machine is asked, and what it says is what counts; nothing is known of it
/// beforehand.
pub fn hostname() -> (r: String)
    ensures
        is_host_name(r@),
{
    host_or_unknown(ask_machine())
}

/// The address of the API server as a pod's environment gives it. An address of
/// IPv6 goes in brackets.
pub open spec fn cluster_address(host: Seq<char>, port: Seq<char>) -> Seq<char> {
    if host.contains(':') && host[0] != '[' {
        "https://["@ + host + "]:"@ + port
    } else {
        "https://"@ + host + ":"@ + port
    }
}

/// The address of the API server in a cluster.
pub fn cluster_base(host: Option<&str>, port: Option<&str>) -> (r: Result<String, Error>)
    ensures
        r is Ok <==> host is Some && port is Some,
        r matches Ok(base) ==> base@ == cluster_address(host->0@, port->0@),
        r matches Err(e) ==> e@ == ErrorView::Config(
            "不在 k8s 集群里（没有 KUBERNETES_SERVICE_HOST），取不到 pod 的 label；不需要 service_name 的话把 source.service_name_label 设成空串"@,
        ),
{
    match (host, port) {
        (Some(host), Some(port)) => {
            let brackets = match split_first(host) {
                Some((first, _)) => first != '[' && has_char(host, ':'),
                None => false,
            };
            let mut base = if brackets {
                "https://[".to_owned()
            } else {
                "https://".to_owned()
            };
            base.append(host);
            if brackets {
                base.append("]:");
            } else {
                base.append(":");
            }
            base.append(port);
            Ok(base)
        },
        _ => Err(
            Error::config(
                "不在 k8s 集群里（没有 KUBERNETES_SERVICE_HOST），取不到 pod 的 label；不需要 service_name 的话把 source.service_name_label 设成空串",
            ),
        ),
    }
}

/// The address of an API server without the slashes at its end.
pub fn api_base(base: &str) -> (r: String)
    ensures
        r@ == trimmed_end_char(base@, '/'),
{
    trim_end_char(base, '/').to_owned()
}

/// Where a pod is asked for.
pub fn pod_url(base: &str, namespace: &str, pod: &str) -> (r: String)
    ensures
        r@ == base@ + "/api/v1/namespaces/"@ + namespace@ + "/pods/"@ + pod@,
{
    let mut url = base.to_owned();
    url.append("/api/v1/namespaces/");
    url.append(namespace);
    url.append("/pods/");
    url.append(pod);
    url
}

/// The text at `key` of the object that a pointer leads to in a JSON document,
/// or what is wrong with the document.
pub uninterp spec fn json_text_at(
    document: Seq<char>,
    pointer: Seq<char>,
    key: Seq<char>,
) -> Result<Option<Seq<char>>, Seq<char>>;

/// Looks a text up in a JSON document.
///
/// `serde_json::from_str`, `Value::pointer`, `Value::get` and `Value::as_str`
/// depend on the document, the pointer and the key alone.
#[verifier::external_body]
fn read_json_text(document: &str, pointer: &str, key: &str) -> (r: Result<Option<String>, String>)
    ensures
        match r {
            Ok(found) => json_text_at(document@, pointer@, key@) == Ok::<
                Option<Seq<char>>,
                Seq<char>,
            >(opt_string_view(found)),
            Err(e) => json_text_at(document@, pointer@, key@) == Err::<
                Option<Seq<char>>,
                Seq<char>,
            >(e@),
        },
{
    let object: serde_json::Value = serde_json::from_str(document).map_err(|e| e.to_string())?;
    let value = object.pointer(pointer).and_then(|labels| labels.get(key));
    Ok(value.and_then(|value| value.as_str()).map(str::to_owned))
}

/// A label, or why there is none.
pub enum LabelView {
    Label(Option<Seq<char>>),
    Fault(ErrorView),
}

/// What a reply of the API server says of a label.
///
/// A pod that has no such label, or that is gone, is an answer; anything else
/// but success is a reason to ask again.
pub open spec fn reply_label(
    url: Seq<char>,
    status: int,
    status_text: Seq<char>,
    body: Seq<char>,
    document: Result<Option<Seq<char>>, Seq<char>>,
) -> LabelView {
    if status == 404 {
        LabelView::Label(None)
    } else if status == 403 {
        LabelView::Fault(
            ErrorView::Source(
                "API server 拒绝 GET "@ + url
                    + "：ServiceAccount 没有 pods 的 get 权限，见 deploy/logpipe-daemonset.yaml 里的 ClusterRole；"@
                    + trimmed(body),
            ),
        )
    } else if !(200 <= status <= 299) {
        LabelView::Fault(
            ErrorView::Source(
                "API server 返回 "@ + status_text + " "@ + url + ": "@ + trimmed(body),
            ),
        )
    } else {
        match document {
            Ok(label) => LabelView::Label(label),
            Err(e) => LabelView::Fault(
                ErrorView::Source("API server 返回的不是 JSON "@ + url + ": "@ + e),
            ),
        }
    }
}

/// What a result says of a label.
pub open spec fn label_view(r: Result<Option<String>, Error>) -> LabelView {
    match r {
        Ok(label) => LabelView::Label(opt_string_view(label)),
        Err(e) => LabelView::Fault(e@),
    }
}

/// Reads a pod's label out of the API server's reply.
pub fn label_of_reply(url: &str, status: u16, status_text: &str, body: &str, label: &str) -> (r:
    Result<Option<String>, Error>)
    ensures
        label_view(r) == reply_label(
            url@,
            status as int,
            status_text@,
            body@,
            json_text_at(body@, "/metadata/labels"@, label@),
        ),
{
    let document = read_json_text(body, "/metadata/labels", label);
    label_of_document(url, status, status_text, body, document)
}

/// What the API server's reply says, the label read out of its body or not.
pub fn label_of_document(
    url: &str,
    status: u16,
    status_text: &str,
    body: &str,
    document: Result<Option<String>, String>,
) -> (r: Result<Option<String>, Error>)
    ensures
        label_view(r) == reply_label(
            url@,
            status as int,
            status_text@,
            body@,
            match document {
                Ok(label) => Ok(opt_string_view(label)),
                Err(e) => Err(e@),
            },
        ),
{
    if status == 404 {
        return Ok(None);
    }
    if status == 403 {
        let mut message = "API server 拒绝 GET ".to_owned();
        message.append(url);
        message.append(
            "：ServiceAccount 没有 pods 的 get 权限，见 deploy/logpipe-daemonset.yaml 里的 ClusterRole；",
        );
        message.append(trim(body));
        return Err(Error::Source(message));
    }
    if status < 200 || status > 299 {
        let mut message = "API server 返回 ".to_owned();
        message.append(status_text);
        message.append(" ");
        message.append(url);
        message.append(": ");
        message.append(trim(body));
        return Err(Error::Source(message));
    }
    match document {
        Ok(label) => Ok(label),
        Err(e) => {
            let mut message = "API server 返回的不是 JSON ".to_owned();
            message.append(url);
            message.append(": ");
            message.append(e.as_str());
            Err(Error::Source(message))
        },
    }
}

} // verus!
