//! Kubeconfig documents as far as the store reads them: the clusters with
//! their server URLs, the contexts, and the current context.

use crate::error::Error;
use crate::text::concat;
use vstd::prelude::*;

pub mod import;
pub mod list;

pub use import::import;
pub use list::list;

verus! {

/// File name suffix of a stored kubeconfig.
pub const SUFFIX: &'static str = ".kubeconfig";

/// How to reach one cluster.
#[derive(Debug)]
pub struct Cluster {
    pub server: Option<String>,
    pub proxy_url: Option<String>,
}

/// A cluster under its name.
#[derive(Debug)]
pub struct NamedCluster {
    pub name: String,
    pub cluster: Option<Cluster>,
}

/// A context, known by its name.
#[derive(Debug)]
pub struct NamedContext {
    pub name: String,
}

/// A kubeconfig document.
#[derive(Debug)]
pub struct Kubeconfig {
    pub clusters: Vec<NamedCluster>,
    pub contexts: Vec<NamedContext>,
    pub current_context: Option<String>,
}

/// The view of an optional string.
pub open spec fn optional_text(s: Option<String>) -> Option<Seq<char>> {
    match s {
        Some(t) => Some(t@),
        None => None,
    }
}

/// What a `Cluster` holds.
pub struct ClusterView {
    pub server: Option<Seq<char>>,
    pub proxy_url: Option<Seq<char>>,
}

/// What a `NamedCluster` holds.
pub struct NamedClusterView {
    pub name: Seq<char>,
    pub cluster: Option<ClusterView>,
}

/// What a `Kubeconfig` holds.
pub struct KubeconfigView {
    pub clusters: Seq<NamedClusterView>,
    pub contexts: Seq<Seq<char>>,
    pub current_context: Option<Seq<char>>,
}

impl View for Cluster {
    type V = ClusterView;

    open spec fn view(&self) -> ClusterView {
        ClusterView { server: optional_text(self.server), proxy_url: optional_text(self.proxy_url) }
    }
}

impl View for NamedCluster {
    type V = NamedClusterView;

    open spec fn view(&self) -> NamedClusterView {
        NamedClusterView {
            name: self.name@,
            cluster: match self.cluster {
                Some(c) => Some(c@),
                None => None,
            },
        }
    }
}

impl View for NamedContext {
    type V = Seq<char>;

    open spec fn view(&self) -> Seq<char> {
        self.name@
    }
}

impl View for Kubeconfig {
    type V = KubeconfigView;

    open spec fn view(&self) -> KubeconfigView {
        KubeconfigView {
            clusters: self.clusters@.map_values(|c: NamedCluster| c@),
            contexts: self.contexts@.map_values(|c: NamedContext| c@),
            current_context: optional_text(self.current_context),
        }
    }
}

/// A copy of an optional string.
fn clone_optional(s: &Option<String>) -> (r: Option<String>)
    ensures
        optional_text(r) == optional_text(*s),
{
    match s {
        Some(t) => Some(t.clone()),
        None => None,
    }
}

impl Clone for Cluster {
    fn clone(&self) -> (r: Self)
        ensures
            r@ == self@,
    {
        Cluster { server: clone_optional(&self.server), proxy_url: clone_optional(&self.proxy_url) }
    }
}

impl Clone for NamedCluster {
    fn clone(&self) -> (r: Self)
        ensures
            r@ == self@,
    {
        let cluster = match &self.cluster {
            Some(c) => Some(c.clone()),
            None => None,
        };
        NamedCluster { name: self.name.clone(), cluster }
    }
}

impl Clone for NamedContext {
    fn clone(&self) -> (r: Self)
        ensures
            r@ == self@,
    {
        NamedContext { name: self.name.clone() }
    }
}

/// A copy of a list of clusters.
fn clone_clusters(clusters: &Vec<NamedCluster>) -> (r: Vec<NamedCluster>)
    ensures
        r@.map_values(|c: NamedCluster| c@) == clusters@.map_values(|c: NamedCluster| c@),
{
    let mut copy: Vec<NamedCluster> = Vec::new();
    let mut i: usize = 0;
    while i < clusters.len()
        invariant
            i <= clusters.len(),
            copy@.len() == i,
            forall|j: int| 0 <= j < i ==> (#[trigger] copy@[j])@ == clusters@[j]@,
        decreases clusters.len() - i,
    {
        copy.push(clusters[i].clone());
        i += 1;
    }
    assert(copy@.map_values(|c: NamedCluster| c@) =~= clusters@.map_values(|c: NamedCluster| c@));
    copy
}

/// A copy of a list of contexts.
fn clone_contexts(contexts: &Vec<NamedContext>) -> (r: Vec<NamedContext>)
    ensures
        r@.map_values(|c: NamedContext| c@) == contexts@.map_values(|c: NamedContext| c@),
{
    let mut copy: Vec<NamedContext> = Vec::new();
    let mut i: usize = 0;
    while i < contexts.len()
        invariant
            i <= contexts.len(),
            copy@.len() == i,
            forall|j: int| 0 <= j < i ==> (#[trigger] copy@[j])@ == contexts@[j]@,
        decreases contexts.len() - i,
    {
        copy.push(contexts[i].clone());
        i += 1;
    }
    assert(copy@.map_values(|c: NamedContext| c@) =~= contexts@.map_values(|c: NamedContext| c@));
    copy
}

impl Clone for Kubeconfig {
    fn clone(&self) -> (r: Self)
        ensures
            r@ == self@,
    {
        Kubeconfig {
            clusters: clone_clusters(&self.clusters),
            contexts: clone_contexts(&self.contexts),
            current_context: clone_optional(&self.current_context),
        }
    }
}

/// Path of the kubeconfig stored under `name` in `config_dir`.
pub open spec fn path_for(config_dir: Seq<char>, name: Seq<char>) -> Seq<char> {
    config_dir + "/"@ + name + SUFFIX@
}

/// Path of the kubeconfig stored under `name` in `config_dir`.
pub fn get_path(config_dir: &str, name: &str) -> (path: String)
    ensures
        path@ == path_for(config_dir@, name@),
{
    let dir = concat(config_dir, "/");
    let stem = concat(dir.as_str(), name);
    concat(stem.as_str(), SUFFIX)
}

/// The host of the URL `server`: `None` where `server` is no absolute
/// URL, `Some(None)` where it is one without a host.
pub uninterp spec fn url_host(server: Seq<char>) -> Option<Option<Seq<char>>>;

/// What `url::Url::parse` makes of `server` and, where that is a URL, what
/// `Url::host_str` gives for it. The contract gives this outcome the name
/// `url_host(server@)` and claims no more: the same string has the same
/// outcome.
#[verifier::external_body]
fn server_host(server: &str) -> (r: Result<Option<String>, url::ParseError>)
    ensures
        match r {
            Ok(host) => url_host(server@) == Some(optional_text(host)),
            Err(_) => url_host(server@) is None,
        },
{
    let url = url::Url::parse(server)?;
    Ok(url.host_str().map(|host| host.to_string()))
}

/// Why a kubeconfig gives no name to store it under.
pub enum HostFailure {
    /// A cluster entry without a cluster.
    MissingCluster,
    /// A cluster without a server URL.
    MissingServer,
    /// A server URL that cannot be parsed.
    InvalidUrl,
    /// A server URL without a host.
    MissingHost,
    /// No cluster at all.
    NoServer,
    /// Clusters on different hosts.
    SeveralServers,
}

/// The message for a failure, but for `InvalidUrl`, whose error carries
/// the parser's own.
pub open spec fn host_failure_message(f: HostFailure) -> Seq<char> {
    match f {
        HostFailure::MissingCluster => "could not find cluster field in kubeconfig"@,
        HostFailure::MissingServer => "could not find server field in kubeconfig"@,
        HostFailure::InvalidUrl => "failed to parse URL"@,
        HostFailure::MissingHost => "failed to parse host from server URL"@,
        HostFailure::NoServer => "could not find any server URL in kubeconfig"@,
        HostFailure::SeveralServers => "kubeconfig has more than one server defined"@,
    }
}

/// Whether `e` is the error that reports `f`.
pub open spec fn reports(e: Error, f: HostFailure) -> bool {
    match f {
        HostFailure::InvalidUrl => e is URLParse,
        _ => e matches Error::Validation(m) && m@ == host_failure_message(f),
    }
}

/// The host that one cluster entry names.
pub open spec fn cluster_host(c: NamedClusterView) -> Result<Seq<char>, HostFailure> {
    match c.cluster {
        None => Err(HostFailure::MissingCluster),
        Some(cluster) => match cluster.server {
            None => Err(HostFailure::MissingServer),
            Some(server) => match url_host(server) {
                None => Err(HostFailure::InvalidUrl),
                Some(None) => Err(HostFailure::MissingHost),
                Some(Some(host)) => Ok(host),
            },
        },
    }
}

/// The hosts of all cluster entries in order, or the failure of the first
/// entry that names none.
pub open spec fn cluster_hosts(clusters: Seq<NamedClusterView>) -> Result<Seq<Seq<char>>, HostFailure>
    decreases clusters.len(),
{
    if clusters.len() == 0 {
        Ok(Seq::empty())
    } else {
        match cluster_hosts(clusters.drop_last()) {
            Err(f) => Err(f),
            Ok(hosts) => match cluster_host(clusters.last()) {
                Err(f) => Err(f),
                Ok(host) => Ok(hosts.push(host)),
            },
        }
    }
}

/// The one host that all of `hosts` are.
pub open spec fn single_host_spec(hosts: Seq<Seq<char>>) -> Result<Seq<char>, HostFailure> {
    if hosts.len() == 0 {
        Err(HostFailure::NoServer)
    } else if forall|i: int| 0 <= i < hosts.len() ==> #[trigger] hosts[i] == hosts[0] {
        Ok(hosts[0])
    } else {
        Err(HostFailure::SeveralServers)
    }
}

/// The host name that a kubeconfig is stored under: the host that the
/// server URLs of all its clusters share.
pub open spec fn hostname_spec(k: KubeconfigView) -> Result<Seq<char>, HostFailure> {
    match cluster_hosts(k.clusters) {
        Err(f) => Err(f),
        Ok(hosts) => single_host_spec(hosts),
    }
}

/// Whether `r` is the outcome `expected`, each error reporting its failure.
pub open spec fn is_outcome(r: Result<String, Error>, expected: Result<Seq<char>, HostFailure>) -> bool {
    match expected {
        Ok(text) => r matches Ok(s) && s@ == text,
        Err(f) => r matches Err(e) && reports(e, f),
    }
}

/// The host that a parsed server URL gives, where `parsed` is what the
/// URL parser made of the server URL.
pub fn host_of_parsed(parsed: Result<Option<String>, url::ParseError>) -> (r: Result<String, Error>)
    ensures
        match parsed {
            Ok(Some(host)) => r matches Ok(h) && h@ == host@,
            Ok(None) => r matches Err(e) && reports(e, HostFailure::MissingHost),
            Err(_) => r matches Err(e) && reports(e, HostFailure::InvalidUrl),
        },
{
    match parsed {
        Ok(Some(host)) => Ok(host),
        Ok(None) => Err(Error::Validation("failed to parse host from server URL".to_owned())),
        Err(err) => Err(Error::URLParse(err)),
    }
}

/// The one host that all of `hosts` are: an error where there is none, or
/// where two of them differ.
pub fn single_host(hosts: &Vec<String>) -> (r: Result<String, Error>)
    ensures
        is_outcome(r, single_host_spec(hosts@.map_values(|h: String| h@))),
{
    let ghost views = hosts@.map_values(|h: String| h@);
    if hosts.len() == 0 {
        return Err(Error::Validation("could not find any server URL in kubeconfig".to_owned()));
    }
    let mut i: usize = 1;
    while i < hosts.len()
        invariant
            1 <= i <= hosts.len(),
            views == hosts@.map_values(|h: String| h@),
            forall|j: int| 0 <= j < i ==> #[trigger] views[j] == views[0],
        decreases hosts.len() - i,
    {
        if hosts[i] != hosts[0] {
            assert(views[i as int] != views[0]);
            return Err(Error::Validation("kubeconfig has more than one server defined".to_owned()));
        }
        i += 1;
    }
    Ok(hosts[0].clone())
}

/// The host of one cluster entry.
fn host_of_cluster(cluster: &NamedCluster) -> (r: Result<String, Error>)
    ensures
        is_outcome(r, cluster_host(cluster@)),
{
    match &cluster.cluster {
        None => Err(Error::Validation("could not find cluster field in kubeconfig".to_owned())),
        Some(inner) => match &inner.server {
            None => Err(Error::Validation("could not find server field in kubeconfig".to_owned())),
            Some(server) => host_of_parsed(server_host(server.as_str())),
        },
    }
}

/// The host name to store `kubeconfig` under: the host that the server
/// URLs of all its clusters share. A kubeconfig without clusters, or with
/// clusters on different hosts, has none.
pub fn get_hostname(kubeconfig: &Kubeconfig) -> (r: Result<String, Error>)
    ensures
        is_outcome(r, hostname_spec(kubeconfig@)),
{
    let ghost clusters = kubeconfig@.clusters;
    let mut hosts: Vec<String> = Vec::new();
    let mut i: usize = 0;
    assert(hosts@.map_values(|h: String| h@) =~= Seq::<Seq<char>>::empty());
    while i < kubeconfig.clusters.len()
        invariant
            i <= kubeconfig.clusters.len(),
            clusters == kubeconfig@.clusters,
            cluster_hosts(clusters.take(i as int)) == Ok::<Seq<Seq<char>>, HostFailure>(
                hosts@.map_values(|h: String| h@),
            ),
        decreases kubeconfig.clusters.len() - i,
    {
        assert(clusters.take(i + 1).drop_last() =~= clusters.take(i as int));
        assert(clusters.take(i + 1).last() == kubeconfig.clusters@[i as int]@);
        match host_of_cluster(&kubeconfig.clusters[i]) {
            Ok(host) => {
                let ghost before = hosts@.map_values(|h: String| h@);
                hosts.push(host);
                assert(hosts@.map_values(|h: String| h@) =~= before.push(host@));
            },
            Err(e) => {
                proof {
                    lemma_cluster_hosts_failure_stays(clusters, i + 1);
                }
                return Err(e);
            },
        }
        i += 1;
    }
    assert(clusters.take(i as int) =~= clusters);
    single_host(&hosts)
}

/// A failure among the first `n` cluster entries is the failure of all.
proof fn lemma_cluster_hosts_failure_stays(clusters: Seq<NamedClusterView>, n: int)
    requires
        0 <= n <= clusters.len(),
        cluster_hosts(clusters.take(n)) is Err,
    ensures
        cluster_hosts(clusters) == cluster_hosts(clusters.take(n)),
    decreases clusters.len() - n,
{
    if n < clusters.len() {
        assert(clusters.take(n + 1).drop_last() =~= clusters.take(n));
        lemma_cluster_hosts_failure_stays(clusters, n + 1);
    } else {
        assert(clusters.take(n) =~= clusters);
    }
}

/// The contexts of a kubeconfig after its current context was renamed:
/// each context of the name `current` has the name `renamed`.
pub open spec fn renamed_contexts(contexts: Seq<Seq<char>>, current: Seq<char>, renamed: Seq<char>) -> Seq<
    Seq<char>,
> {
    contexts.map_values(|c: Seq<char>| if c == current { renamed } else { c })
}

/// The kubeconfig with its current context renamed to `context_name`:
/// the contexts of the current context's name carry the new name, and the
/// new name is the current context. A kubeconfig without a current
/// context has none to rename.
pub open spec fn rename_context_spec(k: KubeconfigView, context_name: Seq<char>) -> Option<
    KubeconfigView,
> {
    match k.current_context {
        None => None,
        Some(current) => Some(
            KubeconfigView {
                clusters: k.clusters,
                contexts: renamed_contexts(k.contexts, current, context_name),
                current_context: Some(context_name),
            },
        ),
    }
}

/// Renames the current context of `kubeconfig` to `context_name`. The
/// other contexts keep their names.
pub fn rename_context(kubeconfig: &Kubeconfig, context_name: &str) -> (r: Result<Kubeconfig, Error>)
    ensures
        match rename_context_spec(kubeconfig@, context_name@) {
            Some(renamed) => r matches Ok(k) && k@ == renamed,
            None => r matches Err(Error::Validation(m)) && m@ == "cannot get current context"@,
        },
{
    let current_context = match &kubeconfig.current_context {
        Some(current) => current,
        None => {
            return Err(Error::Validation("cannot get current context".to_owned()));
        },
    };
    let ghost old_names = kubeconfig@.contexts;
    let mut contexts: Vec<NamedContext> = Vec::new();
    let mut i: usize = 0;
    while i < kubeconfig.contexts.len()
        invariant
            i <= kubeconfig.contexts.len(),
            old_names == kubeconfig@.contexts,
            contexts@.len() == i,
            forall|j: int| 0 <= j < i ==> (#[trigger] contexts@[j])@ == renamed_contexts(
                old_names,
                current_context@,
                context_name@,
            )[j],
        decreases kubeconfig.contexts.len() - i,
    {
        let context = &kubeconfig.contexts[i];
        assert(old_names[i as int] == context.name@);
        if context.name == *current_context {
            contexts.push(NamedContext { name: context_name.to_owned() });
        } else {
            contexts.push(context.clone());
        }
        i += 1;
    }
    let renamed = Kubeconfig {
        clusters: clone_clusters(&kubeconfig.clusters),
        contexts,
        current_context: Some(context_name.to_owned()),
    };
    assert(renamed@.contexts =~= renamed_contexts(old_names, current_context@, context_name@));
    Ok(renamed)
}

/// The cluster entry with `proxy` as its proxy URL. An entry without a
/// cluster stays as it is.
pub open spec fn with_proxy(c: NamedClusterView, proxy: Seq<char>) -> NamedClusterView {
    match c.cluster {
        Some(inner) => NamedClusterView {
            name: c.name,
            cluster: Some(ClusterView { server: inner.server, proxy_url: Some(proxy) }),
        },
        None => c,
    }
}

/// The cluster entry with `proxy` as its proxy URL.
pub fn set_proxy(cluster: &NamedCluster, proxy: &str) -> (r: NamedCluster)
    ensures
        r@ == with_proxy(cluster@, proxy@),
{
    match &cluster.cluster {
        Some(inner) => NamedCluster {
            name: cluster.name.clone(),
            cluster: Some(
                Cluster { server: clone_optional(&inner.server), proxy_url: Some(proxy.to_owned()) },
            ),
        },
        None => cluster.clone(),
    }
}

} // verus!
