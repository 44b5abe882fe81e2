//! Taking a kubeconfig into the store: the name it is stored under, the
//! refusal to overwrite an entry, and the document that is written.

use crate::error::Error;
use crate::kubeconfig::{
    get_hostname, get_path, hostname_spec, is_outcome, path_for, rename_context,
    rename_context_spec, reports, set_proxy, with_proxy, HostFailure, Kubeconfig, KubeconfigView,
    NamedCluster, NamedClusterView,
};
use crate::kubeconfig::list::{
    file_name_for, lemma_list_after_import, list_spec, DirEntryView, ListEntryView,
};
use crate::metadata::MetadataView;
use crate::text::{chars_of, concat, find, find_char, substring};
use vstd::prelude::*;

verus! {

/// A kubeconfig that was accepted for the store.
#[derive(Debug)]
pub struct Imported {
    /// The name of the new entry.
    pub name: String,
    /// The path of the file to write.
    pub path: String,
    /// The document to write to it.
    pub kubeconfig: Kubeconfig,
}

/// What an `Imported` holds.
pub struct ImportedView {
    pub name: Seq<char>,
    pub path: Seq<char>,
    pub kubeconfig: KubeconfigView,
}

impl View for Imported {
    type V = ImportedView;

    open spec fn view(&self) -> ImportedView {
        ImportedView { name: self.name@, path: self.path@, kubeconfig: self.kubeconfig@ }
    }
}

/// Why a kubeconfig was not taken into the store.
pub enum ImportFailure {
    /// The kubeconfig gives no name to store it under.
    Host(HostFailure),
    /// An entry of that name exists.
    AlreadyExists,
    /// The kubeconfig has no current context.
    NoCurrentContext,
}

/// The view of an optional borrowed string.
pub open spec fn optional_name(name: Option<&String>) -> Option<Seq<char>> {
    match name {
        Some(n) => Some(n@),
        None => None,
    }
}

/// The short form of a host name: what stands before its first dot.
pub open spec fn short_name(host: Seq<char>) -> Seq<char> {
    match find(host, '.') {
        Some(p) => host.subrange(0, p),
        None => host,
    }
}

/// The name under which a kubeconfig is stored: the name given, or else
/// its host name, in its short form where `use_short` is set.
pub open spec fn resolve_name_spec(k: KubeconfigView, name: Option<Seq<char>>, use_short: bool) -> Result<
    Seq<char>,
    HostFailure,
> {
    match name {
        Some(n) => Ok(n),
        None => match hostname_spec(k) {
            Ok(host) => Ok(if use_short { short_name(host) } else { host }),
            Err(f) => Err(f),
        },
    }
}

/// The kubeconfig with `proxy`, where one is given, as the proxy URL of
/// every cluster.
pub open spec fn with_proxies(k: KubeconfigView, proxy: Option<Seq<char>>) -> KubeconfigView {
    match proxy {
        Some(p) => KubeconfigView {
            clusters: k.clusters.map_values(|c: NamedClusterView| with_proxy(c, p)),
            contexts: k.contexts,
            current_context: k.current_context,
        },
        None => k,
    }
}

/// The message for a name that is taken.
pub open spec fn already_exists_message(name: Seq<char>, path: Seq<char>) -> Seq<char> {
    "kubeconfig "@ + name + " already exists at "@ + path
}

/// What importing a kubeconfig into the store in `config_dir` comes to,
/// where `target_exists` says whether the path of the new entry is taken.
/// An unusable name is reported first, then a taken path, then a missing
/// current context.
pub open spec fn import_spec(
    config_dir: Seq<char>,
    k: KubeconfigView,
    name: Option<Seq<char>>,
    use_short: bool,
    proxy: Option<Seq<char>>,
    target_exists: bool,
) -> Result<ImportedView, ImportFailure> {
    match resolve_name_spec(k, name, use_short) {
        Err(f) => Err(ImportFailure::Host(f)),
        Ok(resolved) => {
            if target_exists {
                Err(ImportFailure::AlreadyExists)
            } else {
                match rename_context_spec(with_proxies(k, proxy), resolved) {
                    None => Err(ImportFailure::NoCurrentContext),
                    Some(renamed) => Ok(
                        ImportedView {
                            name: resolved,
                            path: path_for(config_dir, resolved),
                            kubeconfig: renamed,
                        },
                    ),
                }
            }
        },
    }
}

/// Whether `e` is the error that reports the failure `f` of an import of
/// a kubeconfig that resolves to `name` and `path`.
pub open spec fn reports_import(e: Error, f: ImportFailure, name: Seq<char>, path: Seq<char>) -> bool {
    match f {
        ImportFailure::Host(h) => reports(e, h),
        ImportFailure::AlreadyExists => e matches Error::Collision(m) && m@
            == already_exists_message(name, path),
        ImportFailure::NoCurrentContext => e matches Error::Validation(m) && m@
            == "cannot get current context"@,
    }
}

/// The short form of `host`: what stands before its first dot.
pub fn short(host: &str) -> (r: String)
    ensures
        r@ == short_name(host@),
{
    let v = chars_of(host);
    match find_char(&v, '.') {
        Some(p) => {
            proof {
                crate::text::lemma_find(v@, '.');
            }
            substring(host, 0, p)
        },
        None => host.to_owned(),
    }
}

/// The name under which `kubeconfig` is stored: `name` where it is given,
/// or else the host name of the kubeconfig, in its short form where
/// `use_short` is set.
pub fn resolve_name(kubeconfig: &Kubeconfig, name: Option<&String>, use_short: bool) -> (r: Result<
    String,
    Error,
>)
    ensures
        is_outcome(r, resolve_name_spec(kubeconfig@, optional_name(name), use_short)),
{
    match name {
        Some(given) => Ok(given.clone()),
        None => {
            let host = get_hostname(kubeconfig)?;
            if use_short {
                Ok(short(host.as_str()))
            } else {
                Ok(host)
            }
        },
    }
}

/// The path of the entry that an import of `kubeconfig` would write.
pub fn target_path(config_dir: &str, kubeconfig: &Kubeconfig, name: Option<&String>, use_short: bool) -> (r:
    Result<String, Error>)
    ensures
        is_outcome(
            r,
            match resolve_name_spec(kubeconfig@, optional_name(name), use_short) {
                Ok(resolved) => Ok(path_for(config_dir@, resolved)),
                Err(f) => Err(f),
            },
        ),
{
    let resolved = resolve_name(kubeconfig, name, use_short)?;
    Ok(get_path(config_dir, resolved.as_str()))
}

/// The kubeconfig with `proxy`, where one is given, as the proxy URL of
/// every cluster.
pub fn set_proxies(kubeconfig: &Kubeconfig, proxy: Option<&String>) -> (r: Kubeconfig)
    ensures
        r@ == with_proxies(kubeconfig@, optional_name(proxy)),
{
    match proxy {
        Some(proxy_url) => {
            let mut clusters: Vec<NamedCluster> = Vec::new();
            let mut i: usize = 0;
            while i < kubeconfig.clusters.len()
                invariant
                    i <= kubeconfig.clusters.len(),
                    clusters@.len() == i,
                    forall|j: int| 0 <= j < i ==> (#[trigger] clusters@[j])@ == with_proxy(
                        kubeconfig.clusters@[j]@,
                        proxy_url@,
                    ),
                decreases kubeconfig.clusters.len() - i,
            {
                clusters.push(set_proxy(&kubeconfig.clusters[i], proxy_url.as_str()));
                i += 1;
            }
            let copy = kubeconfig.clone();
            let r = Kubeconfig {
                clusters,
                contexts: copy.contexts,
                current_context: copy.current_context,
            };
            assert(r@.clusters =~= with_proxies(kubeconfig@, Some(proxy_url@)).clusters);
            r
        },
        None => kubeconfig.clone(),
    }
}

/// Takes `kubeconfig` into the store in `config_dir`. `target_exists`
/// says whether the path that `target_path` gives for the same arguments
/// is taken: then nothing is imported. Otherwise the result holds the name
/// of the new entry, its path, and the document to write there: the
/// kubeconfig with its current context renamed to the entry's name and,
/// where `proxy` is given, with that proxy URL in every cluster.
pub fn import(
    config_dir: &str,
    kubeconfig: &Kubeconfig,
    name: Option<&String>,
    use_short: bool,
    proxy: Option<&String>,
    target_exists: bool,
) -> (r: Result<Imported, Error>)
    ensures
        match import_spec(
            config_dir@,
            kubeconfig@,
            optional_name(name),
            use_short,
            optional_name(proxy),
            target_exists,
        ) {
            Ok(imported) => r matches Ok(i) && i@ == imported,
            Err(f) => r matches Err(e) && match resolve_name_spec(
                kubeconfig@,
                optional_name(name),
                use_short,
            ) {
                Ok(resolved) => reports_import(e, f, resolved, path_for(config_dir@, resolved)),
                Err(h) => reports(e, h),
            },
        },
{
    let with_proxy = set_proxies(kubeconfig, proxy);
    let name = resolve_name(kubeconfig, name, use_short)?;
    let target_path = get_path(config_dir, name.as_str());
    if target_exists {
        let a = concat("kubeconfig ", name.as_str());
        let b = concat(a.as_str(), " already exists at ");
        return Err(Error::Collision(concat(b.as_str(), target_path.as_str())));
    }
    let renamed = rename_context(&with_proxy, name.as_str())?;
    Ok(Imported { name, path: target_path, kubeconfig: renamed })
}

/// Two imports that resolve to the same name write to the same path: once
/// the first was written, so that the path is taken, the second is
/// refused as already existing, whatever else it asks for.
pub proof fn lemma_import_collision(
    config_dir: Seq<char>,
    first: KubeconfigView,
    first_name: Option<Seq<char>>,
    first_short: bool,
    first_proxy: Option<Seq<char>>,
    second: KubeconfigView,
    second_name: Option<Seq<char>>,
    second_short: bool,
    second_proxy: Option<Seq<char>>,
)
    requires
        import_spec(config_dir, first, first_name, first_short, first_proxy, false) is Ok,
        resolve_name_spec(second, second_name, second_short) == resolve_name_spec(
            first,
            first_name,
            first_short,
        ),
    ensures
        path_for(config_dir, resolve_name_spec(second, second_name, second_short)->Ok_0)
            == import_spec(config_dir, first, first_name, first_short, first_proxy, false)->Ok_0.path,
        import_spec(config_dir, second, second_name, second_short, second_proxy, true) == Err::<
            ImportedView,
            ImportFailure,
        >(ImportFailure::AlreadyExists),
{
}

/// The document that an import hands out to be written has the name of
/// the new entry as its current context, and the path to write it to is
/// the entry's path in the store.
pub proof fn lemma_import_names_context(
    config_dir: Seq<char>,
    k: KubeconfigView,
    name: Option<Seq<char>>,
    use_short: bool,
    proxy: Option<Seq<char>>,
)
    requires
        import_spec(config_dir, k, name, use_short, proxy, false) is Ok,
    ensures
        ({
            let imported = import_spec(config_dir, k, name, use_short, proxy, false)->Ok_0;
            &&& imported.kubeconfig.current_context == Some(imported.name)
            &&& imported.path == path_for(config_dir, imported.name)
            &&& name is Some ==> imported.name == name->Some_0
            &&& imported.kubeconfig.contexts.len() == k.contexts.len()
            &&& imported.kubeconfig.clusters.len() == k.clusters.len()
        }),
{
}

/// After an import, a listing of the store shows what it showed before
/// and the new entry, and the document written has the entry's name as
/// its current context. `files` is the directory before the import; the
/// import adds the file of the new entry to it. This holds of a name that
/// is not empty and holds no slash: only then does the file stand in the
/// directory itself, under a name that a listing reads as the entry's.
pub proof fn lemma_import_then_list(
    config_dir: Seq<char>,
    k: KubeconfigView,
    name: Option<Seq<char>>,
    use_short: bool,
    proxy: Option<Seq<char>>,
    files: Seq<DirEntryView>,
    metadata: MetadataView,
)
    requires
        import_spec(config_dir, k, name, use_short, proxy, false) is Ok,
        import_spec(config_dir, k, name, use_short, proxy, false)->Ok_0.name.len() > 0,
        !import_spec(config_dir, k, name, use_short, proxy, false)->Ok_0.name.contains('/'),
    ensures
        ({
            let imported = import_spec(config_dir, k, name, use_short, proxy, false)->Ok_0;
            let written = DirEntryView { file_name: file_name_for(imported.name), is_file: true };
            &&& imported.path == config_dir + "/"@ + file_name_for(imported.name)
            &&& imported.kubeconfig.current_context == Some(imported.name)
            &&& list_spec(files.push(written), metadata, None).to_multiset() == list_spec(
                files,
                metadata,
                None,
            ).to_multiset().insert(ListEntryView { name: imported.name, labels: None })
        }),
{
    let imported = import_spec(config_dir, k, name, use_short, proxy, false)->Ok_0;
    lemma_list_after_import(files, imported.name, metadata, None);
    assert(imported.path =~= config_dir + "/"@ + file_name_for(imported.name));
}

} // verus!
