//! The metadata document: what the store records about each kubeconfig
//! beside the kubeconfig itself.

use crate::error::Error;
use crate::string_map::StringMap;
use crate::string_map::ViewClone;
use crate::text::{concat, str_eq};
use vstd::prelude::*;

pub mod labels;
pub mod selectors;

pub use selectors::Selector;

verus! {

/// Name of the file that holds the metadata document.
pub const FILE: &'static str = "metadata.json";

/// The schema version that this library reads and writes.
pub const VERSION: &'static str = "0.1";

/// What the store records about one kubeconfig.
#[derive(Debug)]
pub struct ConfigMetadata {
    pub labels: Option<StringMap<String>>,
}

impl View for ConfigMetadata {
    type V = Option<Map<Seq<char>, Seq<char>>>;

    open spec fn view(&self) -> Option<Map<Seq<char>, Seq<char>>> {
        match self.labels {
            Some(m) => Some(m@),
            None => None,
        }
    }
}

impl ViewClone for ConfigMetadata {
    fn view_clone(&self) -> (r: Self) {
        match &self.labels {
            Some(m) => ConfigMetadata { labels: Some(m.clone()) },
            None => ConfigMetadata { labels: None },
        }
    }
}

impl Clone for ConfigMetadata {
    fn clone(&self) -> (r: Self)
        ensures
            r@ == self@,
    {
        self.view_clone()
    }
}

/// The metadata document: a schema version and, by name, what is recorded
/// about each kubeconfig.
#[derive(Debug)]
pub struct Metadata {
    pub version: String,
    pub kubeconfigs: StringMap<ConfigMetadata>,
}

/// What a `Metadata` holds.
pub struct MetadataView {
    pub version: Seq<char>,
    pub kubeconfigs: Map<Seq<char>, Option<Map<Seq<char>, Seq<char>>>>,
}

impl View for Metadata {
    type V = MetadataView;

    open spec fn view(&self) -> MetadataView {
        MetadataView { version: self.version@, kubeconfigs: self.kubeconfigs@ }
    }
}

impl Clone for Metadata {
    fn clone(&self) -> (r: Self)
        ensures
            r@ == self@,
    {
        Metadata { version: self.version.clone(), kubeconfigs: self.kubeconfigs.clone() }
    }
}

/// The message for a document of another schema version.
pub open spec fn unknown_version_message(version: Seq<char>) -> Seq<char> {
    "unknown metadata version: "@ + version
}

/// The message for a rename onto a name that has an entry.
pub open spec fn rename_collision_message(destination: Seq<char>) -> Seq<char> {
    destination + " already exists in metadata store"@
}

impl Metadata {
    /// The empty document of the current schema version.
    pub fn new() -> (m: Metadata)
        ensures
            m@.version == VERSION@,
            m@.kubeconfigs == Map::<Seq<char>, Option<Map<Seq<char>, Seq<char>>>>::empty(),
    {
        Metadata { version: VERSION.to_owned(), kubeconfigs: StringMap::new() }
    }

    /// Accepts a document that was read from storage: it is handed back
    /// where its version is the current one, and refused otherwise.
    pub fn check_version(self) -> (r: Result<Metadata, Error>)
        ensures
            match r {
                Ok(m) => self@.version == VERSION@ && m@ == self@,
                Err(Error::SchemaVersion(msg)) => self@.version != VERSION@ && msg@
                    == unknown_version_message(self@.version),
                Err(_) => false,
            },
    {
        if !str_eq(self.version.as_str(), VERSION) {
            return Err(
                Error::SchemaVersion(concat("unknown metadata version: ", self.version.as_str())),
            );
        }
        Ok(self)
    }

    /// The document to work on, given what loading found: the stored
    /// document, or the empty one where none is stored yet.
    pub fn or_new(stored: Option<Metadata>) -> (m: Metadata)
        ensures
            match stored {
                Some(s) => m@ == s@,
                None => m@.version == VERSION@ && m@.kubeconfigs == Map::<
                    Seq<char>,
                    Option<Map<Seq<char>, Seq<char>>>,
                >::empty(),
            },
    {
        match stored {
            Some(s) => s,
            None => Metadata::new(),
        }
    }

    /// What is recorded for `name`, if anything.
    pub fn get(&self, name: &str) -> (r: Option<&ConfigMetadata>)
        ensures
            match r {
                Some(c) => self@.kubeconfigs.contains_key(name@) && self@.kubeconfigs[name@] == c@,
                None => !self@.kubeconfigs.contains_key(name@),
            },
    {
        self.kubeconfigs.get(name)
    }

    /// The document with `metadata` recorded for `name`, in place of what
    /// was recorded for it before.
    pub fn set(self, name: String, metadata: ConfigMetadata) -> (r: Metadata)
        ensures
            r@.version == self@.version,
            r@.kubeconfigs == self@.kubeconfigs.insert(name@, metadata@),
    {
        let mut updated = self;
        updated.kubeconfigs.insert(name, metadata);
        updated
    }

    /// The document without an entry for `name`.
    pub fn remove(self, name: &str) -> (r: Metadata)
        ensures
            r@.version == self@.version,
            r@.kubeconfigs == self@.kubeconfigs.remove(name@),
    {
        let mut updated = self;
        updated.kubeconfigs.remove(name);
        updated
    }

    /// The document with the entry of `source` moved to `destination`.
    /// Without an entry for `source` the document stays as it is. With
    /// one, a `destination` that has an entry already is refused.
    pub fn rename(self, source: &str, destination: &str) -> (r: Result<Metadata, Error>)
        ensures
            match r {
                Ok(m) => m@.version == self@.version && if self@.kubeconfigs.contains_key(source@) {
                    !self@.kubeconfigs.contains_key(destination@) && m@.kubeconfigs
                        == self@.kubeconfigs.remove(source@).insert(
                        destination@,
                        self@.kubeconfigs[source@],
                    )
                } else {
                    m@.kubeconfigs == self@.kubeconfigs
                },
                Err(Error::Collision(msg)) => self@.kubeconfigs.contains_key(source@)
                    && self@.kubeconfigs.contains_key(destination@) && msg@
                    == rename_collision_message(destination@),
                Err(_) => false,
            },
    {
        let mut updated = self;
        if updated.kubeconfigs.contains_key(source) {
            if updated.kubeconfigs.contains_key(destination) {
                return Err(Error::Collision(concat(destination, " already exists in metadata store")));
            }
            if let Some(val) = updated.kubeconfigs.remove(source) {
                updated.kubeconfigs.insert(destination.to_owned(), val);
            }
        }
        Ok(updated)
    }
}

/// Path of the metadata document of the store in `config_dir`.
pub fn file_path(config_dir: &str) -> (path: String)
    ensures
        path@ == config_dir@ + "/"@ + FILE@,
{
    let dir = concat(config_dir, "/");
    concat(dir.as_str(), FILE)
}

} // verus!
