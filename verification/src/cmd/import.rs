//! What an import records about the entries it made.

use crate::error::Error;
use crate::kubeconfig::import::Imported;
use crate::metadata::labels::{label_views, to_map, to_map_spec, Label, LabelView};
use crate::metadata::{ConfigMetadata, Metadata, MetadataView};
use vstd::prelude::*;

verus! {

/// Name of the command.
pub const NAME: &'static str = "import";

/// The document after the import of `name` with `labels`: the labels are
/// recorded for `name`, in place of what was recorded for it before.
pub open spec fn record_spec(
    metadata: MetadataView,
    name: Seq<char>,
    labels: Seq<LabelView>,
) -> MetadataView {
    MetadataView {
        version: metadata.version,
        kubeconfigs: metadata.kubeconfigs.insert(name, Some(to_map_spec(labels))),
    }
}

/// Records `labels` for the entry `name` that an import made.
pub fn record(metadata: Metadata, name: String, labels: &Vec<Label>) -> (r: Metadata)
    ensures
        r@ == record_spec(metadata@, name@, label_views(labels@)),
{
    metadata.set(name, ConfigMetadata { labels: Some(to_map(labels)) })
}

/// Records the outcome of one import of a batch: the labels for the entry
/// of an import that succeeded, nothing for one that failed.
pub fn record_outcome(metadata: Metadata, outcome: &Result<Imported, Error>, labels: &Vec<Label>) -> (r:
    Metadata)
    ensures
        r@ == match *outcome {
            Ok(imported) => record_spec(metadata@, imported@.name, label_views(labels@)),
            Err(_) => metadata@,
        },
{
    match outcome {
        Ok(imported) => record(metadata, imported.name.clone(), labels),
        Err(_) => metadata,
    }
}

/// What an import reads.
#[derive(Clone, Copy, Debug, PartialEq, Eq, Structural)]
pub enum Source {
    /// One kubeconfig file.
    File,
    /// Every file of a directory.
    Directory,
    /// The standard input.
    Stdin,
}

/// Whether an import removes what it read once the entry is made: only
/// a single file, and only where `delete` asks for it.
pub fn deletes_source(source: Source, delete: bool) -> (r: bool)
    ensures
        r == (delete && source == Source::File),
{
    delete && source == Source::File
}

} // verus!
