//! Renaming an entry of the store.

use crate::error::Error;
use crate::kubeconfig::{
    get_path, path_for, rename_context, rename_context_spec, Kubeconfig, KubeconfigView,
};
use crate::metadata::{rename_collision_message, Metadata, MetadataView};
use crate::text::concat;
use vstd::prelude::*;

verus! {

/// Name of the command.
pub const NAME: &'static str = "move";

/// An entry under its new name.
#[derive(Debug)]
pub struct Moved {
    /// The path of the file that held the entry.
    pub source_path: String,
    /// The path of the file to write.
    pub destination_path: String,
    /// The document to write to it.
    pub kubeconfig: Kubeconfig,
    /// What is recorded after the move.
    pub metadata: Metadata,
}

/// What a `Moved` holds.
pub struct MovedView {
    pub source_path: Seq<char>,
    pub destination_path: Seq<char>,
    pub kubeconfig: KubeconfigView,
    pub metadata: MetadataView,
}

impl View for Moved {
    type V = MovedView;

    open spec fn view(&self) -> MovedView {
        MovedView {
            source_path: self.source_path@,
            destination_path: self.destination_path@,
            kubeconfig: self.kubeconfig@,
            metadata: self.metadata@,
        }
    }
}

/// Why an entry was not renamed.
pub enum MoveFailure {
    /// The store holds an entry of the new name.
    DestinationExists,
    /// The kubeconfig has no current context.
    NoCurrentContext,
    /// Something is recorded for the new name.
    DestinationRecorded,
}

/// What is recorded after the entry `source` became `destination`.
pub open spec fn renamed_metadata(
    metadata: MetadataView,
    source: Seq<char>,
    destination: Seq<char>,
) -> MetadataView {
    if metadata.kubeconfigs.contains_key(source) {
        MetadataView {
            version: metadata.version,
            kubeconfigs: metadata.kubeconfigs.remove(source).insert(
                destination,
                metadata.kubeconfigs[source],
            ),
        }
    } else {
        metadata
    }
}

/// What renaming the entry `source`, which holds `stored`, to
/// `destination` comes to. The entry moves to the path of its new name
/// with the new name as its current context, and what is recorded of it
/// moves with it.
pub open spec fn move_spec(
    config_dir: Seq<char>,
    metadata: MetadataView,
    source: Seq<char>,
    destination: Seq<char>,
    stored: KubeconfigView,
    destination_exists: bool,
) -> Result<MovedView, MoveFailure> {
    if destination_exists {
        Err(MoveFailure::DestinationExists)
    } else {
        match rename_context_spec(stored, destination) {
            None => Err(MoveFailure::NoCurrentContext),
            Some(renamed) => {
                if metadata.kubeconfigs.contains_key(source) && metadata.kubeconfigs.contains_key(
                    destination,
                ) {
                    Err(MoveFailure::DestinationRecorded)
                } else {
                    Ok(
                        MovedView {
                            source_path: path_for(config_dir, source),
                            destination_path: path_for(config_dir, destination),
                            kubeconfig: renamed,
                            metadata: renamed_metadata(metadata, source, destination),
                        },
                    )
                }
            },
        }
    }
}

/// Whether `e` is the error that reports `f` for the new name `destination`.
pub open spec fn reports_move(e: Error, f: MoveFailure, destination: Seq<char>) -> bool {
    match f {
        MoveFailure::DestinationExists => e matches Error::Collision(m) && m@ == destination
            + " already exists"@,
        MoveFailure::NoCurrentContext => e matches Error::Validation(m) && m@
            == "cannot get current context"@,
        MoveFailure::DestinationRecorded => e matches Error::Collision(m) && m@
            == rename_collision_message(destination),
    }
}

/// Renames the entry `source` of the store in `config_dir`, which holds
/// the kubeconfig `stored`, to `destination`. `destination_exists` says
/// whether the store holds an entry of that name already: then nothing
/// is renamed.
pub fn rename(
    config_dir: &str,
    metadata: Metadata,
    source: &str,
    destination: &str,
    stored: &Kubeconfig,
    destination_exists: bool,
) -> (r: Result<Moved, Error>)
    ensures
        match move_spec(
            config_dir@,
            metadata@,
            source@,
            destination@,
            stored@,
            destination_exists,
        ) {
            Ok(moved) => r matches Ok(m) && m@ == moved,
            Err(f) => r matches Err(e) && reports_move(e, f, destination@),
        },
{
    if destination_exists {
        return Err(Error::Collision(concat(destination, " already exists")));
    }
    let kubeconfig = rename_context(stored, destination)?;
    let metadata = metadata.rename(source, destination)?;
    Ok(
        Moved {
            source_path: get_path(config_dir, source),
            destination_path: get_path(config_dir, destination),
            kubeconfig,
            metadata,
        },
    )
}

} // verus!
