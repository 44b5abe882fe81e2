//! What a prune command does with an entry, given whether its server
//! answered.

use crate::metadata::Metadata;
use crate::text::concat;
use vstd::prelude::*;

verus! {

/// Name of the command.
pub const NAME: &'static str = "prune";

/// What becomes of an entry.
#[derive(Clone, Copy, Debug, PartialEq, Eq, Structural)]
pub enum Verdict {
    /// The server answered: the entry stays.
    Keep,
    /// The server did not answer, in a dry run: the entry is reported.
    Report,
    /// The server did not answer: the entry is deleted.
    Delete,
}

/// What becomes of an entry whose server did or did not answer.
pub open spec fn verdict_spec(reachable: bool, dry_run: bool) -> Verdict {
    if reachable {
        Verdict::Keep
    } else if dry_run {
        Verdict::Report
    } else {
        Verdict::Delete
    }
}

/// What becomes of an entry whose server did or did not answer.
pub fn verdict(reachable: bool, dry_run: bool) -> (r: Verdict)
    ensures
        r == verdict_spec(reachable, dry_run),
{
    if reachable {
        Verdict::Keep
    } else if dry_run {
        Verdict::Report
    } else {
        Verdict::Delete
    }
}

/// Decides on the entry `name`, and hands back what is recorded after
/// it: without the entry where it is deleted, unchanged otherwise.
pub fn prune(metadata: Metadata, name: &str, reachable: bool, dry_run: bool) -> (r: (Metadata, Verdict))
    ensures
        r.1 == verdict_spec(reachable, dry_run),
        r.0@.version == metadata@.version,
        r.0@.kubeconfigs == if r.1 == Verdict::Delete {
            metadata@.kubeconfigs.remove(name@)
        } else {
            metadata@.kubeconfigs
        },
{
    let decision = verdict(reachable, dry_run);
    match decision {
        Verdict::Delete => (metadata.remove(name), decision),
        _ => (metadata, decision),
    }
}

/// The line that reports an entry in a dry run.
pub fn report_line(name: &str) -> (r: String)
    ensures
        r@ == "'"@ + name@ + "' should be pruned"@,
{
    let head = concat("'", name);
    concat(head.as_str(), "' should be pruned")
}

} // verus!
