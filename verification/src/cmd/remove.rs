//! Which entries a remove command takes out, and what is recorded after
//! each is gone.

use crate::error::Error;
use crate::kubeconfig::list::{
    dir_views, entry_views, list, list_spec, optional_selectors, DirEntry, ListEntry, ListEntryView,
};
use crate::metadata::selectors::Selector;
use crate::metadata::Metadata;
use crate::text::concat;
use vstd::prelude::*;

verus! {

/// Name of the command.
pub const NAME: &'static str = "remove";

/// The message for an entry that is not in the store.
pub open spec fn not_found_message(name: Seq<char>) -> Seq<char> {
    "kubeconfig not found: \""@ + name + "\""@
}

/// The entries to remove: with selectors, the entries that a listing
/// with these selectors shows; otherwise the entry named, if one is.
pub fn targets(files: &Vec<DirEntry>, metadata: &Metadata, selectors: Option<Vec<Selector>>, name: Option<
    String,
>) -> (r: Vec<ListEntry>)
    ensures
        entry_views(r@) == match selectors {
            Some(s) => list_spec(dir_views(files@), metadata@, optional_selectors(selectors)),
            None => match name {
                Some(n) => seq![ListEntryView { name: n@, labels: None }],
                None => Seq::empty(),
            },
        },
{
    match selectors {
        Some(s) => list(files, metadata, Some(s)),
        None => {
            let mut removals: Vec<ListEntry> = Vec::new();
            match name {
                Some(n) => {
                    let ghost text = n@;
                    removals.push(ListEntry { name: n, labels: None });
                    assert(entry_views(removals@) =~= seq![
                        ListEntryView { name: text, labels: None },
                    ]);
                },
                None => {
                    assert(entry_views(removals@) =~= Seq::<ListEntryView>::empty());
                },
            }
            removals
        },
    }
}

/// What is recorded once the entry `name` is removed. `loadable` says
/// whether the store holds a kubeconfig of that name that can be read:
/// only such an entry is removed.
pub fn remove(metadata: Metadata, name: &str, loadable: bool) -> (r: Result<Metadata, Error>)
    ensures
        match r {
            Ok(m) => loadable && m@.version == metadata@.version && m@.kubeconfigs
                == metadata@.kubeconfigs.remove(name@),
            Err(Error::NotFound(msg)) => !loadable && msg@ == not_found_message(name@),
            Err(_) => false,
        },
{
    if loadable {
        Ok(metadata.remove(name))
    } else {
        let head = concat("kubeconfig not found: \"", name);
        Err(Error::NotFound(concat(head.as_str(), "\"")))
    }
}

} // verus!
