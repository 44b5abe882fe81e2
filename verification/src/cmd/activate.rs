//! Putting an entry to use: what the argument of the command selects, and
//! the line handed to the shell.

use crate::text::{concat, str_eq};
use vstd::prelude::*;

verus! {

/// Name of the command.
pub const NAME: &'static str = "use";

/// What the argument of the command selects.
#[derive(Debug)]
pub enum Selection {
    /// `-`: the entry last put to use.
    LastActive,
    /// `[unset]`: no entry.
    Unset,
    /// The entry of this name.
    Named(String),
}

/// What `argument` selects.
pub fn selection(argument: &str) -> (r: Selection)
    ensures
        match r {
            Selection::LastActive => argument@ == "-"@,
            Selection::Unset => argument@ == "[unset]"@ && argument@ != "-"@,
            Selection::Named(name) => name@ == argument@ && argument@ != "-"@ && argument@
                != "[unset]"@,
        },
{
    if str_eq(argument, "-") {
        Selection::LastActive
    } else if str_eq(argument, "[unset]") {
        Selection::Unset
    } else {
        Selection::Named(argument.to_owned())
    }
}

/// Whether the name of the selected entry is kept as the one last put to
/// use: that of an entry selected by its name.
pub fn remembers(selected: &Selection) -> (r: bool)
    ensures
        r == (*selected is Named),
{
    match selected {
        Selection::Named(_) => true,
        _ => false,
    }
}

/// The line that makes the shell use the kubeconfig at `path`.
pub fn export_line(path: &str) -> (r: String)
    ensures
        r@ == "export KUBECONFIG="@ + path@,
{
    concat("export KUBECONFIG=", path)
}

/// The line that makes the shell use no kubeconfig of the store.
pub fn unset_line() -> (r: String)
    ensures
        r@ == "unset KUBECONFIG"@,
{
    "unset KUBECONFIG".to_owned()
}

} // verus!
