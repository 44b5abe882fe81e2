//! Where the store lives, and how a listing is shown.

use crate::error::Error;
use crate::text::{concat, str_eq};
use vstd::prelude::*;

verus! {

/// Name of the file that holds the name of the entry last put to use.
pub const ACTIVE_FILE_NAME: &'static str = "active";

/// The form in which a listing is shown.
#[derive(Clone, Copy, Debug, PartialEq, Eq, Structural)]
#[non_exhaustive]
pub enum Output {
    Name,
    Table,
}

impl Output {
    /// The form that the word `name` stands for.
    pub fn from_name(name: &str) -> (r: Option<Output>)
        ensures
            r == if name@ == "name"@ {
                Some(Output::Name)
            } else if name@ == "table"@ {
                Some(Output::Table)
            } else {
                None
            },
    {
        if str_eq(name, "name") {
            Some(Output::Name)
        } else if str_eq(name, "table") {
            Some(Output::Table)
        } else {
            None
        }
    }

    /// The word that stands for this form.
    pub fn name(&self) -> (r: &'static str)
        ensures
            r@ == match *self {
                Output::Name => "name"@,
                Output::Table => "table"@,
            },
    {
        match self {
            Output::Name => "name",
            Output::Table => "table",
        }
    }
}

/// The configuration directory, given the value of `XDG_CONFIG_HOME` and
/// the home directory as far as each is known: `kbs` below the former
/// or, without it, below `.config` in the latter.
pub open spec fn config_path_spec(xdg_config_home: Option<Seq<char>>, home: Option<Seq<char>>) -> Option<
    Seq<char>,
> {
    match xdg_config_home {
        Some(base) => Some(base + "/kbs"@),
        None => match home {
            Some(h) => Some(h + "/.config"@ + "/kbs"@),
            None => None,
        },
    }
}

/// The view of an optional string slice.
pub open spec fn optional_str(s: Option<&str>) -> Option<Seq<char>> {
    match s {
        Some(t) => Some(t@),
        None => None,
    }
}

/// The configuration directory, given the value of `XDG_CONFIG_HOME` and
/// the home directory as far as each is known.
pub fn get_config_path(xdg_config_home: Option<&str>, home: Option<&str>) -> (r: Result<String, Error>)
    ensures
        match config_path_spec(optional_str(xdg_config_home), optional_str(home)) {
            Some(path) => r matches Ok(p) && p@ == path,
            None => r matches Err(Error::NotFound(m)) && m@
                == "could not determine home directory"@,
        },
{
    let base = match xdg_config_home {
        Some(s) => s.to_owned(),
        None => match home {
            Some(h) => concat(h, "/.config"),
            None => {
                return Err(Error::NotFound("could not determine home directory".to_owned()));
            },
        },
    };
    Ok(concat(base.as_str(), "/kbs"))
}

/// Path of the file that holds the name of the entry last put to use.
pub fn active_path(config_path: &str) -> (path: String)
    ensures
        path@ == config_path@ + "/"@ + ACTIVE_FILE_NAME@,
{
    let dir = concat(config_path, "/");
    concat(dir.as_str(), ACTIVE_FILE_NAME)
}

} // verus!
