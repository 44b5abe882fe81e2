//! The errors that the store reports.

use crate::text::concat;
use vstd::prelude::*;

verus! {

#[verifier::external_type_specification]
#[verifier::external_body]
pub struct ExParseError(url::ParseError);

/// Why an operation on the store was refused.
#[derive(Debug)]
pub enum Error {
    /// A kubeconfig, a label or a selector does not have the required shape.
    Validation(String),
    /// The metadata document was written for another schema version.
    SchemaVersion(String),
    /// The name, or the label key, is already taken.
    Collision(String),
    /// The store holds no entry of that name.
    NotFound(String),
    /// A server URL could not be parsed.
    URLParse(url::ParseError),
}

/// The text that `url::ParseError` shows of itself through `Display`,
/// as `to_string` hands it out. Nothing is claimed of it.
#[verifier::external_body]
fn parse_error_text(err: &url::ParseError) -> String {
    err.to_string()
}

impl Error {
    /// The text shown to the user for this error.
    pub fn message(&self) -> (r: String)
        ensures
            match *self {
                Error::Validation(m) => r@ == m@,
                Error::SchemaVersion(m) => r@ == m@,
                Error::Collision(m) => r@ == m@,
                Error::NotFound(m) => r@ == m@,
                Error::URLParse(_) => "failed to parse URL: "@.is_prefix_of(r@),
            },
    {
        match self {
            Error::Validation(m) => m.clone(),
            Error::SchemaVersion(m) => m.clone(),
            Error::Collision(m) => m.clone(),
            Error::NotFound(m) => m.clone(),
            Error::URLParse(err) => {
                let detail = parse_error_text(err);
                let text = concat("failed to parse URL: ", detail.as_str());
                assert(text@.subrange(0, "failed to parse URL: "@.len() as int)
                    =~= "failed to parse URL: "@);
                text
            },
        }
    }
}

/// Why a kubeconfig was not accepted for import.
#[derive(Debug)]
pub enum ImportError {
    InvalidConfiguration,
    FileExists(String),
    InvalidCluster(String),
}

impl ImportError {
    /// The text shown to the user for this error.
    pub fn message(&self) -> (r: String)
        ensures
            match *self {
                ImportError::InvalidConfiguration => r@ == "invalid configuration provided"@,
                ImportError::FileExists(s) => r@ == "file "@ + s@ + " aready exists"@,
                ImportError::InvalidCluster(s) => r@ == s@,
            },
    {
        match self {
            ImportError::InvalidConfiguration => "invalid configuration provided".to_owned(),
            ImportError::FileExists(s) => {
                let head = concat("file ", s.as_str());
                concat(head.as_str(), " aready exists")
            },
            ImportError::InvalidCluster(s) => s.clone(),
        }
    }
}

/// Why a command could not be run.
#[derive(Debug)]
pub enum CmdError {
    CommandNotFound,
}

impl CmdError {
    /// The text shown to the user for this error.
    pub fn message(&self) -> (r: String)
        ensures
            r@ == "command not found"@,
    {
        "command not found".to_owned()
    }
}

} // verus!
