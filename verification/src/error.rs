//! The errors that the conversions of this crate report.

use vstd::prelude::*;

verus! {

/// Why a conversion failed.
#[derive(Debug, Clone)]
pub enum Error {
    /// A key or prefix on the wire is not a well-formed path; `path` is
    /// the text as it was received.
    InvalidPath { path: String },
    /// A document could not be produced; `store` names the provider and
    /// `source` describes the cause.
    Generic { store: &'static str, source: String },
}

impl Error {
    /// This error reports `raw` as a malformed path.
    pub open spec fn is_invalid_path(&self, raw: Seq<char>) -> bool {
        match self {
            Error::InvalidPath { path } => path@ == raw,
            _ => false,
        }
    }

    /// A one-line description of the error.
    pub fn message(&self) -> (text: String)
        ensures
            text@ == match self {
                Error::InvalidPath { path } => "Path is not well formed: "@ + path@,
                Error::Generic { store, source } => "Generic "@ + store@ + " error: "@ + source@,
            },
    {
        match self {
            Error::InvalidPath { path } => {
                let mut text = String::from_str("Path is not well formed: ");
                text.append(path.as_str());
                text
            },
            Error::Generic { store, source } => {
                let mut text = String::from_str("Generic ");
                text.append(store);
                text.append(" error: ");
                text.append(source.as_str());
                text
            },
        }
    }
}

} // verus!
