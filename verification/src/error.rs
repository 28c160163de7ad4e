//! Error type for address handling.

use vstd::prelude::*;
use vstd::string::StringExecFns;

verus! {

/// An address-handling error. The matching engine itself never raises one: an
/// unrecognized address degrades to an all-absent result.
#[derive(Debug, Clone, PartialEq, Eq)]
pub enum ParseError {
    /// The gazetteer could not be loaded.
    DataLoadError(String),
    /// The address has an invalid form.
    InvalidFormat(String),
    /// No matching region was found.
    NotFound(String),
}

impl ParseError {
    /// The error's message.
    pub fn message(&self) -> (r: String)
        ensures
            r@ == match self {
                ParseError::DataLoadError(s) => "Failed to load region data: "@ + s@,
                ParseError::InvalidFormat(s) => "Invalid address format: "@ + s@,
                ParseError::NotFound(s) => "No matching region found for: "@ + s@,
            },
    {
        match self {
            ParseError::DataLoadError(s) => {
                let mut r = "Failed to load region data: ".to_owned();
                r.append(s.as_str());
                r
            },
            ParseError::InvalidFormat(s) => {
                let mut r = "Invalid address format: ".to_owned();
                r.append(s.as_str());
                r
            },
            ParseError::NotFound(s) => {
                let mut r = "No matching region found for: ".to_owned();
                r.append(s.as_str());
                r
            },
        }
    }
}

} // verus!
