//! The library's error type: what can go wrong inside the engine's own
//! logic. Filesystem and terminal failures stay with the caller that does
//! that I/O.

use vstd::prelude::*;

verus! {

/// An engine error.
#[derive(Debug)]
pub enum Error {
    /// A template locator matched none of the accepted shapes; holds the
    /// offending text.
    InvalidUri(String),
    /// The render collaborator rejected a template; holds the template text
    /// and the collaborator's account of the failure.
    Render { template: String, detail: String },
}

impl Error {
    /// A human-readable account of the error.
    pub fn describe(&self) -> (r: String)
        ensures
            match self {
                Error::InvalidUri(t) => r@ == "invalid template uri "@ + t@,
                Error::Render { template, detail } => r@ == "failed to render template "@
                    + template@ + ": "@ + detail@,
            },
    {
        match self {
            Error::InvalidUri(t) => String::from_str("invalid template uri ").concat(t.as_str()),
            Error::Render { template, detail } => String::from_str("failed to render template ")
                .concat(template.as_str())
                .concat(": ")
                .concat(detail.as_str()),
        }
    }
}

} // verus!
