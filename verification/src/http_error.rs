//! The one answer of a server that offers no HTTP routes of its own.

use vstd::prelude::*;

verus! {

/// Simple error struct, for a server that is not really providing an HTTP
/// interface.
#[derive(Clone, Copy, Debug, PartialEq, Eq, Structural)]
pub enum IoxHttpError {
    NotFound,
}

impl IoxHttpError {
    /// The HTTP status that reports this error.
    pub fn status_code(&self) -> (code: u16)
        ensures
            code == 404,
    {
        match self {
            IoxHttpError::NotFound => 404,
        }
    }

    /// The error's name, as shown to the client.
    pub fn message(&self) -> (msg: &'static str)
        ensures
            msg@ == "NotFound"@,
    {
        match self {
            IoxHttpError::NotFound => "NotFound",
        }
    }
}

} // verus!
