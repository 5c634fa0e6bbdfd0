//! Errors of the library.

use vstd::prelude::*;

verus! {

/// Muna error.
#[derive(Debug, Clone, PartialEq, Eq)]
pub enum MunaError {
    /// API error with HTTP status.
    Api { message: String, status: u16 },
    /// Prediction error.
    Prediction(String),
    /// Invalid input provided by the caller (e.g. an unsupported or
    /// malformed content part). Servers should surface this as a client
    /// error rather than an internal error.
    InvalidInput(String),
    /// Native library error.
    Native(String),
}

impl MunaError {
    /// The HTTP status of an API error.
    pub fn api_status(&self) -> (r: Option<u16>)
        ensures
            r == match self {
                MunaError::Api { status, .. } => Some(*status),
                _ => None,
            },
    {
        match self {
            MunaError::Api { status, .. } => Some(*status),
            _ => None,
        }
    }
}

} // verus!
