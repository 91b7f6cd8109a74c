//! Errors of a serve session.

use vstd::prelude::*;
use crate::text::{chars_of, string_from_chars};

verus! {

/// Why a serve session could not be started; each kind shows the message of
/// the error behind it.
#[derive(Debug, Clone)]
pub enum ServeSessionError {
    /// Reading or watching the project's files failed.
    Io { source: String },
    /// The project file could not be loaded.
    Project { source: String },
    /// Anything else.
    Other { source: String },
}

impl ServeSessionError {
    /// The error's message: that of the error behind it.
    pub fn message(&self) -> (r: String)
        ensures
            r@ == match self {
                ServeSessionError::Io { source } => source@,
                ServeSessionError::Project { source } => source@,
                ServeSessionError::Other { source } => source@,
            },
    {
        match self {
            ServeSessionError::Io { source } => string_from_chars(&chars_of(source.as_str())),
            ServeSessionError::Project { source } => string_from_chars(&chars_of(source.as_str())),
            ServeSessionError::Other { source } => string_from_chars(&chars_of(source.as_str())),
        }
    }
}

} // verus!
