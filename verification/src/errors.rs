//! Errors used in this bot implementation.

use vstd::prelude::*;

verus! {

/// An enumeration of possible errors that can happen
/// during the parsing of a message.
#[derive(Debug, Clone, Copy, PartialEq, Eq, Structural)]
pub enum CommandParseError {
    /// The text is not actually a command.
    NoCommand,
}

impl CommandParseError {
    /// A short human-readable description of the error.
    pub fn description(&self) -> (r: String)
        ensures
            r@ == "Could not parse the command."@,
    {
        String::from_str("Could not parse the command.")
    }
}

/// An error reported by the registry backend.
///
/// The carried string holds the backend's own error detail; it is logged by
/// the caller and never shown to the end user.
#[derive(Debug, PartialEq, Eq)]
pub enum DatastoreError {
    /// The backend rejected or failed a command.
    Redis(String),
    /// A connection could not be acquired from the pool in time.
    PoolTimeout(String),
}

} // verus!
