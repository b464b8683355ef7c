//! The error type for lines that do not decode into a command.

use vstd::prelude::*;

verus! {

/// A decode failure, carrying a human-readable description of what was wrong
/// with the line.
#[derive(Debug, Clone)]
pub struct InvalidMessage {
    pub details: String,
}

impl InvalidMessage {
    /// Wraps the given details in an `Err`, the shape every decode failure takes.
    pub fn new_result<T>(details: String) -> (r: Result<T, InvalidMessage>)
        ensures
            r == Err::<T, InvalidMessage>((InvalidMessage { details })),
    {
        Err(InvalidMessage { details })
    }

    /// The description carried by this error.
    pub fn details(&self) -> (r: &String)
        ensures
            r == &self.details,
    {
        &self.details
    }
}

} // verus!
