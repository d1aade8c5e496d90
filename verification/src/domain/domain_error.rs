use vstd::prelude::*;

verus! {

/// Errors of the domain layer: invariant violations and refused input.
#[derive(Debug)]
pub enum DomainError {
    InvalidRecordName { name: String, reason: String },
    EntryParse(EntryParseError),
}

/// A free-form entry parsing failure.
#[derive(Debug)]
pub enum EntryParseError {
    Message(String),
}

impl EntryParseError {
    pub fn new(message: String) -> (e: EntryParseError)
        ensures
            e matches EntryParseError::Message(m) && m@ == message@,
    {
        EntryParseError::Message(message)
    }
}

} // verus!
