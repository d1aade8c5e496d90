use vstd::prelude::*;

use crate::storage::storage_error::IoFailure;

verus! {

/// Application-level errors (the older error type, kept for mapping).
#[derive(Debug)]
pub enum AppError {
    /// The command string does not match any known command.
    UnknownCommand { got: String },
    /// CLI arguments are invalid or missing.
    InvalidArgs { message: String },
    /// A record name that cannot be turned into a safe file name.
    InvalidRecordName { name: String, reason: String },
    /// Tried to create a file that already exists.
    AlreadyExists { path: String },
    /// Any I/O error without a more specific mapping.
    Io(IoFailure),
}

} // verus!
