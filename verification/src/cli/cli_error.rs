use vstd::prelude::*;

use crate::domain::domain_error::DomainError;
use crate::error::AppError;
use crate::storage::storage_error::StorageError;

verus! {

/// Top-level error at the CLI boundary: what `run` returns and `main` prints.
#[derive(Debug)]
pub enum CliError {
    UnknownCommand { got: String },
    InvalidArgs { message: String },
    Domain(DomainError),
    Storage(StorageError),
    App(AppError),
}

} // verus!
