use vstd::prelude::*;

verus! {

/// The kinds of I/O failure the library tells apart (`std::io::ErrorKind`, in part).
#[derive(Debug, Clone, Copy, PartialEq, Eq, Structural)]
pub enum IoKind {
    NotFound,
    AlreadyExists,
    InvalidInput,
    InvalidData,
    Other,
}

/// An I/O failure as plain values: its kind and its message.
#[derive(Debug)]
pub struct IoFailure {
    pub kind: IoKind,
    pub message: String,
}

impl IoFailure {
    pub fn new(kind: IoKind, message: String) -> (e: IoFailure)
        ensures
            e.kind == kind,
            e.message@ == message@,
    {
        IoFailure { kind, message }
    }
}

/// Errors of the storage layer.
#[derive(Debug)]
pub enum StorageError {
    /// A raw I/O failure from the file system.
    Io(IoFailure),
    /// Something that should be created already exists.
    AlreadyExists { path: String },
    /// A path or file name unfit for the storage operation.
    InvalidPath { path: String, reason: String },
}

impl StorageError {
    /// Maps an I/O failure: one saying the target already exists becomes `AlreadyExists`
    /// for `path` (`<unknown>` when not given); any other stays an `Io` error.
    pub fn from_io(err: IoFailure, path: Option<String>) -> (r: StorageError)
        ensures
            err.kind == IoKind::AlreadyExists ==> (r matches StorageError::AlreadyExists { path: p } && p@ == match path {
                Some(q) => q@,
                None => "<unknown>"@,
            }),
            err.kind != IoKind::AlreadyExists ==> (r matches StorageError::Io(e) && e.kind == err.kind && e.message@ == err.message@),
    {
        match err.kind {
            IoKind::AlreadyExists => StorageError::AlreadyExists {
                path: match path {
                    Some(p) => p,
                    None => String::from_str("<unknown>"),
                },
            },
            _ => StorageError::Io(err),
        }
    }
}

} // verus!
