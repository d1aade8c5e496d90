use vstd::prelude::*;

use crate::domain::note::Note;

verus! {

/// A sequence of linked notes; the app points at the current one.
#[derive(Debug)]
pub struct Chain {
    /// Path of the current note.
    pub current_note: String,
    pub notes: Vec<Note>,
}

} // verus!
