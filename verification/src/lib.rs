pub mod cli;
pub mod digest;
pub mod domain;
pub mod error;
pub mod json;
pub mod number;
pub mod storage;
pub mod text;

use vstd::prelude::*;

verus! {

/// Greeting printed before every command.
pub fn welcome() -> (s: String)
    ensures
        s@ == "Welcome to BIF! A lazy CLI note-taking app."@,
{
    String::from_str("Welcome to BIF! A lazy CLI note-taking app.")
}

} // verus!
