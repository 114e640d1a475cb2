//! Errors that the library's lookups and builders report.

use vstd::prelude::*;

verus! {

/// Failure of a lookup or of response assembly.
#[derive(Clone, Copy, Debug, PartialEq, Eq, Structural)]
pub enum LibError {
    /// A header lookup found no entry for the key.
    FieldNotFound,
    /// The MIME table holds no entry for the file's extension.
    MimetypeNotFound,
    /// The response is incomplete: its header cannot be serialized yet.
    NotReady,
}

impl LibError {
    /// A short description of the error.
    pub fn message(&self) -> (r: &'static str)
        ensures
            self is FieldNotFound ==> r@ == "field not found"@,
            self is MimetypeNotFound ==> r@ == "mimetype not found."@,
            self is NotReady ==> r@ == "response is incomplete."@,
    {
        match self {
            LibError::FieldNotFound => "field not found",
            LibError::MimetypeNotFound => "mimetype not found.",
            LibError::NotReady => "response is incomplete.",
        }
    }
}

} // verus!
