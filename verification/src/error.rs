//! The error type that every failing pass reports: a single message, built
//! to an exact, contract-specified text.

use vstd::prelude::*;

verus! {

/// A fatal error of the preprocessor: structural errors from the descriptor
/// walk, resolution errors from query lookup, and serialization failures.
#[derive(Debug)]
pub struct PreprocessError {
    pub message: String,
}

impl View for PreprocessError {
    type V = Seq<char>;

    open spec fn view(&self) -> Seq<char> {
        self.message@
    }
}

impl PreprocessError {
    pub fn new(message: String) -> (r: PreprocessError)
        ensures
            r@ == message@,
    {
        PreprocessError { message }
    }

    /// The human-readable message; downstream tooling keys off its exact
    /// wording.
    pub fn message(&self) -> (r: &str)
        ensures
            r@ == self@,
    {
        self.message.as_str()
    }
}

} // verus!
