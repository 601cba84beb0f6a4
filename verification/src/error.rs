//! The error every operation of the library reports.
use vstd::prelude::*;

verus! {

/// A user-facing problem: bad input, missing row, wrong deck kind, ...
#[derive(Debug, Clone, PartialEq, Eq)]
pub enum Error {
    Invalid(String),
}

/// The error carrying `message`.
pub open spec fn invalid_with(e: Error, message: Seq<char>) -> bool {
    e matches Error::Invalid(m) && m@ == message
}

impl Error {
    pub fn invalid(message: &str) -> (e: Error)
        ensures
            invalid_with(e, message@),
    {
        Error::Invalid(String::from_str(message))
    }

    /// The text shown to the user.
    pub fn message(&self) -> (m: String)
        ensures
            invalid_with(*self, m@),
    {
        match self {
            Error::Invalid(m) => m.clone(),
        }
    }
}

} // verus!
