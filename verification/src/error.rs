//! Errors reported by the reader and the evaluator.
use vstd::prelude::*;

verus! {

/// An error with a message for the user.
#[derive(Debug, Clone, PartialEq, Eq)]
pub enum ScmErr {
    Reason(String),
}

/// The result of a step that can fail with a `ScmErr`.
pub type ScmResult<T> = Result<T, ScmErr>;

impl ScmErr {
    /// The message, as `Display` prints it.
    pub fn to_string(&self) -> (r: String)
        ensures
            r@ == self.message(),
    {
        match self {
            ScmErr::Reason(s) => s.clone(),
        }
    }

    /// An error with the message `s`.
    pub fn reason(s: &str) -> (e: ScmErr)
        ensures
            e.message() == s@,
    {
        broadcast use vstd::string::group_string_axioms;
        ScmErr::Reason(s.to_string())
    }

    /// The message that the error carries.
    pub open spec fn message(&self) -> Seq<char> {
        match self {
            ScmErr::Reason(s) => s@,
        }
    }
}

} // verus!
