//! The refusal every fallible operation of the library reports.

use vstd::prelude::*;

verus! {

/// A refused operation, described by the sentence shown to the operator. Where
/// one failure brought about another, the sentence names both, the outer one
/// first.
#[derive(Debug)]
pub struct Failure {
    pub message: String,
}

impl View for Failure {
    type V = Seq<char>;

    open spec fn view(&self) -> Seq<char> {
        self.message@
    }
}

impl Failure {
    pub fn new(message: String) -> (failure: Failure)
        ensures
            failure@ == message@,
    {
        Failure { message }
    }

    pub fn from_text(message: &str) -> (failure: Failure)
        ensures
            failure@ == message@,
    {
        Failure { message: message.to_owned() }
    }

    /// A failure that another one brought about.
    pub fn caused(message: String, cause: &Failure) -> (failure: Failure)
        ensures
            failure@ == because(message@, cause@),
    {
        Failure { message: message.concat(": ").concat(cause.message.as_str()) }
    }

    /// The sentence shown to the operator.
    pub fn text(&self) -> (text: &str)
        ensures
            text@ == self@,
    {
        self.message.as_str()
    }
}

/// The sentence of a failure that another one brought about.
pub open spec fn because(message: Seq<char>, cause: Seq<char>) -> Seq<char> {
    message + ": "@ + cause
}

/// What an operation came to: the mathematical value it returned, or the
/// sentence with which it refused.
pub open spec fn outcome<T: DeepView>(result: Result<T, Failure>) -> Result<T::V, Seq<char>> {
    match result {
        Ok(value) => Ok(value.deep_view()),
        Err(failure) => Err(failure@),
    }
}

/// As [`outcome`], for operations that return a list whose items are their own
/// mathematical value.
pub open spec fn listing<T>(result: Result<Vec<T>, Failure>) -> Result<Seq<T>, Seq<char>> {
    match result {
        Ok(items) => Ok(items@),
        Err(failure) => Err(failure@),
    }
}

} // verus!
