//! Classification for failures at an offline workflow stage boundary.
//!
//! Validation refusals leave workflow authority untouched. Once a coordinator
//! has accepted a stage and begun publication, failures are eligible for the
//! durable stop-and-wait handling used by the one-stop pipeline.

use vstd::prelude::*;

use crate::failure::Failure;

verus! {

/// A failed stage: what went wrong, and whether the stage had been accepted.
#[derive(Debug)]
pub struct StageError<E> {
    accepted: bool,
    source: E,
}

impl<E> StageError<E> {
    pub closed spec fn spec_accepted(&self) -> bool {
        self.accepted
    }

    pub closed spec fn spec_source(&self) -> E {
        self.source
    }

    /// The stage refused its input; nothing was published.
    pub fn refused(source: E) -> (error: StageError<E>)
        ensures
            !error.spec_accepted(),
            error.spec_source() == source,
    {
        StageError { accepted: false, source }
    }

    /// The stage had begun to publish when it failed.
    pub fn accepted(source: E) -> (error: StageError<E>)
        ensures
            error.spec_accepted(),
            error.spec_source() == source,
    {
        StageError { accepted: true, source }
    }

    pub fn was_accepted(&self) -> (accepted: bool)
        ensures
            accepted == self.spec_accepted(),
    {
        self.accepted
    }

    pub fn cause(&self) -> (source: &E)
        ensures
            *source == self.spec_source(),
    {
        &self.source
    }

    /// Give up the classification and keep what went wrong.
    pub fn into_anyhow(self) -> (source: E)
        ensures
            source == self.spec_source(),
    {
        self.source
    }
}

pub type StageResult<T, E> = Result<T, StageError<E>>;

/// What a stage came to: its value, or whether it had been accepted when it
/// failed and the sentence with which it failed.
pub open spec fn staged<T: DeepView>(result: Result<T, StageError<Failure>>) -> Result<
    T::V,
    (bool, Seq<char>),
> {
    match result {
        Ok(value) => Ok(value.deep_view()),
        Err(error) => Err((error.spec_accepted(), error.spec_source()@)),
    }
}

/// A refusal, as the outcome of a stage.
pub open spec fn as_refused<V>(result: Result<V, Seq<char>>) -> Result<V, (bool, Seq<char>)> {
    match result {
        Ok(value) => Ok(value),
        Err(message) => Err((false, message)),
    }
}

} // verus!
