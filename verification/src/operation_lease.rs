//! Exclusive ownership for offline operations which mutate one session.
//!
//! The lock lives in the transcription directory because the worker inherits
//! its handle. It nevertheless protects every offline command which can publish
//! session authority or a session-declared derived artefact.

use vstd::prelude::*;

use crate::failure;
use crate::failure::Failure;

verus! {

pub const OPERATION_LEASE_FILE_NAME: &'static str = "worker.lock";

pub const TRANSIENT_LOCK_RETRY_MILLIS: u64 = 5;

/// What an attempt to take the lock came to.
#[derive(Debug)]
pub enum LockAttempt {
    Locked,
    WouldBlock,
    Error(Failure),
}

/// What follows from an attempt to take the lock.
#[derive(Debug)]
pub enum LeaseDecision {
    Acquired,
    /// A concurrently spawning child can briefly inherit an unrelated
    /// descriptor: wait for [`TRANSIENT_LOCK_RETRY_MILLIS`] and try once more.
    Retry,
    Refused(Failure),
}

pub enum DecisionView {
    Acquired,
    Retry,
    Refused(Seq<char>),
}

impl DeepView for LeaseDecision {
    type V = DecisionView;

    open spec fn deep_view(&self) -> DecisionView {
        match self {
            LeaseDecision::Acquired => DecisionView::Acquired,
            LeaseDecision::Retry => DecisionView::Retry,
            LeaseDecision::Refused(refusal) => DecisionView::Refused(refusal@),
        }
    }
}

/// What follows from the attempt of a number, counted from zero.
pub open spec fn decision(
    attempt: nat,
    outcome: LockAttempt,
    session_directory: Seq<char>,
    lease_path: Seq<char>,
) -> DecisionView {
    match outcome {
        LockAttempt::Locked => DecisionView::Acquired,
        LockAttempt::WouldBlock => if attempt == 0 {
            DecisionView::Retry
        } else {
            DecisionView::Refused(
                "another mutating operation is already active for session "@ + session_directory
                    + "; lease "@ + lease_path + " is held"@,
            )
        },
        LockAttempt::Error(cause) => DecisionView::Refused(
            failure::because("failed to acquire session operation lease "@ + lease_path, cause@),
        ),
    }
}

/// Decide what follows from an attempt to take the lock.
pub fn acquire(attempt: u32, outcome: LockAttempt, session_directory: &str, lease_path: &str) -> (decision:
    LeaseDecision)
    ensures
        decision.deep_view() == self::decision(
            attempt as nat,
            outcome,
            session_directory@,
            lease_path@,
        ),
{
    match outcome {
        LockAttempt::Locked => LeaseDecision::Acquired,
        LockAttempt::WouldBlock => if attempt == 0 {
            LeaseDecision::Retry
        } else {
            LeaseDecision::Refused(
                Failure::new(
                    "another mutating operation is already active for session ".to_owned().concat(
                        session_directory,
                    ).concat("; lease ").concat(lease_path).concat(" is held"),
                ),
            )
        },
        LockAttempt::Error(cause) => LeaseDecision::Refused(
            Failure::caused(
                "failed to acquire session operation lease ".to_owned().concat(lease_path),
                &cause,
            ),
        ),
    }
}

/// The lock is tried twice at most, and the lease is held exactly when an
/// attempt took the lock.
pub proof fn leases_are_decided_by_the_lock(
    attempt: nat,
    outcome: LockAttempt,
    session_directory: Seq<char>,
    lease_path: Seq<char>,
)
    ensures
        decision(attempt, outcome, session_directory, lease_path) == DecisionView::Acquired
            <==> outcome == LockAttempt::Locked,
        decision(attempt, outcome, session_directory, lease_path) == DecisionView::Retry ==> attempt
            == 0 && outcome == LockAttempt::WouldBlock,
{
}

} // verus!
