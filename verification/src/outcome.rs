//! How a run ends: the kinds of failure and the exit code of each.

use vstd::prelude::*;
use crate::ruleset::Answers;

verus! {

/// Why a run ends without success. No failure is retried.
#[derive(Clone, Debug, PartialEq, Eq)]
pub enum Failure {
    /// The setup is wrong: no ruleset was found, the one named does not
    /// exist, or there is no repository. Carries the message to print.
    Configuration(String),
    /// A queried path has no owner to show. Nothing is printed for it.
    ResolutionMiss,
    /// A range could not be resolved, or a commit, a tree or a diff could
    /// not be read. Carries the message to print.
    RangeOrDiff(String),
}

impl Failure {
    /// The exit code of the failure: 2 where a path has no owner to show,
    /// 1 for every other.
    pub open spec fn code(self) -> int {
        if self is ResolutionMiss {
            2
        } else {
            1
        }
    }

    /// The exit code of the failure.
    pub fn exit_code(&self) -> (code: i32)
        ensures
            code == self.code(),
    {
        match self {
            Failure::Configuration(_) => 1,
            Failure::ResolutionMiss => 2,
            Failure::RangeOrDiff(_) => 1,
        }
    }

    /// The message to print on the diagnostic stream, if the failure has
    /// one.
    pub fn message(&self) -> (message: Option<&String>)
        ensures
            self is ResolutionMiss <==> message is None,
            self matches Failure::Configuration(text) ==> message == Some(text),
            self matches Failure::RangeOrDiff(text) ==> message == Some(text),
    {
        match self {
            Failure::Configuration(text) => Some(text),
            Failure::ResolutionMiss => None,
            Failure::RangeOrDiff(text) => Some(text),
        }
    }
}

/// The exit code of a run: 0 for success, and else that of the failure.
pub fn exit_code(outcome: &Result<(), Failure>) -> (code: i32)
    ensures
        outcome is Ok ==> code == 0,
        outcome matches Err(failure) ==> code == failure.code(),
{
    match outcome {
        Ok(_) => 0,
        Err(failure) => failure.exit_code(),
    }
}

/// The outcome of a run of queries: a success if every query was answered,
/// and else the failure of the first that was not.
pub fn queries_outcome(answers: &Answers) -> (outcome: Result<(), Failure>)
    ensures
        answers.complete ==> outcome is Ok,
        !answers.complete ==> outcome == Err::<(), Failure>(Failure::ResolutionMiss),
{
    if answers.complete {
        Ok(())
    } else {
        Err(Failure::ResolutionMiss)
    }
}

} // verus!
