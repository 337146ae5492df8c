//! The errors that session operations report.

use crate::text::{decimal, push_decimal, push_str};
use vstd::prelude::*;

verus! {

/// Why a session operation failed.
#[derive(Debug, PartialEq, Eq)]
pub enum SessionError {
    /// The rollout file that a target resolved to does not exist.
    RolloutNotFound(String),
    /// The rollout records fewer steps than the step asked for.
    NoResponseAtStep(usize),
    /// No rollout file belongs to the session id.
    NoRolloutForSession(String),
    /// The session already has a branch of that name.
    BranchExists(String),
    /// The session has no branch of that name.
    BranchNotFound(String),
    /// The session has no branch index.
    NoBranches,
    /// The branch index is no JSON object, or its branches are no array.
    MalformedIndex,
}

impl SessionError {
    /// The one-line message of this error.
    pub open spec fn message_text(self) -> Seq<char> {
        match self {
            SessionError::RolloutNotFound(path) => "rollout file not found: "@ + path@,
            SessionError::NoResponseAtStep(step) => "No response id found at step "@ + decimal(
                step as nat,
            ),
            SessionError::NoRolloutForSession(id) => "No rollout found for session id: "@ + id@,
            SessionError::BranchExists(name) => "Branch already exists: "@ + name@,
            SessionError::BranchNotFound(name) => "Branch not found: "@ + name@,
            SessionError::NoBranches => "No branches found for this session"@,
            SessionError::MalformedIndex => "Branch index is malformed"@,
        }
    }

    /// The one-line message of this error.
    pub fn message(&self) -> (s: String)
        ensures
            s@ == self.message_text(),
    {
        let mut s = String::new();
        match self {
            SessionError::RolloutNotFound(path) => {
                push_str(&mut s, "rollout file not found: ");
                push_str(&mut s, path.as_str());
            },
            SessionError::NoResponseAtStep(step) => {
                push_str(&mut s, "No response id found at step ");
                push_decimal(&mut s, *step);
            },
            SessionError::NoRolloutForSession(id) => {
                push_str(&mut s, "No rollout found for session id: ");
                push_str(&mut s, id.as_str());
            },
            SessionError::BranchExists(name) => {
                push_str(&mut s, "Branch already exists: ");
                push_str(&mut s, name.as_str());
            },
            SessionError::BranchNotFound(name) => {
                push_str(&mut s, "Branch not found: ");
                push_str(&mut s, name.as_str());
            },
            SessionError::NoBranches => {
                push_str(&mut s, "No branches found for this session");
            },
            SessionError::MalformedIndex => {
                push_str(&mut s, "Branch index is malformed");
            },
        }
        s
    }
}

} // verus!
