//! Errors of sessions.

use vstd::prelude::*;
use crate::execution::error::ExecutionError;
use crate::planner::binder::error::NotImplemented;
use crate::planner::error::PlanError;

verus! {

#[derive(Debug)]
pub enum Error {
    Parser(String),
    Plan(PlanError),
    Catalog(String),
    Execution(ExecutionError),
    Runtime(String),
    /// What a session refers to is not there.
    Session(String),
    SessionClosed,
    NotImplemented(NotImplemented),
}

pub type EngineResult<T> = Result<T, Error>;

/// The error says that a feature is not there.
pub open spec fn is_not_implemented(e: Error, feature: Seq<char>) -> bool {
    match e {
        Error::NotImplemented(n) => n.feature@ == feature && n.issue is None,
        _ => false,
    }
}

/// The error for a feature that is not there.
pub fn not_implemented(feature: &str) -> (r: Error)
    ensures
        is_not_implemented(r, feature@),
{
    Error::NotImplemented(NotImplemented { feature: feature.to_owned(), issue: None })
}

} // verus!
