//! Errors of the planner.

use vstd::prelude::*;
use crate::planner::binder::error::NotImplemented;

verus! {

#[derive(Debug, PartialEq, Eq)]
pub enum PlanError {
    NotImplemented(NotImplemented),
}

pub type PlanResult<T> = Result<T, PlanError>;

/// What a plan cannot have yet: the feature, with the number of the issue that tracks it.
pub struct Missing {
    pub feature: Seq<char>,
    pub issue: Option<u32>,
}

/// The error says that a feature is not there.
pub open spec fn is_missing(e: PlanError, missing: Missing) -> bool {
    match e {
        PlanError::NotImplemented(n) => n.feature@ == missing.feature && n.issue == missing.issue,
    }
}

/// The error for a feature that is not there.
pub fn not_implemented(feature: &str, issue: Option<u32>) -> (r: PlanError)
    ensures
        is_missing(r, (Missing { feature: feature@, issue })),
{
    PlanError::NotImplemented(NotImplemented { feature: feature.to_owned(), issue })
}

} // verus!
