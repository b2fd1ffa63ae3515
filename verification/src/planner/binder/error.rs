//! Errors of the binder.

use vstd::prelude::*;
use crate::common::data_type::LogicalType;

verus! {

/// A feature that is not there, with the number of the issue that tracks it.
#[derive(Debug, PartialEq, Eq)]
pub struct NotImplemented {
    pub feature: String,
    pub issue: Option<u32>,
}

#[derive(Debug)]
pub enum BindError {
    NotImplemented(NotImplemented),
    NotCatalogProcedure(String),
    CreateVectorIndexBindingMismatch { binding: String, property_binding: String },
    CurrentGraphNotSpecified,
    LabelNotFound(String),
    PropertyNotFound { label: String, property: String },
    PropertyNotVector { label: String, property: String, ty: LogicalType },
    VectorIndexNameAlreadyExists { name: String },
    VectorIndexAlreadyExists { label: String, property: String },
    VectorIndexNotFound { name: String },
    InvalidObjectReference(Vec<String>),
    InvalidInteger(String),
    UnsupportedValueType,
}

pub type BindResult<T> = Result<T, BindError>;

/// The error says that a feature is not there, without an issue.
pub open spec fn is_not_implemented(e: BindError, feature: Seq<char>) -> bool {
    match e {
        BindError::NotImplemented(n) => n.feature@ == feature && n.issue is None,
        _ => false,
    }
}

/// The error for a feature that is not there.
pub fn not_implemented(feature: &str) -> (r: BindError)
    ensures
        is_not_implemented(r, feature@),
{
    BindError::NotImplemented(NotImplemented { feature: feature.to_owned(), issue: None })
}

} // verus!
