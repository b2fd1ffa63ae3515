//! Errors of execution.

use vstd::prelude::*;

verus! {

#[derive(Debug, PartialEq, Eq)]
pub enum ExecutionError {
    Custom(String),
}

pub type ExecutionResult<T> = Result<T, ExecutionError>;

/// The text of an error.
pub open spec fn error_text(e: ExecutionError) -> Seq<char> {
    match e {
        ExecutionError::Custom(text) => text@,
    }
}

/// An error with a text.
pub fn execution_error(text: &str) -> (r: ExecutionError)
    ensures
        error_text(r) == text@,
{
    ExecutionError::Custom(text.to_owned())
}

/// An error with a name between two pieces of text.
pub fn named_error(head: &str, name: &str, tail: &str) -> (r: ExecutionError)
    ensures
        error_text(r) == head@ + name@ + tail@,
{
    let mut text = head.to_owned();
    text.append(name);
    text.append(tail);
    ExecutionError::Custom(text)
}

} // verus!
