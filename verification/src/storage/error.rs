//! Errors of the storage layer.

use vstd::prelude::*;
use crate::common::text::{decimal, numbered};
use crate::transaction::TimestampError;

verus! {

#[derive(Debug, PartialEq, Eq)]
pub enum EdgeNotFoundError {
    EdgeNotFound(String),
}

#[derive(Debug, PartialEq, Eq)]
pub enum VertexNotFoundError {
    VertexNotFound(String),
}

#[derive(Debug, PartialEq, Eq)]
pub enum TransactionError {
    Timestamp(TimestampError),
    TransactionAlreadyCommitted(String),
}

#[derive(Debug, PartialEq, Eq)]
pub enum StorageError {
    EdgeNotFound(EdgeNotFoundError),
    VertexNotFound(VertexNotFoundError),
    Transaction(TransactionError),
    NotSupported(String),
}

pub type StorageResult<T> = Result<T, StorageError>;

impl StorageError {
    /// The error reports a missing edge, with this message.
    pub open spec fn is_edge_not_found(self, message: Seq<char>) -> bool {
        match self {
            StorageError::EdgeNotFound(EdgeNotFoundError::EdgeNotFound(text)) => text@ == message,
            _ => false,
        }
    }

    /// The error reports a missing vertex, with this message.
    pub open spec fn is_vertex_not_found(self, message: Seq<char>) -> bool {
        match self {
            StorageError::VertexNotFound(VertexNotFoundError::VertexNotFound(text)) => text@
                == message,
            _ => false,
        }
    }

    /// The error reports a request that is not supported, with this message.
    pub open spec fn is_not_supported(self, message: Seq<char>) -> bool {
        match self {
            StorageError::NotSupported(text) => text@ == message,
            _ => false,
        }
    }

    /// The error reports a second end of a transaction, with this message.
    pub open spec fn is_already_committed(self, message: Seq<char>) -> bool {
        match self {
            StorageError::Transaction(TransactionError::TransactionAlreadyCommitted(text)) => text@
                == message,
            _ => false,
        }
    }
}

/// `Edge {eid} not found`
pub open spec fn edge_missing(eid: u64) -> Seq<char> {
    "Edge "@ + decimal(eid as nat) + " not found"@
}

/// `Edge block {index} not found`
pub open spec fn edge_block_missing(index: u64) -> Seq<char> {
    "Edge block "@ + decimal(index as nat) + " not found"@
}

/// `Vertex {vid} not found`
pub open spec fn vertex_missing(vid: u64) -> Seq<char> {
    "Vertex "@ + decimal(vid as nat) + " not found"@
}

/// `Source vertex {vid} not found`
pub open spec fn source_vertex_missing(vid: u64) -> Seq<char> {
    "Source vertex "@ + decimal(vid as nat) + " not found"@
}

pub fn edge_not_found(eid: u64) -> (r: StorageError)
    ensures
        r.is_edge_not_found(edge_missing(eid)),
{
    StorageError::EdgeNotFound(
        EdgeNotFoundError::EdgeNotFound(numbered("Edge ", eid, " not found")),
    )
}

pub fn edge_block_not_found(index: usize) -> (r: StorageError)
    ensures
        r.is_edge_not_found(edge_block_missing(index as u64)),
{
    StorageError::EdgeNotFound(
        EdgeNotFoundError::EdgeNotFound(numbered("Edge block ", index as u64, " not found")),
    )
}

/// A vertex whose edge block is missing is reported as a missing edge.
pub fn vertex_block_not_found(vid: u64) -> (r: StorageError)
    ensures
        r.is_edge_not_found(vertex_missing(vid)),
{
    StorageError::EdgeNotFound(
        EdgeNotFoundError::EdgeNotFound(numbered("Vertex ", vid, " not found")),
    )
}

pub fn vertex_not_found(vid: u64) -> (r: StorageError)
    ensures
        r.is_vertex_not_found(vertex_missing(vid)),
{
    StorageError::VertexNotFound(
        VertexNotFoundError::VertexNotFound(numbered("Vertex ", vid, " not found")),
    )
}

pub fn source_vertex_not_found(vid: u64) -> (r: StorageError)
    ensures
        r.is_vertex_not_found(source_vertex_missing(vid)),
{
    StorageError::VertexNotFound(
        VertexNotFoundError::VertexNotFound(numbered("Source vertex ", vid, " not found")),
    )
}

} // verus!
