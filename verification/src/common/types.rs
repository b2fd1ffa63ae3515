//! Identifiers.

use vstd::prelude::*;

verus! {

pub type VertexId = u64;

pub type EdgeId = u64;

/// A label or type identifier. Identifiers handed out by [`LabelId::new`] are never zero.
#[derive(Clone, Copy, Debug, PartialEq, Eq, PartialOrd, Ord, Hash, Structural)]
pub struct LabelId {
    pub raw: u32,
}

impl LabelId {
    pub open spec fn wf(self) -> bool {
        self.raw != 0
    }

    /// The identifier with this number; zero is none.
    pub fn new(raw: u32) -> (r: Option<LabelId>)
        ensures
            r == (if raw == 0 {
                None
            } else {
                Some(LabelId { raw })
            }),
    {
        if raw == 0 {
            None
        } else {
            Some(LabelId { raw })
        }
    }

    pub fn get(self) -> (r: u32)
        ensures
            r == self.raw,
    {
        self.raw
    }
}

/// The order of optional labels: no label comes before every label.
pub open spec fn label_rank(l: Option<LabelId>) -> int {
    match l {
        None => -1,
        Some(id) => id.raw as int,
    }
}

pub fn label_less(a: Option<LabelId>, b: Option<LabelId>) -> (r: bool)
    ensures
        r == (label_rank(a) < label_rank(b)),
{
    match (a, b) {
        (None, None) => false,
        (None, Some(_)) => true,
        (Some(_), None) => false,
        (Some(x), Some(y)) => x.raw < y.raw,
    }
}

/// What a vector index is on: a label and a property.
#[derive(Clone, Copy, Debug, PartialEq, Eq, Hash, Structural)]
pub struct VectorIndexKey {
    pub label_id: LabelId,
    pub property_id: u32,
}

impl VectorIndexKey {
    pub fn new(label_id: LabelId, property_id: u32) -> (r: Self)
        ensures
            r == (VectorIndexKey { label_id, property_id }),
    {
        VectorIndexKey { label_id, property_id }
    }
}

/// How the distance between vectors is measured.
#[derive(Clone, Copy, Debug, PartialEq, Eq, Hash, Structural)]
pub enum VectorMetric {
    L2,
}

} // verus!
