//! Property records, edges and the operations that a transaction can undo.

use vstd::prelude::*;
use crate::common::types::{EdgeId, LabelId, VertexId};
use crate::common::value::{value_models, ScalarValue, ValueModel};

verus! {

/// The properties of a vertex or an edge, by position.
#[derive(Debug, PartialEq, Eq)]
pub struct PropertyRecord {
    pub properties: Vec<ScalarValue>,
}

/// A copy of a list of values.
pub fn copy_values(values: &Vec<ScalarValue>) -> (r: Vec<ScalarValue>)
    ensures
        r@ == values@,
{
    let mut r: Vec<ScalarValue> = Vec::new();
    let mut i: usize = 0;
    while i < values.len()
        invariant
            i <= values.len(),
            r@ == values@.take(i as int),
        decreases values.len() - i,
    {
        r.push(values[i].clone());
        i = i + 1;
        assert(r@ =~= values@.take(i as int));
    }
    assert(values@.take(i as int) =~= values@);
    r
}

impl Default for PropertyRecord {
    fn default() -> (r: Self)
        ensures
            r.properties@ == Seq::<ScalarValue>::empty(),
    {
        PropertyRecord { properties: Vec::new() }
    }
}

impl Clone for PropertyRecord {
    fn clone(&self) -> (r: Self)
        ensures
            r.properties@ == self.properties@,
    {
        PropertyRecord { properties: copy_values(&self.properties) }
    }
}

impl PropertyRecord {
    pub fn new(properties: Vec<ScalarValue>) -> (r: Self)
        ensures
            r.properties@ == properties@,
    {
        PropertyRecord { properties }
    }

    /// Replaces the property at a position.
    pub fn set_prop(&mut self, index: usize, prop: ScalarValue)
        requires
            index < old(self).properties@.len(),
        ensures
            final(self).properties@ == old(self).properties@.update(index as int, prop),
    {
        self.properties[index] = prop;
    }

    /// The property at a position.
    pub fn get(&self, index: usize) -> (r: Option<&ScalarValue>)
        ensures
            r == (if index < self.properties@.len() {
                Some(&self.properties@[index as int])
            } else {
                None
            }),
    {
        if index < self.properties.len() {
            Some(&self.properties[index])
        } else {
            None
        }
    }
}

/// An edge with its identity.
#[derive(Debug)]
pub struct Edge {
    pub eid: EdgeId,
    pub src_id: VertexId,
    pub dst_id: VertexId,
    pub label_id: LabelId,
    pub properties: PropertyRecord,
}

impl Edge {
    pub fn new(
        eid: EdgeId,
        src_id: VertexId,
        dst_id: VertexId,
        label_id: LabelId,
        properties: PropertyRecord,
    ) -> (r: Edge)
        ensures
            r == (Edge { eid, src_id, dst_id, label_id, properties }),
    {
        Edge { eid, src_id, dst_id, label_id, properties }
    }

    pub fn eid(&self) -> (r: EdgeId)
        ensures
            r == self.eid,
    {
        self.eid
    }
}

/// A vertex with its identity.
#[derive(Debug)]
pub struct Vertex {
    pub vid: VertexId,
    pub label_id: LabelId,
    pub properties: PropertyRecord,
}

impl Vertex {
    pub fn new(vid: VertexId, label_id: LabelId, properties: PropertyRecord) -> (r: Vertex)
        ensures
            r == (Vertex { vid, label_id, properties }),
    {
        Vertex { vid, label_id, properties }
    }
}

/// What a graph consists of.
#[derive(Debug)]
pub struct GraphData {
    pub vertices: Vec<Vertex>,
    pub edges: Vec<Edge>,
}

/// A vertex without regard to how it is stored.
#[verifier::ext_equal]
pub struct VertexData {
    pub vid: VertexId,
    pub label_id: LabelId,
    pub properties: Seq<ValueModel>,
}

/// An edge without regard to how it is stored.
#[verifier::ext_equal]
pub struct EdgeData {
    pub eid: EdgeId,
    pub src_id: VertexId,
    pub dst_id: VertexId,
    pub label_id: LabelId,
    pub properties: Seq<ValueModel>,
}

impl View for Vertex {
    type V = VertexData;

    open spec fn view(&self) -> VertexData {
        VertexData {
            vid: self.vid,
            label_id: self.label_id,
            properties: value_models(self.properties.properties@),
        }
    }
}

impl View for Edge {
    type V = EdgeData;

    open spec fn view(&self) -> EdgeData {
        EdgeData {
            eid: self.eid,
            src_id: self.src_id,
            dst_id: self.dst_id,
            label_id: self.label_id,
            properties: value_models(self.properties.properties@),
        }
    }
}

/// Vertices without regard to how they are stored.
pub open spec fn vertex_data(vertices: Seq<Vertex>) -> Seq<VertexData> {
    vertices.map_values(|v: Vertex| v@)
}

/// Edges without regard to how they are stored.
pub open spec fn edge_data(edges: Seq<Edge>) -> Seq<EdgeData> {
    edges.map_values(|e: Edge| e@)
}

/// Positions of properties and the values that stood there.
#[derive(Debug)]
pub struct SetPropsOp {
    pub indices: Vec<usize>,
    pub props: Vec<ScalarValue>,
}

/// A change that a transaction made.
#[derive(Debug)]
pub enum DeltaOp {
    DelVertex(VertexId),
    DelEdge(EdgeId),
    CreateVertex(VertexId),
    CreateEdge(Edge),
    SetVertexProps(VertexId, SetPropsOp),
    SetEdgeProps(EdgeId, SetPropsOp),
    AddLabel(LabelId),
    RemoveLabel(LabelId),
}

} // verus!
