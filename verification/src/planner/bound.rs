//! Statements with every name resolved.

use vstd::prelude::*;
use std::sync::Arc;
use crate::catalog::label_set::LabelSet;
use crate::catalog::schema::{GraphRef, ProcedureRef, VectorIndexCatalogEntry};
use crate::common::data_type::{DataField, DataSchema, LabelSpecs, LogicalType};
use crate::common::types::{VectorIndexKey, VectorMetric};
use crate::common::value::ScalarValue;

verus! {

// ---------------------------------------------------------------------------------------------
// Type elements
// ---------------------------------------------------------------------------------------------

/// A vertex or edge type.
#[derive(Debug)]
pub enum BoundGraphElementType {
    Vertex(Box<BoundVertexType>),
    Edge(Box<BoundEdgeType>),
}

#[derive(Debug)]
pub struct BoundVertexType {
    pub name: Option<String>,
    /// The same as the labels.
    pub key: LabelSet,
    pub labels: LabelSet,
    pub properties: Vec<DataField>,
}

#[derive(Debug)]
pub struct BoundEdgeType {
    pub name: Option<String>,
    /// The same as the labels.
    pub key: LabelSet,
    pub labels: LabelSet,
    pub properties: Vec<DataField>,
    pub direction: EdgeDirection,
    pub left: NodeTypeRef,
    pub right: NodeTypeRef,
}

#[derive(Clone, Copy, Debug, PartialEq, Eq, Structural)]
pub enum EdgeDirection {
    LeftToRight,
    RightToLeft,
    Undirected,
}

/// The type of an end of an edge.
#[derive(Debug)]
pub enum NodeTypeRef {
    /// A type by its name.
    Alias(String),
    /// An inline definition.
    Filler(NodeOrEdgeTypeFiller),
    /// No constraint.
    Empty,
}

#[derive(Debug)]
pub struct NodeOrEdgeTypeFiller {
    pub key: Option<LabelSet>,
    pub label_set: Option<LabelSet>,
    pub properties: Option<Vec<DataField>>,
}

/// The type of a graph.
#[derive(Debug)]
pub enum BoundGraphType {
    /// A graph type of the catalog, by its name.
    Ref(String),
    /// An inline definition.
    Nested(Vec<BoundGraphElementType>),
}

// ---------------------------------------------------------------------------------------------
// Statements that change the catalog
// ---------------------------------------------------------------------------------------------

#[derive(Clone, Copy, Debug, PartialEq, Eq, Structural)]
pub enum CreateKind {
    Create,
    CreateIfNotExists,
    CreateOrReplace,
}

/// A graph with the name under which it was found.
#[derive(Debug)]
pub struct NamedGraphRef {
    pub name: String,
    pub object: GraphRef,
}

/// A procedure with the name under which it was found.
#[derive(Debug)]
pub struct NamedProcedureRef {
    pub name: String,
    pub object: ProcedureRef,
}

/// A call of a procedure.
#[derive(Debug)]
pub struct BoundCallProcedureStatement {
    pub optional: bool,
    pub procedure: NamedProcedureRef,
    pub args: Arc<Vec<ScalarValue>>,
    /// The columns that the call yields, where it yields any.
    pub yield_schema: Option<Arc<DataSchema>>,
}

impl BoundCallProcedureStatement {
    /// Whether the call yields columns.
    pub fn has_schema(&self) -> (r: bool)
        ensures
            r == self.yield_schema is Some,
    {
        self.yield_schema.is_some()
    }

    /// The name of the procedure.
    pub fn name(&self) -> (r: String)
        ensures
            r == self.procedure.name,
    {
        self.procedure.name.clone()
    }
}

#[derive(Debug)]
pub struct BoundCreateSchemaStatement {
    pub schema_path: Vec<String>,
    pub if_not_exists: bool,
}

#[derive(Debug)]
pub struct BoundDropSchemaStatement {
    pub schema_path: Vec<String>,
    pub if_exists: bool,
}

#[derive(Debug)]
pub struct BoundCreateGraphStatement {
    pub name: String,
    pub kind: CreateKind,
    pub graph_type: BoundGraphType,
    pub source: Option<NamedGraphRef>,
}

#[derive(Debug)]
pub struct BoundDropGraphStatement {
    pub name: String,
    pub if_exists: bool,
}

#[derive(Debug)]
pub struct BoundCreateGraphTypeStatement {
    pub name: String,
    pub kind: CreateKind,
    pub source: BoundGraphType,
}

#[derive(Debug)]
pub struct BoundDropGraphTypeStatement {
    pub name: String,
    pub if_exists: bool,
}

#[derive(Debug)]
pub struct BoundCreateVectorIndexStatement {
    pub name: String,
    pub if_not_exists: bool,
    pub index_key: VectorIndexKey,
    pub metric: VectorMetric,
    pub dimension: usize,
    pub label: String,
    pub property: String,
    /// The index exists and that is no error: there is nothing to do.
    pub no_op: bool,
}

#[derive(Debug)]
pub struct BoundDropVectorIndexStatement {
    pub name: String,
    pub if_exists: bool,
    pub index_key: Option<VectorIndexKey>,
    pub metadata: Option<VectorIndexCatalogEntry>,
    /// The index does not exist and that is no error: there is nothing to do.
    pub no_op: bool,
}

#[derive(Debug)]
pub enum BoundCatalogModifyingStatement {
    Call(BoundCallProcedureStatement),
    CreateSchema(BoundCreateSchemaStatement),
    DropSchema(BoundDropSchemaStatement),
    CreateGraph(BoundCreateGraphStatement),
    CreateVectorIndex(BoundCreateVectorIndexStatement),
    DropVectorIndex(BoundDropVectorIndexStatement),
    DropGraph(BoundDropGraphStatement),
    CreateGraphType(BoundCreateGraphTypeStatement),
    DropGraphType(BoundDropGraphTypeStatement),
}

// ---------------------------------------------------------------------------------------------
// Expressions
// ---------------------------------------------------------------------------------------------

/// An expression with its type.
#[derive(Debug)]
pub struct BoundExpr {
    pub kind: BoundExprKind,
    pub logical_type: LogicalType,
    pub nullable: bool,
}

#[derive(Debug)]
pub enum BoundExprKind {
    Value(ScalarValue),
    Variable(String),
    /// A property of what a variable is bound to.
    Property { binding: String, property: String },
    VectorDistance {
        lhs: Arc<BoundExpr>,
        rhs: Arc<BoundExpr>,
        metric: VectorMetric,
        dimension: usize,
    },
}

#[derive(Clone, Copy, Debug, PartialEq, Eq, Structural)]
pub enum SortOrdering {
    Ascending,
    Descending,
}

#[derive(Clone, Copy, Debug, PartialEq, Eq, Structural)]
pub enum NullOrdering {
    First,
    Last,
}

#[derive(Debug)]
pub struct BoundSortSpec {
    pub key: Arc<BoundExpr>,
    pub ordering: SortOrdering,
    pub null_ordering: NullOrdering,
}

// ---------------------------------------------------------------------------------------------
// Patterns
// ---------------------------------------------------------------------------------------------

#[derive(Debug)]
pub struct BoundVertexPattern {
    pub var: String,
    pub label: LabelSpecs,
}

#[derive(Clone, Copy, Debug, PartialEq, Eq, Structural)]
pub enum BoundEdgePatternKind {
    Left,
    LeftUndirected,
    LeftRight,
    Right,
    RightUndirected,
    Undirected,
    Any,
}

#[derive(Debug)]
pub struct BoundEdgePattern {
    pub var: Option<String>,
    pub kind: BoundEdgePatternKind,
    pub label: LabelSpecs,
}

#[derive(Debug)]
pub enum BoundElementPattern {
    Vertex(Arc<BoundVertexPattern>),
    Edge(Arc<BoundEdgePattern>),
}

#[derive(Debug)]
pub enum BoundPathPatternExpr {
    Union(Vec<BoundPathPatternExpr>),
    Alternation(Vec<BoundPathPatternExpr>),
    Concat(Vec<BoundPathPatternExpr>),
    Quantified { path: Box<BoundPathPatternExpr>, min: usize, max: Option<usize> },
    Optional(Box<BoundPathPatternExpr>),
    Subpath(Box<BoundPathPatternExpr>),
    Pattern(BoundElementPattern),
}

#[derive(Debug)]
pub struct BoundGraphPattern {
    pub paths: Vec<BoundPathPatternExpr>,
    pub predicate: Option<Arc<BoundExpr>>,
}

} // verus!
