//! Statements as the parser gives them.

use vstd::prelude::*;

verus! {

#[derive(Debug)]
pub struct CreateSchemaStatement {
    pub path: Vec<String>,
    pub if_not_exists: bool,
}

#[derive(Debug)]
pub struct DropSchemaStatement {
    pub path: Vec<String>,
    pub if_exists: bool,
}

#[derive(Clone, Copy, Debug, PartialEq, Eq, Structural)]
pub enum CreateGraphOrGraphTypeStatementKind {
    Create,
    CreateIfNotExists,
    CreateOrReplace,
}

#[derive(Debug)]
pub struct CreateGraphStatement {
    pub path: Vec<String>,
    pub kind: CreateGraphOrGraphTypeStatementKind,
    pub graph_type: OfGraphType,
}

#[derive(Debug)]
pub struct DropGraphStatement {
    pub path: Vec<String>,
    pub if_exists: bool,
}

#[derive(Debug)]
pub struct CreateGraphTypeStatement {
    pub path: Vec<String>,
    pub kind: CreateGraphOrGraphTypeStatementKind,
}

#[derive(Debug)]
pub struct DropGraphTypeStatement {
    pub path: Vec<String>,
    pub if_exists: bool,
}

/// `CREATE VECTOR INDEX name FOR (binding:label) ON (property_binding.property)`
#[derive(Debug)]
pub struct CreateVectorIndexStatement {
    pub name: String,
    pub if_not_exists: bool,
    pub binding: String,
    pub label: String,
    pub property_binding: String,
    pub property: String,
}

#[derive(Debug)]
pub struct DropVectorIndexStatement {
    pub name: String,
    pub if_exists: bool,
}

/// Where the type of a new graph comes from.
#[derive(Debug)]
pub enum OfGraphType {
    /// An inline definition.
    Nested(Vec<GraphElementType>),
    /// A graph type by its path.
    Ref(Vec<String>),
    /// The type of another graph, by its path.
    Like(Vec<String>),
    /// No constraint.
    Any,
}

#[derive(Debug)]
pub enum GraphElementType {
    Node(NodeType),
    Edge(EdgeType),
}

#[derive(Debug)]
pub struct NodeType {
    pub name: Option<String>,
    pub filler: Option<NodeOrEdgeTypeFiller>,
}

#[derive(Debug)]
pub enum EdgeType {
    Pattern(EdgeTypePattern),
    Phrase(EdgeTypePhrase),
}

#[derive(Clone, Copy, Debug, PartialEq, Eq, Structural)]
pub enum EdgeDirection {
    LeftToRight,
    RightToLeft,
    Undirected,
}

#[derive(Debug)]
pub struct EdgeTypePattern {
    pub name: Option<String>,
    pub direction: EdgeDirection,
    pub left: NodeTypeRef,
    pub filler: NodeOrEdgeTypeFiller,
    pub right: NodeTypeRef,
}

#[derive(Debug)]
pub struct EdgeTypePhrase {
    pub name: Option<String>,
    pub direction: EdgeDirection,
    pub left: String,
    pub filler: Option<NodeOrEdgeTypeFiller>,
    pub right: String,
}

#[derive(Debug)]
pub enum NodeTypeRef {
    Alias(String),
    Filler(NodeOrEdgeTypeFiller),
    Empty,
}

#[derive(Debug)]
pub struct NodeOrEdgeTypeFiller {
    pub label_set: Option<Vec<String>>,
    pub property_types: Option<Vec<FieldOrPropertyType>>,
}

#[derive(Debug)]
pub struct FieldOrPropertyType {
    pub name: String,
    pub value_type: ValueType,
}

#[derive(Debug)]
#[allow(inconsistent_fields)]
pub enum ValueType {
    String { not_null: bool },
    SignedNumeric { kind: NumericTypeKind, not_null: bool },
    UnsignedNumeric { kind: NumericTypeKind, not_null: bool },
    Float { kind: FloatTypeKind, not_null: bool },
    Bool { not_null: bool },
    Temporal { kind: TemporalTypeKind, not_null: bool },
    /// A vector; the dimension is the text of an integer.
    Vector { dimension: String, not_null: bool },
    Path,
    List,
    Record,
    Any,
}

#[derive(Clone, Copy, Debug, PartialEq, Eq, Structural)]
pub enum NumericTypeKind {
    Int8,
    Int16,
    Int32,
    Int64,
    Int128,
    Int256,
    Small,
    /// `INT`, with a precision where one is given.
    Int(Option<u32>),
    Big,
}

#[derive(Clone, Copy, Debug, PartialEq, Eq, Structural)]
pub enum FloatTypeKind {
    Float16,
    Float32,
    Float64,
    Float128,
    Float256,
    /// `FLOAT`, with precision and scale where they are given.
    Float { precision: Option<u32>, scale: Option<u32> },
    Real,
    Double,
}

#[derive(Clone, Copy, Debug, PartialEq, Eq, Structural)]
pub enum TemporalTypeKind {
    Datetime,
    LocalDatetime,
    Date,
    Time,
    LocalTime,
    Duration,
}

} // verus!
