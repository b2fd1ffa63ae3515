//! Binding the definitions of vertex and edge types.

use vstd::prelude::*;
use std::collections::hash_map::DefaultHasher;
use std::hash::{Hash, Hasher};
use vstd::std_specs::hash::DefaultHasherAdditionalSpecFns;
use crate::catalog::label_set::LabelSet;
use crate::common::data_type::{DataField, LogicalType};
use crate::common::parse::{parse_unsigned, unsigned_value};
use crate::common::types::LabelId;
use crate::planner::ast::{
    EdgeDirection as AstEdgeDirection, EdgeType, EdgeTypePattern, EdgeTypePhrase,
    FieldOrPropertyType, FloatTypeKind, GraphElementType, NodeOrEdgeTypeFiller, NodeType,
    NodeTypeRef as AstNodeTypeRef, NumericTypeKind, TemporalTypeKind, ValueType,
};
use crate::planner::binder::error::{BindError, BindResult};
use crate::planner::bound::{
    BoundEdgeType, BoundGraphElementType, BoundVertexType, EdgeDirection,
    NodeOrEdgeTypeFiller as BoundNodeOrEdgeFiller, NodeTypeRef,
};

verus! {

// ---------------------------------------------------------------------------------------------
// Labels
// ---------------------------------------------------------------------------------------------

/// What hashing a text writes to a hasher.
pub uninterp spec fn text_hash_input(text: Seq<char>) -> Seq<Seq<u8>>;

/// `std::hash::Hash::hash` of a text: writes to the hasher what depends on the text alone.
#[verifier::external_body]
fn hash_text(text: &str, hasher: &mut DefaultHasher)
    ensures
        final(hasher)@ == old(hasher)@ + text_hash_input(text@),
{
    text.hash(hasher);
}

/// The hash of a label's name.
pub open spec fn label_hash(name: Seq<char>) -> u64 {
    DefaultHasher::spec_finish(Seq::<Seq<u8>>::empty() + text_hash_input(name))
}

/// The label that a hash stands for: its lower half, and one in place of zero.
pub open spec fn label_of_hash(hash: u64) -> LabelId {
    if hash % 0x1_0000_0000 == 0 {
        LabelId { raw: 1 }
    } else {
        LabelId { raw: (hash % 0x1_0000_0000) as u32 }
    }
}

/// The label that a hash stands for.
pub fn label_from_hash(hash: u64) -> (r: LabelId)
    ensures
        r == label_of_hash(hash),
        r.wf(),
{
    let low: u32 = (hash % 0x1_0000_0000) as u32;
    if low == 0 {
        LabelId { raw: 1 }
    } else {
        LabelId { raw: low }
    }
}

/// The label of a name.
pub fn string_to_label_id(label: &str) -> (r: LabelId)
    ensures
        r == label_of_hash(label_hash(label@)),
        r.wf(),
{
    let mut hasher = DefaultHasher::new();
    hash_text(label, &mut hasher);
    label_from_hash(hasher.finish())
}

/// The labels of some names.
pub open spec fn labels_of(names: Seq<String>) -> Seq<LabelId> {
    names.map_values(|name: String| label_of_hash(label_hash(name@)))
}

/// The set has the labels of some names, and no others.
pub open spec fn is_label_set_of(set: LabelSet, names: Seq<String>) -> bool {
    &&& set.wf()
    &&& forall|id: LabelId| #[trigger] set@.contains(id) <==> labels_of(names).contains(id)
}

// ---------------------------------------------------------------------------------------------
// Types of values
// ---------------------------------------------------------------------------------------------

pub open spec fn signed_type(kind: NumericTypeKind) -> Option<LogicalType> {
    match kind {
        NumericTypeKind::Int8 => Some(LogicalType::Int8),
        NumericTypeKind::Int16 | NumericTypeKind::Small => Some(LogicalType::Int16),
        NumericTypeKind::Int32 | NumericTypeKind::Int(_) => Some(LogicalType::Int32),
        NumericTypeKind::Int64 | NumericTypeKind::Big => Some(LogicalType::Int64),
        _ => None,
    }
}

pub open spec fn unsigned_type(kind: NumericTypeKind) -> Option<LogicalType> {
    match kind {
        NumericTypeKind::Int8 => Some(LogicalType::UInt8),
        NumericTypeKind::Int16 | NumericTypeKind::Small => Some(LogicalType::UInt16),
        NumericTypeKind::Int32 | NumericTypeKind::Int(_) => Some(LogicalType::UInt32),
        NumericTypeKind::Int64 | NumericTypeKind::Big => Some(LogicalType::UInt64),
        _ => None,
    }
}

pub open spec fn float_type(kind: FloatTypeKind) -> Option<LogicalType> {
    match kind {
        FloatTypeKind::Float16 | FloatTypeKind::Real | FloatTypeKind::Float32 => Some(
            LogicalType::Float32,
        ),
        FloatTypeKind::Float64 | FloatTypeKind::Double | FloatTypeKind::Float { .. } => Some(
            LogicalType::Float64,
        ),
        _ => None,
    }
}

/// Dates are kept as text; other temporal types are not supported.
pub open spec fn temporal_type(kind: TemporalTypeKind) -> Option<LogicalType> {
    match kind {
        TemporalTypeKind::Date => Some(LogicalType::String),
        _ => None,
    }
}

/// The logical type of a value type, where it is supported and well formed.
pub open spec fn logical_type_of(value_type: ValueType) -> Option<LogicalType> {
    match value_type {
        ValueType::String { .. } => Some(LogicalType::String),
        ValueType::SignedNumeric { kind, .. } => signed_type(kind),
        ValueType::UnsignedNumeric { kind, .. } => unsigned_type(kind),
        ValueType::Float { kind, .. } => float_type(kind),
        ValueType::Bool { .. } => Some(LogicalType::Boolean),
        ValueType::Temporal { kind, .. } => temporal_type(kind),
        ValueType::Vector { dimension, .. } => match unsigned_value(
            dimension@,
            usize::MAX as nat,
        ) {
            Some(n) => Some(LogicalType::Vector(n as usize)),
            None => None,
        },
        _ => None,
    }
}

/// What is wrong with a value type that has no logical type.
pub open spec fn is_type_error(e: BindError, value_type: ValueType) -> bool {
    match value_type {
        ValueType::Vector { dimension, .. } => e matches BindError::InvalidInteger(text) && text
            == dimension,
        _ => e is UnsupportedValueType,
    }
}

/// The type excludes null.
pub open spec fn excludes_null(value_type: ValueType) -> bool {
    match value_type {
        ValueType::String { not_null } => not_null,
        ValueType::SignedNumeric { not_null, .. } => not_null,
        ValueType::UnsignedNumeric { not_null, .. } => not_null,
        ValueType::Float { not_null, .. } => not_null,
        ValueType::Bool { not_null } => not_null,
        ValueType::Temporal { not_null, .. } => not_null,
        ValueType::Vector { not_null, .. } => not_null,
        _ => false,
    }
}

/// What an optional type is as a result: the type, or that the type is not supported.
fn supported(ty: Option<LogicalType>) -> (r: BindResult<LogicalType>)
    ensures
        match ty {
            Some(t) => r matches Ok(x) && x == t,
            None => r matches Err(e) && e is UnsupportedValueType,
        },
{
    match ty {
        Some(t) => Ok(t),
        None => Err(BindError::UnsupportedValueType),
    }
}

fn bind_signed_numeric_type(kind: &NumericTypeKind) -> (r: BindResult<LogicalType>)
    ensures
        match signed_type(*kind) {
            Some(t) => r matches Ok(x) && x == t,
            None => r matches Err(e) && e is UnsupportedValueType,
        },
{
    supported(
        match kind {
            NumericTypeKind::Int8 => Some(LogicalType::Int8),
            NumericTypeKind::Int16 | NumericTypeKind::Small => Some(LogicalType::Int16),
            NumericTypeKind::Int32 | NumericTypeKind::Int(_) => Some(LogicalType::Int32),
            NumericTypeKind::Int64 | NumericTypeKind::Big => Some(LogicalType::Int64),
            _ => None,
        },
    )
}

fn bind_unsigned_numeric_type(kind: &NumericTypeKind) -> (r: BindResult<LogicalType>)
    ensures
        match unsigned_type(*kind) {
            Some(t) => r matches Ok(x) && x == t,
            None => r matches Err(e) && e is UnsupportedValueType,
        },
{
    supported(
        match kind {
            NumericTypeKind::Int8 => Some(LogicalType::UInt8),
            NumericTypeKind::Int16 | NumericTypeKind::Small => Some(LogicalType::UInt16),
            NumericTypeKind::Int32 | NumericTypeKind::Int(_) => Some(LogicalType::UInt32),
            NumericTypeKind::Int64 | NumericTypeKind::Big => Some(LogicalType::UInt64),
            _ => None,
        },
    )
}

fn bind_float_type(kind: &FloatTypeKind) -> (r: BindResult<LogicalType>)
    ensures
        match float_type(*kind) {
            Some(t) => r matches Ok(x) && x == t,
            None => r matches Err(e) && e is UnsupportedValueType,
        },
{
    supported(
        match kind {
            FloatTypeKind::Float16 | FloatTypeKind::Real | FloatTypeKind::Float32 => Some(
                LogicalType::Float32,
            ),
            FloatTypeKind::Float64 | FloatTypeKind::Double | FloatTypeKind::Float { .. } => Some(
                LogicalType::Float64,
            ),
            _ => None,
        },
    )
}

fn bind_temporal_type(kind: &TemporalTypeKind) -> (r: BindResult<LogicalType>)
    ensures
        match temporal_type(*kind) {
            Some(t) => r matches Ok(x) && x == t,
            None => r matches Err(e) && e is UnsupportedValueType,
        },
{
    supported(
        match kind {
            TemporalTypeKind::Date => Some(LogicalType::String),
            _ => None,
        },
    )
}

/// The logical type of a value type.
pub fn bind_value_type(value_type: &ValueType) -> (r: BindResult<LogicalType>)
    ensures
        match logical_type_of(*value_type) {
            Some(t) => r matches Ok(x) && x == t,
            None => r matches Err(e) && is_type_error(e, *value_type),
        },
{
    match value_type {
        ValueType::String { .. } => Ok(LogicalType::String),
        ValueType::SignedNumeric { kind, .. } => bind_signed_numeric_type(kind),
        ValueType::UnsignedNumeric { kind, .. } => bind_unsigned_numeric_type(kind),
        ValueType::Float { kind, .. } => bind_float_type(kind),
        ValueType::Bool { .. } => Ok(LogicalType::Boolean),
        ValueType::Temporal { kind, .. } => bind_temporal_type(kind),
        ValueType::Vector { dimension, .. } => {
            match parse_unsigned(dimension.as_str(), usize::MAX as u64) {
                Some(n) => Ok(LogicalType::Vector(n as usize)),
                None => Err(BindError::InvalidInteger(dimension.clone())),
            }
        },
        _ => Err(BindError::UnsupportedValueType),
    }
}

fn is_not_null(value_type: &ValueType) -> (r: bool)
    ensures
        r == excludes_null(*value_type),
{
    match value_type {
        ValueType::String { not_null } => *not_null,
        ValueType::SignedNumeric { not_null, .. } => *not_null,
        ValueType::UnsignedNumeric { not_null, .. } => *not_null,
        ValueType::Float { not_null, .. } => *not_null,
        ValueType::Bool { not_null } => *not_null,
        ValueType::Temporal { not_null, .. } => *not_null,
        ValueType::Vector { not_null, .. } => *not_null,
        _ => false,
    }
}

/// The field that a property definition stands for.
pub open spec fn field_of(property: FieldOrPropertyType) -> Option<DataField> {
    match logical_type_of(property.value_type) {
        Some(ty) => Some(
            DataField { name: property.name, ty, nullable: !excludes_null(property.value_type) },
        ),
        None => None,
    }
}

fn bind_property_type(property: &FieldOrPropertyType) -> (r: BindResult<DataField>)
    ensures
        match field_of(*property) {
            Some(field) => r matches Ok(x) && x == field,
            None => r matches Err(e) && is_type_error(e, property.value_type),
        },
{
    match bind_value_type(&property.value_type) {
        Ok(ty) => Ok(
            DataField::new(property.name.clone(), ty, !is_not_null(&property.value_type)),
        ),
        Err(e) => Err(e),
    }
}

// ---------------------------------------------------------------------------------------------
// Fillers
// ---------------------------------------------------------------------------------------------

/// The first property, from `from` on, whose type is not supported or not well formed.
pub open spec fn bad_property(properties: Seq<FieldOrPropertyType>, from: int) -> Option<int>
    decreases properties.len() - from,
{
    if from >= properties.len() {
        None
    } else if field_of(properties[from]) is None {
        Some(from)
    } else {
        bad_property(properties, from + 1)
    }
}

/// The properties of a filler.
pub open spec fn filler_properties(filler: NodeOrEdgeTypeFiller) -> Seq<FieldOrPropertyType> {
    match filler.property_types {
        Some(properties) => properties@,
        None => Seq::empty(),
    }
}

/// The names of the labels of a filler.
pub open spec fn filler_labels(filler: NodeOrEdgeTypeFiller) -> Seq<String> {
    match filler.label_set {
        Some(names) => names@,
        None => Seq::empty(),
    }
}

/// The fields stand for the properties, in order.
pub open spec fn are_fields_of(
    fields: Seq<DataField>,
    properties: Seq<FieldOrPropertyType>,
) -> bool {
    &&& fields.len() == properties.len()
    &&& forall|i: int|
        0 <= i < fields.len() ==> field_of(properties[i]) == Some(#[trigger] fields[i])
}

/// Labels and fields are those of a filler.
pub open spec fn is_filler_bound(
    labels: LabelSet,
    fields: Seq<DataField>,
    filler: NodeOrEdgeTypeFiller,
) -> bool {
    is_label_set_of(labels, filler_labels(filler)) && are_fields_of(
        fields,
        filler_properties(filler),
    )
}

/// What is wrong with a filler: the type of its first property that has no logical type.
pub open spec fn is_filler_error(e: BindError, filler: NodeOrEdgeTypeFiller) -> bool {
    match bad_property(filler_properties(filler), 0) {
        Some(i) => is_type_error(e, filler_properties(filler)[i].value_type),
        None => false,
    }
}

/// Whether a filler can be bound.
pub open spec fn filler_ok(filler: NodeOrEdgeTypeFiller) -> bool {
    bad_property(filler_properties(filler), 0) is None
}

fn bind_properties(properties: &Vec<FieldOrPropertyType>) -> (r: BindResult<Vec<DataField>>)
    ensures
        match bad_property(properties@, 0) {
            None => r matches Ok(fields) && are_fields_of(fields@, properties@),
            Some(i) => 0 <= i < properties@.len() && (r matches Err(e) && is_type_error(
                e,
                properties@[i].value_type,
            )),
        },
{
    let mut fields: Vec<DataField> = Vec::new();
    let mut i: usize = 0;
    while i < properties.len()
        invariant
            i <= properties.len(),
            bad_property(properties@, 0) == bad_property(properties@, i as int),
            fields@.len() == i,
            forall|k: int|
                0 <= k < i ==> field_of(properties@[k]) == Some(#[trigger] fields@[k]),
        decreases properties.len() - i,
    {
        match bind_property_type(&properties[i]) {
            Ok(field) => fields.push(field),
            Err(e) => {
                return Err(e);
            },
        }
        i = i + 1;
    }
    Ok(fields)
}

fn label_ids(names: &Vec<String>) -> (r: Vec<LabelId>)
    ensures
        r@ == labels_of(names@),
{
    let mut r: Vec<LabelId> = Vec::new();
    let mut i: usize = 0;
    while i < names.len()
        invariant
            i <= names.len(),
            r@.len() == i,
            forall|k: int| 0 <= k < i ==> #[trigger] r@[k] == labels_of(names@)[k],
        decreases names.len() - i,
    {
        r.push(string_to_label_id(names[i].as_str()));
        i = i + 1;
    }
    assert(r@ =~= labels_of(names@));
    r
}

/// Labels and properties of a filler.
pub fn bind_node_or_edge_filler(filler: &NodeOrEdgeTypeFiller) -> (r: BindResult<
    (LabelSet, Vec<DataField>),
>)
    ensures
        filler_ok(*filler) ==> (r matches Ok((labels, fields)) && is_filler_bound(
            labels,
            fields@,
            *filler,
        )),
        !filler_ok(*filler) ==> (r matches Err(e) && is_filler_error(e, *filler)),
{
    let ids = match &filler.label_set {
        Some(names) => label_ids(names),
        None => Vec::new(),
    };
    assert(ids@ =~= labels_of(filler_labels(*filler)));
    let labels = LabelSet::from_ids(&ids);
    match &filler.property_types {
        Some(properties) => match bind_properties(properties) {
            Ok(fields) => Ok((labels, fields)),
            Err(e) => Err(e),
        },
        None => Ok((labels, Vec::new())),
    }
}

/// An inline definition of the type of an edge's end: parts that are empty are left out.
pub open spec fn is_filler_struct(
    bound: BoundNodeOrEdgeFiller,
    filler: NodeOrEdgeTypeFiller,
) -> bool {
    &&& bound.key == bound.label_set
    &&& match bound.label_set {
        Some(labels) => labels@.len() > 0 && is_label_set_of(labels, filler_labels(filler)),
        None => filler_labels(filler).len() == 0,
    }
    &&& match bound.properties {
        Some(fields) => fields@.len() > 0 && are_fields_of(fields@, filler_properties(filler)),
        None => filler_properties(filler).len() == 0,
    }
}

fn bind_node_or_edge_filler_struct(filler: &NodeOrEdgeTypeFiller) -> (r: BindResult<
    BoundNodeOrEdgeFiller,
>)
    ensures
        filler_ok(*filler) ==> (r matches Ok(bound) && is_filler_struct(bound, *filler)),
        !filler_ok(*filler) ==> (r matches Err(e) && is_filler_error(e, *filler)),
{
    match bind_node_or_edge_filler(filler) {
        Ok((labels, fields)) => {
            let ghost names = filler_labels(*filler);
            proof {
                if names.len() > 0 {
                    assert(labels_of(names)[0] == labels_of(names)[0]);
                    assert(labels_of(names).contains(labels_of(names)[0]));
                    assert(labels@.contains(labels_of(names)[0]));
                }
                if labels@.len() > 0 {
                    assert(labels@.contains(labels@[0]));
                    assert(labels_of(names).contains(labels@[0]));
                }
            }
            let empty = labels.is_empty();
            Ok(
                BoundNodeOrEdgeFiller {
                    key: if empty {
                        None
                    } else {
                        Some(labels.clone())
                    },
                    label_set: if empty {
                        None
                    } else {
                        Some(labels)
                    },
                    properties: if fields.len() == 0 {
                        None
                    } else {
                        Some(fields)
                    },
                },
            )
        },
        Err(e) => Err(e),
    }
}

// ---------------------------------------------------------------------------------------------
// Vertex and edge types
// ---------------------------------------------------------------------------------------------

pub open spec fn direction_of(direction: AstEdgeDirection) -> EdgeDirection {
    match direction {
        AstEdgeDirection::LeftToRight => EdgeDirection::LeftToRight,
        AstEdgeDirection::RightToLeft => EdgeDirection::RightToLeft,
        AstEdgeDirection::Undirected => EdgeDirection::Undirected,
    }
}

fn bind_edge_direction(direction: &AstEdgeDirection) -> (r: EdgeDirection)
    ensures
        r == direction_of(*direction),
{
    match direction {
        AstEdgeDirection::LeftToRight => EdgeDirection::LeftToRight,
        AstEdgeDirection::RightToLeft => EdgeDirection::RightToLeft,
        AstEdgeDirection::Undirected => EdgeDirection::Undirected,
    }
}

fn copy_name(name: &Option<String>) -> (r: Option<String>)
    ensures
        r == *name,
{
    match name {
        Some(text) => Some(text.clone()),
        None => None,
    }
}

/// The filler of a definition that may have none.
pub open spec fn optional_ok(filler: Option<NodeOrEdgeTypeFiller>) -> bool {
    match filler {
        Some(f) => filler_ok(f),
        None => true,
    }
}

pub open spec fn is_optional_bound(
    labels: LabelSet,
    fields: Seq<DataField>,
    filler: Option<NodeOrEdgeTypeFiller>,
) -> bool {
    match filler {
        Some(f) => is_filler_bound(labels, fields, f),
        None => labels@.len() == 0 && fields.len() == 0,
    }
}

fn bind_optional_filler(filler: &Option<NodeOrEdgeTypeFiller>) -> (r: BindResult<
    (LabelSet, Vec<DataField>),
>)
    ensures
        optional_ok(*filler) ==> (r matches Ok((labels, fields)) && is_optional_bound(
            labels,
            fields@,
            *filler,
        )),
        !optional_ok(*filler) ==> (r matches Err(e) && (filler is Some && is_filler_error(
            e,
            filler->0,
        ))),
{
    match filler {
        Some(f) => bind_node_or_edge_filler(f),
        None => Ok((LabelSet::new(), Vec::new())),
    }
}

/// The vertex type is what the definition says.
pub open spec fn is_vertex_type_of(bound: BoundVertexType, node: NodeType) -> bool {
    &&& bound.name == node.name
    &&& bound.key == bound.labels
    &&& is_optional_bound(bound.labels, bound.properties@, node.filler)
}

pub fn bind_node_type(node: &NodeType) -> (r: BindResult<BoundVertexType>)
    ensures
        optional_ok(node.filler) ==> (r matches Ok(bound) && is_vertex_type_of(bound, *node)),
        !optional_ok(node.filler) ==> (r matches Err(e) && is_filler_error(e, node.filler->0)),
{
    match bind_optional_filler(&node.filler) {
        Ok((labels, properties)) => Ok(
            BoundVertexType {
                name: copy_name(&node.name),
                key: labels.clone(),
                labels,
                properties,
            },
        ),
        Err(e) => Err(e),
    }
}

/// Whether a reference to the type of an edge's end can be bound.
pub open spec fn node_ref_ok(node_ref: AstNodeTypeRef) -> bool {
    match node_ref {
        AstNodeTypeRef::Filler(filler) => filler_ok(filler),
        _ => true,
    }
}

pub open spec fn is_node_ref_of(bound: NodeTypeRef, node_ref: AstNodeTypeRef) -> bool {
    match node_ref {
        AstNodeTypeRef::Alias(name) => bound == NodeTypeRef::Alias(name),
        AstNodeTypeRef::Filler(filler) => bound matches NodeTypeRef::Filler(f) && is_filler_struct(
            f,
            filler,
        ),
        AstNodeTypeRef::Empty => bound == NodeTypeRef::Empty,
    }
}

pub open spec fn is_node_ref_error(e: BindError, node_ref: AstNodeTypeRef) -> bool {
    match node_ref {
        AstNodeTypeRef::Filler(filler) => is_filler_error(e, filler),
        _ => false,
    }
}

fn bind_node_type_ref(node_ref: &AstNodeTypeRef) -> (r: BindResult<NodeTypeRef>)
    ensures
        node_ref_ok(*node_ref) ==> (r matches Ok(bound) && is_node_ref_of(bound, *node_ref)),
        !node_ref_ok(*node_ref) ==> (r matches Err(e) && is_node_ref_error(e, *node_ref)),
{
    match node_ref {
        AstNodeTypeRef::Alias(name) => Ok(NodeTypeRef::Alias(name.clone())),
        AstNodeTypeRef::Filler(filler) => match bind_node_or_edge_filler_struct(filler) {
            Ok(bound) => Ok(NodeTypeRef::Filler(bound)),
            Err(e) => Err(e),
        },
        AstNodeTypeRef::Empty => Ok(NodeTypeRef::Empty),
    }
}

/// Whether an edge type can be bound.
pub open spec fn edge_ok(edge: EdgeType) -> bool {
    match edge {
        EdgeType::Pattern(p) => filler_ok(p.filler) && node_ref_ok(p.left) && node_ref_ok(p.right),
        EdgeType::Phrase(p) => optional_ok(p.filler),
    }
}

/// The edge type is what the definition says.
pub open spec fn is_edge_type_of(bound: BoundEdgeType, edge: EdgeType) -> bool {
    &&& bound.key == bound.labels
    &&& match edge {
        EdgeType::Pattern(p) => {
            &&& bound.name == p.name
            &&& bound.direction == direction_of(p.direction)
            &&& is_filler_bound(bound.labels, bound.properties@, p.filler)
            &&& is_node_ref_of(bound.left, p.left)
            &&& is_node_ref_of(bound.right, p.right)
        },
        EdgeType::Phrase(p) => {
            &&& bound.name == p.name
            &&& bound.direction == direction_of(p.direction)
            &&& is_optional_bound(bound.labels, bound.properties@, p.filler)
            &&& bound.left == NodeTypeRef::Alias(p.left)
            &&& bound.right == NodeTypeRef::Alias(p.right)
        },
    }
}

/// What is wrong with an edge type: its filler, else its left end, else its right one.
pub open spec fn is_edge_error(e: BindError, edge: EdgeType) -> bool {
    match edge {
        EdgeType::Pattern(p) => if !filler_ok(p.filler) {
            is_filler_error(e, p.filler)
        } else if !node_ref_ok(p.left) {
            is_node_ref_error(e, p.left)
        } else {
            is_node_ref_error(e, p.right)
        },
        EdgeType::Phrase(p) => p.filler is Some && is_filler_error(e, p.filler->0),
    }
}

fn bind_edge_type_pattern(pattern: &EdgeTypePattern) -> (r: BindResult<BoundEdgeType>)
    ensures
        edge_ok(EdgeType::Pattern(*pattern)) ==> (r matches Ok(bound) && is_edge_type_of(
            bound,
            EdgeType::Pattern(*pattern),
        )),
        !edge_ok(EdgeType::Pattern(*pattern)) ==> (r matches Err(e) && is_edge_error(
            e,
            EdgeType::Pattern(*pattern),
        )),
{
    let (labels, properties) = match bind_node_or_edge_filler(&pattern.filler) {
        Ok(pair) => pair,
        Err(e) => {
            return Err(e);
        },
    };
    let left = match bind_node_type_ref(&pattern.left) {
        Ok(left) => left,
        Err(e) => {
            return Err(e);
        },
    };
    let right = match bind_node_type_ref(&pattern.right) {
        Ok(right) => right,
        Err(e) => {
            return Err(e);
        },
    };
    Ok(
        BoundEdgeType {
            name: copy_name(&pattern.name),
            key: labels.clone(),
            labels,
            properties,
            direction: bind_edge_direction(&pattern.direction),
            left,
            right,
        },
    )
}

fn bind_edge_type_phrase(phrase: &EdgeTypePhrase) -> (r: BindResult<BoundEdgeType>)
    ensures
        edge_ok(EdgeType::Phrase(*phrase)) ==> (r matches Ok(bound) && is_edge_type_of(
            bound,
            EdgeType::Phrase(*phrase),
        )),
        !edge_ok(EdgeType::Phrase(*phrase)) ==> (r matches Err(e) && is_edge_error(
            e,
            EdgeType::Phrase(*phrase),
        )),
{
    match bind_optional_filler(&phrase.filler) {
        Ok((labels, properties)) => Ok(
            BoundEdgeType {
                name: copy_name(&phrase.name),
                key: labels.clone(),
                labels,
                properties,
                direction: bind_edge_direction(&phrase.direction),
                left: NodeTypeRef::Alias(phrase.left.clone()),
                right: NodeTypeRef::Alias(phrase.right.clone()),
            },
        ),
        Err(e) => Err(e),
    }
}

pub fn bind_edge_type(edge: &EdgeType) -> (r: BindResult<BoundEdgeType>)
    ensures
        edge_ok(*edge) ==> (r matches Ok(bound) && is_edge_type_of(bound, *edge)),
        !edge_ok(*edge) ==> (r matches Err(e) && is_edge_error(e, *edge)),
{
    match edge {
        EdgeType::Pattern(pattern) => bind_edge_type_pattern(pattern),
        EdgeType::Phrase(phrase) => bind_edge_type_phrase(phrase),
    }
}

/// Whether an element type can be bound.
pub open spec fn element_ok(element: GraphElementType) -> bool {
    match element {
        GraphElementType::Node(node) => optional_ok(node.filler),
        GraphElementType::Edge(edge) => edge_ok(edge),
    }
}

/// The element type is what the definition says.
pub open spec fn is_element_of(bound: BoundGraphElementType, element: GraphElementType) -> bool {
    match element {
        GraphElementType::Node(node) => bound matches BoundGraphElementType::Vertex(v)
            && is_vertex_type_of(*v, node),
        GraphElementType::Edge(edge) => bound matches BoundGraphElementType::Edge(e)
            && is_edge_type_of(*e, edge),
    }
}

/// What is wrong with an element type.
pub open spec fn is_element_error(e: BindError, element: GraphElementType) -> bool {
    match element {
        GraphElementType::Node(node) => node.filler is Some && is_filler_error(
            e,
            node.filler->0,
        ),
        GraphElementType::Edge(edge) => is_edge_error(e, edge),
    }
}

/// Binds the definition of a vertex or edge type.
pub fn bind_graph_element_type(element: &GraphElementType) -> (r: BindResult<
    BoundGraphElementType,
>)
    ensures
        element_ok(*element) ==> (r matches Ok(bound) && is_element_of(bound, *element)),
        !element_ok(*element) ==> (r matches Err(e) && is_element_error(e, *element)),
{
    match element {
        GraphElementType::Node(node) => match bind_node_type(node) {
            Ok(bound) => Ok(BoundGraphElementType::Vertex(Box::new(bound))),
            Err(e) => Err(e),
        },
        GraphElementType::Edge(edge) => match bind_edge_type(edge) {
            Ok(bound) => Ok(BoundGraphElementType::Edge(Box::new(bound))),
            Err(e) => Err(e),
        },
    }
}

} // verus!
