//! From statements to bound statements and their plans: laws.

use vstd::prelude::*;
use crate::catalog::graph_type::{type_of, MemoryVertexTypeCatalog};
use crate::catalog::label_set::{lemma_ascending_unique, LabelSet};
use crate::catalog::lookup_laws::{
    first_index_on_a_key_is_found, first_index_with_a_name_is_found,
    first_property_with_a_name_is_found,
};
use crate::catalog::schema::{GraphContainer, GraphRef};
use crate::common::data_type::{DataField, LogicalType};
use crate::common::types::{LabelId, VectorIndexKey, VectorMetric};
use crate::planner::ast::{
    CreateGraphStatement, CreateVectorIndexStatement, DropGraphStatement, DropVectorIndexStatement,
    EdgeType, FieldOrPropertyType, FloatTypeKind, GraphElementType, NodeOrEdgeTypeFiller, NodeType,
    NodeTypeRef as AstNodeTypeRef, NumericTypeKind, OfGraphType, TemporalTypeKind, ValueType,
};
use crate::planner::binder::catalog::{
    bad_element, call_outcome, create_graph_outcome, create_index_on_type, create_index_outcome,
    drop_graph_outcome, drop_index_outcome, graph_index_by_key, graph_index_by_name,
    graph_type_outcome, statement_outcome, CatalogModifyingStatement,
};
use crate::planner::binder::error::{BindError, BindResult};
use crate::planner::binder::type_element::{
    bad_property, element_ok, excludes_null, field_of, filler_labels, filler_ok, filler_properties,
    is_edge_error, is_edge_type_of, is_element_error, is_element_of, is_filler_bound,
    is_filler_error, is_filler_struct, is_label_set_of, is_type_error, is_vertex_type_of,
    label_of_hash, labels_of, logical_type_of,
};
use crate::planner::bound::{
    BoundCallProcedureStatement, BoundCatalogModifyingStatement, BoundCreateGraphStatement,
    BoundCreateVectorIndexStatement, BoundDropGraphStatement, BoundDropVectorIndexStatement,
    BoundEdgeType, BoundGraphType, BoundVertexType, CreateKind, NamedGraphRef,
    NodeOrEdgeTypeFiller as BoundNodeOrEdgeFiller, NodeTypeRef,
};
use crate::planner::logical_planner::catalog::is_catalog_plan;
use crate::planner::plan::catalog_modify::{indentation, kind_text};
use crate::planner::plan::PlanNode;

verus! {

// ---------------------------------------------------------------------------------------------
// Types of values
// ---------------------------------------------------------------------------------------------

/// Text, truth values and dates: which logical types they have. Other temporal types, and paths,
/// lists, records and unconstrained values have none.
pub proof fn plain_types_are_bound(value_type: ValueType)
    ensures
        value_type is String ==> logical_type_of(value_type) == Some(LogicalType::String),
        value_type is Bool ==> logical_type_of(value_type) == Some(LogicalType::Boolean),
        value_type matches ValueType::Temporal { kind, not_null } ==> {
            &&& kind == TemporalTypeKind::Date ==> logical_type_of(value_type) == Some(
                LogicalType::String,
            )
            &&& kind != TemporalTypeKind::Date ==> logical_type_of(value_type) is None
        },
        value_type is Path || value_type is List || value_type is Record || value_type is Any
            ==> logical_type_of(value_type) is None,
{
}

/// Integers: the logical type has the width of the kind, and a sign where the kind has one. A kind
/// wider than any logical type has none.
pub proof fn integer_types_keep_width_and_sign(kind: NumericTypeKind, not_null: bool)
    ensures
        ({
            let signed = logical_type_of(ValueType::SignedNumeric { kind, not_null });
            let unsigned = logical_type_of(ValueType::UnsignedNumeric { kind, not_null });
            &&& kind is Int8 ==> signed == Some(LogicalType::Int8) && unsigned == Some(
                LogicalType::UInt8,
            )
            &&& kind is Int16 || kind is Small ==> signed == Some(LogicalType::Int16) && unsigned
                == Some(LogicalType::UInt16)
            &&& kind is Int32 || kind is Int ==> signed == Some(LogicalType::Int32) && unsigned
                == Some(LogicalType::UInt32)
            &&& kind is Int64 || kind is Big ==> signed == Some(LogicalType::Int64) && unsigned
                == Some(LogicalType::UInt64)
            &&& kind is Int128 || kind is Int256 ==> signed is None && unsigned is None
        }),
{
}

/// Numbers with a fraction: kinds of up to 32 bits have the narrow logical type, those of 64 bits
/// the wide one, and wider ones have none.
pub proof fn float_types_keep_width(kind: FloatTypeKind, not_null: bool)
    ensures
        ({
            let ty = logical_type_of(ValueType::Float { kind, not_null });
            &&& kind is Float16 || kind is Float32 || kind is Real ==> ty == Some(
                LogicalType::Float32,
            )
            &&& kind is Float64 || kind is Double || kind is Float ==> ty == Some(
                LogicalType::Float64,
            )
            &&& kind is Float128 || kind is Float256 ==> ty is None
        }),
{
}

/// A property that can be bound is a field under its name and of its logical type, which may be
/// null unless its value type excludes that.
pub proof fn fields_say_whether_they_may_be_null(property: FieldOrPropertyType)
    ensures
        field_of(property) is Some <==> logical_type_of(property.value_type) is Some,
        field_of(property) matches Some(field) ==> {
            &&& field.name == property.name
            &&& logical_type_of(property.value_type) == Some(field.ty)
            &&& property.value_type matches ValueType::String { not_null } ==> field.nullable
                == !not_null
            &&& property.value_type matches ValueType::SignedNumeric { kind, not_null }
                ==> field.nullable == !not_null
            &&& property.value_type matches ValueType::UnsignedNumeric { kind, not_null }
                ==> field.nullable == !not_null
            &&& property.value_type matches ValueType::Float { kind, not_null } ==> field.nullable
                == !not_null
            &&& property.value_type matches ValueType::Bool { not_null } ==> field.nullable
                == !not_null
            &&& property.value_type matches ValueType::Temporal { kind, not_null }
                ==> field.nullable == !not_null
            &&& property.value_type matches ValueType::Vector { dimension, not_null }
                ==> field.nullable == !not_null
        },
{
}

/// A vector whose dimension is no number is refused for its dimension, and every other type without
/// a logical type as one that is not supported.
pub proof fn refused_types_are_reported(e: BindError, value_type: ValueType)
    requires
        is_type_error(e, value_type),
    ensures
        value_type matches ValueType::Vector { dimension, not_null } ==> (e matches
            BindError::InvalidInteger(text) && text == dimension),
        !(value_type is Vector) ==> e is UnsupportedValueType,
{
}

proof fn lemma_bad_property(properties: Seq<FieldOrPropertyType>, from: int)
    requires
        from >= 0,
    ensures
        match bad_property(properties, from) {
            Some(i) => from <= i < properties.len() && logical_type_of(properties[i].value_type)
                is None && forall|j: int|
                from <= j < i ==> logical_type_of((#[trigger] properties[j]).value_type) is Some,
            None => forall|j: int|
                from <= j < properties.len() ==> logical_type_of(
                    (#[trigger] properties[j]).value_type,
                ) is Some,
        },
    decreases properties.len() - from,
{
    if from < properties.len() && field_of(properties[from]) is Some {
        lemma_bad_property(properties, from + 1);
    }
}

/// A definition in braces can be bound exactly where all its properties have logical types; else
/// the first one that has none is reported.
pub proof fn first_property_without_a_type_is_reported(
    filler: NodeOrEdgeTypeFiller,
    properties: Vec<FieldOrPropertyType>,
    e: BindError,
    i: int,
)
    requires
        filler.property_types == Some(properties),
        0 <= i <= properties@.len(),
        forall|j: int|
            0 <= j < i ==> logical_type_of((#[trigger] properties@[j]).value_type) is Some,
        i < properties@.len() ==> logical_type_of(properties@[i].value_type) is None,
    ensures
        filler_ok(filler) <==> i == properties@.len(),
        i < properties@.len() && is_filler_error(e, filler) ==> is_type_error(
            e,
            properties@[i].value_type,
        ),
{
    lemma_bad_property(properties@, 0);
    if let Some(k) = bad_property(properties@, 0) {
        if k < i {
            assert(logical_type_of(properties@[k].value_type) is Some);
        }
        if i < k {
            assert(logical_type_of(properties@[i].value_type) is Some);
        }
    }
}

/// A definition without properties can always be bound.
pub proof fn fillers_without_properties_are_bound(filler: NodeOrEdgeTypeFiller)
    requires
        filler.property_types is None,
    ensures
        filler_ok(filler),
{
}

// ---------------------------------------------------------------------------------------------
// Labels
// ---------------------------------------------------------------------------------------------

/// The label of a hash is its lower half, unless that is zero: no label is zero.
pub proof fn labels_are_lower_halves(hash: u64)
    ensures
        label_of_hash(hash).raw != 0,
        hash % 0x1_0000_0000 != 0 ==> label_of_hash(hash).raw == hash % 0x1_0000_0000,
        hash % 0x1_0000_0000 == 0 ==> label_of_hash(hash).raw == 1,
{
}

/// Names with the same labels make the same set, whatever their order and however often they occur.
pub proof fn label_sets_depend_on_the_labels_alone(
    a: LabelSet,
    b: LabelSet,
    names: Seq<String>,
    others: Seq<String>,
)
    requires
        is_label_set_of(a, names),
        is_label_set_of(b, others),
        forall|i: int|
            0 <= i < names.len() ==> exists|j: int|
                0 <= j < others.len() && (#[trigger] others[j])@ == (#[trigger] names[i])@,
        forall|j: int|
            0 <= j < others.len() ==> exists|i: int|
                0 <= i < names.len() && (#[trigger] names[i])@ == (#[trigger] others[j])@,
    ensures
        a@ == b@,
        names.len() > 0 ==> a@.len() > 0,
        names.len() == 0 ==> a@.len() == 0,
{
    let x = labels_of(names);
    let y = labels_of(others);
    assert forall|id: LabelId| #[trigger] a@.contains(id) <==> b@.contains(
        id,
    ) by {
        if a@.contains(id) {
            assert(x.contains(id));
            let i = choose|i: int| 0 <= i < x.len() && x[i] == id;
            let name = names[i];
            let j = choose|j: int| 0 <= j < others.len() && (#[trigger] others[j])@ == names[i]@;
            assert(y[j] == id);
            assert(y.contains(id));
        }
        if b@.contains(id) {
            assert(y.contains(id));
            let j = choose|j: int| 0 <= j < y.len() && y[j] == id;
            let name = others[j];
            let i = choose|i: int| 0 <= i < names.len() && (#[trigger] names[i])@ == others[j]@;
            assert(x[i] == id);
            assert(x.contains(id));
        }
    }
    lemma_ascending_unique(a@, b@);
    if names.len() > 0 {
        assert(x.contains(x[0]));
        assert(a@.contains(x[0]));
    } else if a@.len() > 0 {
        assert(a@.contains(a@[0]));
    }
}

// ---------------------------------------------------------------------------------------------
// Elements of a graph type
// ---------------------------------------------------------------------------------------------

/// A bound vertex type has the name and the properties of its definition, in order, and the labels
/// as its key; without a definition in braces it has neither labels nor properties.
pub proof fn vertex_types_keep_their_parts(bound: BoundVertexType, node: NodeType, i: int)
    requires
        is_vertex_type_of(bound, node),
    ensures
        bound.name == node.name,
        bound.key == bound.labels,
        node.filler is None ==> bound.labels@.len() == 0 && bound.properties@.len() == 0,
        node.filler matches Some(filler) ==> {
            &&& filler.label_set matches Some(names) ==> is_label_set_of(bound.labels, names@)
            &&& filler.label_set is None ==> bound.labels@.len() == 0
            &&& filler.property_types is None ==> bound.properties@.len() == 0
            &&& filler.property_types matches Some(properties) ==> {
                &&& bound.properties@.len() == properties@.len()
                &&& 0 <= i < properties@.len() ==> bound.properties@[i].name == properties@[i].name
                    && logical_type_of(properties@[i].value_type) == Some(bound.properties@[i].ty)
                    && bound.properties@[i].nullable == !excludes_null(properties@[i].value_type)
            }
        },
{
    if let Some(filler) = node.filler {
        lemma_filler(bound.labels, bound.properties@, filler, i);
    }
}

proof fn lemma_filler(
    labels: LabelSet,
    fields: Seq<DataField>,
    filler: NodeOrEdgeTypeFiller,
    i: int,
)
    requires
        is_filler_bound(labels, fields, filler),
    ensures
        filler.label_set matches Some(names) ==> is_label_set_of(labels, names@),
        filler.label_set is None ==> labels@.len() == 0,
        filler.property_types is None ==> fields.len() == 0,
        filler.property_types matches Some(properties) ==> {
            &&& fields.len() == properties@.len()
            &&& 0 <= i < properties@.len() ==> fields[i].name == properties@[i].name
                && logical_type_of(properties@[i].value_type) == Some(fields[i].ty)
                && fields[i].nullable == !excludes_null(properties@[i].value_type)
        },
{
    if filler.label_set is None && labels@.len() > 0 {
        assert(labels@.contains(labels@[0]));
        assert(labels_of(filler_labels(filler)).contains(labels@[0]));
    }
    if 0 <= i < fields.len() {
        let field = fields[i];
        assert(field_of(filler_properties(filler)[i]) == Some(field));
    }
}

/// A bound edge type has the name, the direction and the properties of its definition; its left end
/// is that of the definition, and its right end too.
pub proof fn edge_types_keep_their_sides(bound: BoundEdgeType, edge: EdgeType, i: int)
    requires
        is_edge_type_of(bound, edge),
    ensures
        bound.key == bound.labels,
        edge matches EdgeType::Pattern(p) ==> {
            &&& bound.name == p.name
            &&& p.direction is LeftToRight ==> bound.direction is LeftToRight
            &&& p.direction is RightToLeft ==> bound.direction is RightToLeft
            &&& p.direction is Undirected ==> bound.direction is Undirected
            &&& p.left matches AstNodeTypeRef::Alias(name) ==> (bound.left matches
                NodeTypeRef::Alias(n) && n == name)
            &&& p.left is Empty ==> bound.left is Empty
            &&& p.left matches AstNodeTypeRef::Filler(f) ==> (bound.left matches
                NodeTypeRef::Filler(b) && is_filler_struct(b, f))
            &&& p.right matches AstNodeTypeRef::Alias(name) ==> (bound.right matches
                NodeTypeRef::Alias(n) && n == name)
            &&& p.right is Empty ==> bound.right is Empty
            &&& p.right matches AstNodeTypeRef::Filler(f) ==> (bound.right matches
                NodeTypeRef::Filler(b) && is_filler_struct(b, f))
            &&& p.filler.label_set matches Some(names) ==> is_label_set_of(bound.labels, names@)
            &&& p.filler.property_types is None ==> bound.properties@.len() == 0
            &&& p.filler.property_types matches Some(properties) ==> {
                &&& bound.properties@.len() == properties@.len()
                &&& 0 <= i < properties@.len() ==> bound.properties@[i].name == properties@[i].name
                    && logical_type_of(properties@[i].value_type) == Some(bound.properties@[i].ty)
                    && bound.properties@[i].nullable == !excludes_null(properties@[i].value_type)
            }
        },
        edge matches EdgeType::Phrase(p) ==> {
            &&& bound.name == p.name
            &&& p.direction is LeftToRight ==> bound.direction is LeftToRight
            &&& p.direction is RightToLeft ==> bound.direction is RightToLeft
            &&& p.direction is Undirected ==> bound.direction is Undirected
            &&& bound.left matches NodeTypeRef::Alias(left) && left == p.left
            &&& bound.right matches NodeTypeRef::Alias(right) && right == p.right
            &&& p.filler is None ==> bound.labels@.len() == 0 && bound.properties@.len() == 0
            &&& p.filler matches Some(filler) ==> {
                &&& filler.label_set matches Some(names) ==> is_label_set_of(bound.labels, names@)
                &&& filler.property_types is None ==> bound.properties@.len() == 0
                &&& filler.property_types matches Some(properties) ==> {
                    &&& bound.properties@.len() == properties@.len()
                    &&& 0 <= i < properties@.len() ==> bound.properties@[i].name
                        == properties@[i].name && logical_type_of(properties@[i].value_type)
                        == Some(bound.properties@[i].ty)
                }
            }
        },
{
    match edge {
        EdgeType::Pattern(p) => lemma_filler(bound.labels, bound.properties@, p.filler, i),
        EdgeType::Phrase(p) => {
            if let Some(filler) = p.filler {
                lemma_filler(bound.labels, bound.properties@, filler, i);
            }
        },
    }
}

/// The inline definition of an end of an edge leaves out labels and properties that it does not
/// list, and keeps those that it lists; the labels are its key.
pub proof fn ends_leave_out_what_is_empty(
    bound: BoundNodeOrEdgeFiller,
    filler: NodeOrEdgeTypeFiller,
    i: int,
)
    requires
        is_filler_struct(bound, filler),
    ensures
        bound.key == bound.label_set,
        filler.label_set is None ==> bound.label_set is None,
        filler.label_set matches Some(names) ==> {
            &&& names@.len() == 0 ==> bound.label_set is None
            &&& names@.len() > 0 ==> (bound.label_set matches Some(labels) && is_label_set_of(
                labels,
                names@,
            ))
        },
        filler.property_types is None ==> bound.properties is None,
        filler.property_types matches Some(properties) ==> {
            &&& properties@.len() == 0 ==> bound.properties is None
            &&& properties@.len() > 0 ==> (bound.properties matches Some(fields) && fields@.len()
                == properties@.len() && (0 <= i < fields@.len() ==> fields@[i].name
                == properties@[i].name && logical_type_of(properties@[i].value_type) == Some(
                fields@[i].ty,
            )))
        },
{
    if let Some(labels) = bound.label_set {
        assert(labels@.contains(labels@[0]));
        assert(labels_of(filler_labels(filler)).contains(labels@[0]));
    }
    if let Some(fields) = bound.properties {
        if 0 <= i < fields@.len() {
            let field = fields@[i];
            assert(field_of(filler_properties(filler)[i]) == Some(field));
        }
    }
}

/// What is wrong with an edge type is reported for its own definition first, then for its left end,
/// then for its right one.
pub proof fn edge_errors_come_in_order(e: BindError, edge: EdgeType)
    requires
        is_edge_error(e, edge),
    ensures
        edge matches EdgeType::Pattern(p) ==> {
            &&& !filler_ok(p.filler) ==> is_filler_error(e, p.filler)
            &&& filler_ok(p.filler) ==> (p.left matches AstNodeTypeRef::Filler(left)
                ==> !filler_ok(left) ==> is_filler_error(e, left))
            &&& filler_ok(p.filler) && !(p.left is Filler) ==> (p.right matches
                AstNodeTypeRef::Filler(right) && is_filler_error(e, right))
        },
        edge matches EdgeType::Phrase(p) ==> (p.filler matches Some(filler) && is_filler_error(
            e,
            filler,
        )),
{
}

proof fn lemma_bad_element(elements: Seq<GraphElementType>, from: int)
    requires
        from >= 0,
    ensures
        match bad_element(elements, from) {
            Some(i) => from <= i < elements.len() && !element_ok(elements[i]) && forall|j: int|
                from <= j < i ==> element_ok(#[trigger] elements[j]),
            None => forall|j: int| from <= j < elements.len() ==> element_ok(#[trigger] elements[j]),
        },
    decreases elements.len() - from,
{
    if from < elements.len() && element_ok(elements[from]) {
        lemma_bad_element(elements, from + 1);
    }
}

/// An inline graph type is bound element by element, in order, vertex types to vertex types and
/// edge types to edge types; the first element that cannot be bound is what is reported.
pub proof fn elements_are_bound_in_order(
    elements: Vec<GraphElementType>,
    r: BindResult<BoundGraphType>,
    i: int,
)
    requires
        graph_type_outcome(OfGraphType::Nested(elements), r),
        0 <= i < elements@.len(),
    ensures
        r is Ok <==> forall|j: int| 0 <= j < elements@.len() ==> element_ok(#[trigger] elements@[j]),
        r matches Ok(of) ==> (of matches BoundGraphType::Nested(bound) && bound@.len()
            == elements@.len() && is_element_of(bound@[i], elements@[i]) && (elements@[i] is Node
            <==> bound@[i] is Vertex)),
        r matches Err(e) ==> !element_ok(elements@[i]) && (forall|j: int|
            0 <= j < i ==> element_ok(#[trigger] elements@[j])) ==> is_element_error(
            e,
            elements@[i],
        ),
{
    lemma_bad_element(elements@, 0);
    if let Some(k) = bad_element(elements@, 0) {
        if k < i {
            let bad = elements@[k];
        }
        if i < k {
            let good = elements@[i];
        }
    }
    if let Ok(BoundGraphType::Nested(bound)) = r {
        let element = bound@[i];
    }
}

/// A graph type by its name, that of another graph and one without constraint are not bound.
pub proof fn other_graph_types_are_refused(of: OfGraphType, r: BindResult<BoundGraphType>)
    requires
        graph_type_outcome(of, r),
    ensures
        of is Ref ==> (r matches Err(BindError::NotImplemented(n)) && n.feature@
            == "graph type reference"@ && n.issue is None),
        of is Like ==> (r matches Err(BindError::NotImplemented(n)) && n.feature@
            == "LIKE graph type"@ && n.issue is None),
        of is Any ==> (r matches Err(BindError::NotImplemented(n)) && n.feature@
            == "ANY graph type"@ && n.issue is None),
{
}

// ---------------------------------------------------------------------------------------------
// Statements
// ---------------------------------------------------------------------------------------------

/// A new graph has the one name of its path and the kind and source of its statement; a path of
/// another length is refused whole.
pub proof fn create_graph_keeps_name_and_kind(
    s: CreateGraphStatement,
    source: Option<BindResult<NamedGraphRef>>,
    r: BindResult<BoundCreateGraphStatement>,
)
    requires
        create_graph_outcome(s, source, r),
    ensures
        s.path@.len() != 1 ==> (r matches Err(BindError::InvalidObjectReference(path)) && path@
            == s.path@),
        r matches Ok(bound) ==> {
            &&& s.path@.len() == 1 && bound.name == s.path@[0]
            &&& s.kind is Create ==> bound.kind is Create
            &&& s.kind is CreateIfNotExists ==> bound.kind is CreateIfNotExists
            &&& s.kind is CreateOrReplace ==> bound.kind is CreateOrReplace
            &&& graph_type_outcome(s.graph_type, Ok(bound.graph_type))
            &&& source is None ==> bound.source is None
            &&& source matches Some(found) ==> (found matches Ok(graph) && bound.source == Some(
                graph,
            ))
        },
        s.path@.len() == 1 ==> (s.graph_type matches OfGraphType::Nested(elements) ==> (forall|j: int|
            0 <= j < elements@.len() ==> element_ok(#[trigger] elements@[j])) ==> (source is None
            ==> r is Ok) && (source matches Some(found) ==> (r is Ok <==> found is Ok) && (
        found matches Err(e) ==> r == Err::<BoundCreateGraphStatement, BindError>(e)))),
        s.path@.len() == 1 ==> (s.graph_type matches OfGraphType::Nested(elements) ==> (exists|
            j: int,
        |
            0 <= j < elements@.len() && !element_ok(#[trigger] elements@[j])) ==> (r matches Err(e)
            && graph_type_outcome(s.graph_type, Err(e)))),
        s.path@.len() == 1 && !(s.graph_type is Nested) ==> (r matches Err(e)
            && graph_type_outcome(s.graph_type, Err(e))),
{
    if let OfGraphType::Nested(elements) = s.graph_type {
        lemma_bad_element(elements@, 0);
    }
}

/// A dropped graph has the one name of its path, and may be missing where its statement says so; a
/// path of another length is refused whole.
pub proof fn drop_graph_keeps_name(s: DropGraphStatement, r: BindResult<BoundDropGraphStatement>)
    requires
        drop_graph_outcome(s, r),
    ensures
        s.path@.len() != 1 ==> (r matches Err(BindError::InvalidObjectReference(path)) && path@
            == s.path@),
        s.path@.len() == 1 ==> (r matches Ok(bound) && bound.name == s.path@[0] && bound.if_exists
            == s.if_exists),
{
}

/// A call that changes the catalog is neither optional nor yields columns, and is bound as it is.
pub proof fn calls_are_bound_as_they_are(
    call: BoundCallProcedureStatement,
    r: BindResult<BoundCatalogModifyingStatement>,
)
    requires
        call_outcome(call, r),
    ensures
        call.optional ==> (r matches Err(BindError::NotImplemented(n)) && n.feature@
            == "optional catalog modifying statements"@),
        !call.optional && call.yield_schema is Some ==> (r matches Err(
            BindError::NotCatalogProcedure(name),
        ) && name == call.procedure.name),
        !call.optional && call.yield_schema is None ==> (r matches Ok(
            BoundCatalogModifyingStatement::Call(bound),
        ) && bound == call),
{
}

/// A new index is on the first property with the name of the statement, of the vertex type with
/// exactly the label of the statement, and has the dimension of that property. It is nothing to do
/// where there is an index on the same key.
pub proof fn new_indexes_are_on_the_named_property(
    graph: GraphRef,
    vertex_type: MemoryVertexTypeCatalog,
    s: CreateVectorIndexStatement,
    bound: BoundCreateVectorIndexStatement,
    p: int,
)
    requires
        create_index_on_type(*graph, vertex_type, s, Ok(bound)),
        0 <= p < vertex_type.properties@.len() <= u32::MAX,
        vertex_type.properties@[p].name@ == s.property@,
        forall|j: int|
            0 <= j < p ==> (#[trigger] vertex_type.properties@[j]).name@ != s.property@,
    ensures
        bound.name == s.name,
        bound.label == s.label,
        bound.property == s.property,
        bound.if_not_exists == s.if_not_exists,
        bound.index_key.label_id == graph.graph_type.label_map@[s.label@],
        bound.index_key.property_id == p,
        vertex_type.properties@[p].ty == LogicalType::Vector(bound.dimension),
        bound.metric == VectorMetric::L2,
        bound.no_op <==> graph_index_by_key(*graph, bound.index_key) is Some,
        bound.no_op ==> s.if_not_exists,
{
    first_property_with_a_name_is_found(vertex_type.properties@, s.property@, 0, p);
}

/// Why an index cannot be made, in order: two bindings, no graph, no vertex type with the label, no
/// property with the name, no vector, a name that another index has, an index that is there.
pub proof fn refused_indexes_are_reported(
    current_graph: Option<GraphRef>,
    s: CreateVectorIndexStatement,
    r: BindResult<BoundCreateVectorIndexStatement>,
)
    requires
        create_index_outcome(current_graph, s, r),
    ensures
        s.binding@ != s.property_binding@ ==> (r matches Err(
            BindError::CreateVectorIndexBindingMismatch { binding, property_binding },
        ) && binding == s.binding && property_binding == s.property_binding),
        s.binding@ == s.property_binding@ && current_graph is None ==> (r matches Err(e) && e
            is CurrentGraphNotSpecified),
        s.binding@ == s.property_binding@ ==> (current_graph matches Some(graph)
            ==> !graph.graph_type.label_map@.dom().contains(s.label@) ==> (r matches Err(
            BindError::LabelNotFound(label),
        ) && label == s.label)),
        s.binding@ == s.property_binding@ ==> (current_graph matches Some(graph)
            ==> graph.graph_type.label_map@.dom().contains(s.label@) ==> match type_of(
            graph.graph_type.vertex_types@,
            seq![graph.graph_type.label_map@[s.label@]],
        ) {
            None => r matches Err(BindError::LabelNotFound(label)) && label == s.label,
            Some(vertex_type) => create_index_on_type(*graph, *vertex_type, s, r),
        }),
{
}

/// Why an index cannot be made on a vertex type, in order.
pub proof fn refused_keys_are_reported(
    graph: GraphContainer,
    vertex_type: MemoryVertexTypeCatalog,
    s: CreateVectorIndexStatement,
    r: BindResult<BoundCreateVectorIndexStatement>,
    p: int,
)
    requires
        create_index_on_type(graph, vertex_type, s, r),
        0 <= p <= vertex_type.properties@.len() <= u32::MAX,
        p < vertex_type.properties@.len() ==> vertex_type.properties@[p].name@ == s.property@,
        forall|j: int|
            0 <= j < p ==> (#[trigger] vertex_type.properties@[j]).name@ != s.property@,
    ensures
        p == vertex_type.properties@.len() ==> (r matches Err(
            BindError::PropertyNotFound { label, property },
        ) && label == s.label && property == s.property),
        p < vertex_type.properties@.len() && !(vertex_type.properties@[p].ty is Vector) ==> (
        r matches Err(BindError::PropertyNotVector { label, property, ty }) && label == s.label
            && property == s.property && ty == vertex_type.properties@[p].ty),
        p < vertex_type.properties@.len() && vertex_type.properties@[p].ty is Vector ==> (
        graph_index_by_name(graph, s.name@) matches Some(named) ==> (named.key.label_id
            != graph.graph_type.label_map@[s.label@] || named.key.property_id != p) ==> (
        r matches Err(BindError::VectorIndexNameAlreadyExists { name }) && name == s.name)),
        r matches Err(BindError::VectorIndexAlreadyExists { label, property }) ==> !s.if_not_exists
            && label == s.label && property == s.property,
        p < vertex_type.properties@.len() && vertex_type.properties@[p].ty is Vector
            && graph_index_by_name(graph, s.name@) is None && s.if_not_exists ==> r is Ok,
        p < vertex_type.properties@.len() && vertex_type.properties@[p].ty is Vector ==> {
            let key = VectorIndexKey {
                label_id: graph.graph_type.label_map@[s.label@],
                property_id: p as u32,
            };
            let taken = graph_index_by_name(graph, s.name@) matches Some(named) && named.key != key;
            let there = graph_index_by_key(graph, key) is Some;
            &&& r is Err && r->Err_0 is VectorIndexNameAlreadyExists <==> taken
            &&& r is Err && r->Err_0 is VectorIndexAlreadyExists <==> !taken && there
                && !s.if_not_exists
            &&& r is Ok <==> !taken && (there ==> s.if_not_exists)
        },
{
    first_property_with_a_name_is_found(vertex_type.properties@, s.property@, 0, p);
}

/// A dropped index is the one with the name of the statement, with all that is known of it; a name
/// without an index is an error unless the statement says that it may be missing, and then there is
/// nothing to do.
pub proof fn dropped_indexes_are_the_named_ones(
    current_graph: Option<GraphRef>,
    s: DropVectorIndexStatement,
    r: BindResult<BoundDropVectorIndexStatement>,
)
    requires
        drop_index_outcome(current_graph, s, r),
    ensures
        current_graph is None ==> (r matches Err(e) && e is CurrentGraphNotSpecified),
        current_graph matches Some(graph) ==> {
            &&& graph_index_by_name(*graph, s.name@) matches Some(meta) ==> (r matches Ok(bound)
                && bound.name == s.name && bound.if_exists == s.if_exists && bound.index_key == Some(
                meta.key,
            ) && bound.metadata == Some(meta) && !bound.no_op)
            &&& graph_index_by_name(*graph, s.name@) is None && s.if_exists ==> (r matches Ok(bound)
                && bound.name == s.name && bound.if_exists && bound.index_key is None
                && bound.metadata is None && bound.no_op)
            &&& graph_index_by_name(*graph, s.name@) is None && !s.if_exists ==> (r matches Err(
                BindError::VectorIndexNotFound { name },
            ) && name == s.name)
        },
{
}

/// A statement is bound to a statement of its own sort. Statements on schemas and on graph types
/// are not bound.
pub proof fn statements_keep_their_sort(
    current_graph: Option<GraphRef>,
    statement: CatalogModifyingStatement,
    r: BindResult<BoundCatalogModifyingStatement>,
)
    requires
        statement_outcome(current_graph, statement, r),
    ensures
        r matches Ok(bound) ==> {
            &&& bound is Call <==> statement is Call
            &&& bound is CreateGraph <==> statement is CreateGraph
            &&& bound is DropGraph <==> statement is DropGraph
            &&& bound is CreateVectorIndex <==> statement is CreateVectorIndex
            &&& bound is DropVectorIndex <==> statement is DropVectorIndex
        },
        statement is CreateSchema ==> (r matches Err(BindError::NotImplemented(n)) && n.feature@
            == "create schema statement"@),
        statement is DropSchema ==> (r matches Err(BindError::NotImplemented(n)) && n.feature@
            == "drop schema statement"@),
        statement is CreateGraphType ==> (r matches Err(BindError::NotImplemented(n)) && n.feature@
            == "create graph type statement"@),
        statement is DropGraphType ==> (r matches Err(BindError::NotImplemented(n)) && n.feature@
            == "drop graph type statement"@),
        statement matches CatalogModifyingStatement::DropGraph(s) ==> (r matches Ok(
            BoundCatalogModifyingStatement::DropGraph(bound),
        ) ==> drop_graph_outcome(s, Ok(bound))),
        statement matches CatalogModifyingStatement::CreateGraph(s, source) ==> (r matches Ok(
            BoundCatalogModifyingStatement::CreateGraph(bound),
        ) ==> create_graph_outcome(s, source, Ok(bound))),
        statement matches CatalogModifyingStatement::CreateVectorIndex(s) ==> (r matches Ok(
            BoundCatalogModifyingStatement::CreateVectorIndex(bound),
        ) ==> create_index_outcome(current_graph, s, Ok(bound))),
        statement matches CatalogModifyingStatement::DropVectorIndex(s) ==> (r matches Ok(
            BoundCatalogModifyingStatement::DropVectorIndex(bound),
        ) ==> drop_index_outcome(current_graph, s, Ok(bound))),
        r matches Err(e) ==> match statement {
            CatalogModifyingStatement::CreateGraph(s, source) => create_graph_outcome(
                s,
                source,
                Err(e),
            ),
            CatalogModifyingStatement::DropGraph(s) => drop_graph_outcome(s, Err(e)),
            CatalogModifyingStatement::CreateVectorIndex(s) => create_index_outcome(
                current_graph,
                s,
                Err(e),
            ),
            CatalogModifyingStatement::DropVectorIndex(s) => drop_index_outcome(
                current_graph,
                s,
                Err(e),
            ),
            CatalogModifyingStatement::Call(call) => call_outcome(call, r),
            _ => true,
        },
{
}

/// The indexes of a graph are those of its catalog; a graph without one has none.
pub proof fn indexes_are_looked_up_in_the_catalog(
    graph: GraphContainer,
    key: VectorIndexKey,
    name: Seq<char>,
    i: int,
)
    requires
        graph.index_catalog matches Some(catalog) ==> 0 <= i < catalog.entries@.len(),
    ensures
        graph.index_catalog is None ==> graph_index_by_key(graph, key) is None
            && graph_index_by_name(graph, name) is None,
        graph.index_catalog matches Some(catalog) ==> {
            &&& catalog.entries@[i].key == key && (forall|j: int|
                0 <= j < i ==> (#[trigger] catalog.entries@[j]).key != key)
                ==> graph_index_by_key(graph, key) == Some(catalog.entries@[i])
            &&& catalog.entries@[i].name@ == name && (forall|j: int|
                0 <= j < i ==> (#[trigger] catalog.entries@[j]).name@ != name)
                ==> graph_index_by_name(graph, name) == Some(catalog.entries@[i])
        },
{
    if let Some(catalog) = graph.index_catalog {
        let entries = catalog.entries@;
        if entries[i].key == key && (forall|j: int|
            0 <= j < i ==> (#[trigger] entries[j]).key != key) {
            first_index_on_a_key_is_found(entries, key, 0, i);
        }
        if entries[i].name@ == name && (forall|j: int|
            0 <= j < i ==> (#[trigger] entries[j]).name@ != name) {
            first_index_with_a_name_is_found(entries, name, 0, i);
        }
    }
}

// ---------------------------------------------------------------------------------------------
// Plans
// ---------------------------------------------------------------------------------------------

/// A plan holds what its statement says.
pub proof fn catalog_plans_hold_their_statements(
    plan: PlanNode,
    statement: BoundCatalogModifyingStatement,
)
    requires
        is_catalog_plan(plan, statement),
    ensures
        plan.inputs().len() == 0,
        statement matches BoundCatalogModifyingStatement::Call(s) ==> (plan matches
            PlanNode::LogicalCall(p) && p.procedure.name == s.procedure.name && p.procedure.object
            == s.procedure.object && p.args == s.args && p.base.schema == s.yield_schema),
        statement matches BoundCatalogModifyingStatement::CreateGraph(s) ==> (plan matches
            PlanNode::PhysicalCreateGraph(p) && p.name == s.name && p.kind == s.kind && p.graph_type
            == s.graph_type),
        statement matches BoundCatalogModifyingStatement::DropGraph(s) ==> (plan matches
            PlanNode::PhysicalDropGraph(p) && p.name == s.name && p.if_exists == s.if_exists),
        statement matches BoundCatalogModifyingStatement::CreateVectorIndex(s) ==> (plan matches
            PlanNode::LogicalCreateVectorIndex(p) && p.name == s.name && p.if_not_exists
            == s.if_not_exists && p.index_key == s.index_key && p.metric == s.metric && p.dimension
            == s.dimension && p.label == s.label && p.property == s.property && p.no_op == s.no_op),
        statement matches BoundCatalogModifyingStatement::DropVectorIndex(s) ==> (plan matches
            PlanNode::LogicalDropVectorIndex(p) && p.name == s.name && p.if_exists == s.if_exists
            && p.index_key == s.index_key && p.metadata == s.metadata && p.no_op == s.no_op),
{
}

/// Every level of a plan is set in by two blanks more, and how a graph is created is written out.
pub proof fn explanations_are_set_in(indent: int, i: int)
    requires
        indent >= 0,
    ensures
        indentation(0).len() == 0,
        indentation(indent + 1).len() == indentation(indent).len() + 2,
        0 <= i < indentation(indent).len() ==> indentation(indent)[i] == ' ',
        kind_text(CreateKind::Create) == "CREATE"@,
        kind_text(CreateKind::CreateIfNotExists) == "CREATE IF NOT EXISTS"@,
        kind_text(CreateKind::CreateOrReplace) == "CREATE OR REPLACE"@,
{
}

} // verus!
