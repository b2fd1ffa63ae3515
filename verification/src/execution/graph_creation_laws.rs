//! From the elements of a graph type to its catalog, and from statements to schemas: laws.

use vstd::prelude::*;
use crate::catalog::graph_type::{
    model_of, EdgeTypeModel, GraphTypeModel, PropertyModel, VertexTypeModel,
};
use crate::catalog::lookup_laws::{added_type_is_found, lemma_found_type};
use crate::catalog::schema::{graphs_created, GraphRef, MemorySchemaCatalog};
use crate::common::data_type::DataField;
use crate::common::types::LabelId;
use crate::execution::catalog_modify::{
    catalog_kind, edge_added, element_added, element_registered, end_resolved, field_models,
    graph_creation, graph_removal, is_new_graph, labels_registered, planned_type, populated,
    types_added, vertex_added,
};
use crate::execution::error::{error_text, ExecutionResult};
use crate::planner::bound::{
    BoundEdgeType, BoundGraphElementType, BoundGraphType, BoundVertexType, NodeTypeRef,
};
use crate::planner::plan::catalog_modify::{CreateGraph, DropGraph};
use crate::transaction::txn::{IsolationLevel, LockStrategy};

verus! {

/// Every type of a graph type has the labels that it stands under.
pub open spec fn types_keyed(m: GraphTypeModel) -> bool {
    &&& forall|i: int|
        0 <= i < m.vertex_types.len() ==> (#[trigger] m.vertex_types[i]).1.labels
            == m.vertex_types[i].0
    &&& forall|i: int|
        0 <= i < m.edge_types.len() ==> (#[trigger] m.edge_types[i]).1.labels == m.edge_types[i].0
}

/// The properties are the fields, by name, type and whether they may be null.
pub open spec fn are_properties_of(properties: Seq<PropertyModel>, fields: Seq<DataField>) -> bool {
    &&& properties.len() == fields.len()
    &&& forall|i: int|
        0 <= i < fields.len() ==> (#[trigger] properties[i]).name == fields[i].name@
            && properties[i].ty == fields[i].ty && properties[i].nullable == fields[i].nullable
}

/// The labels that an end of an edge stands for: that of its name, or those that it lists.
pub open spec fn is_end_with_labels(
    m: GraphTypeModel,
    node_ref: NodeTypeRef,
    labels: Seq<LabelId>,
) -> bool {
    match node_ref {
        NodeTypeRef::Alias(name) => m.labels.dom().contains(name@) && labels.len() == 1 && labels[0]
            == m.labels[name@],
        NodeTypeRef::Filler(filler) => filler.label_set matches Some(set) && set@ == labels,
        NodeTypeRef::Empty => false,
    }
}

proof fn lemma_end(m: GraphTypeModel, node_ref: NodeTypeRef, labels: Seq<LabelId>)
    requires
        types_keyed(m),
        is_end_with_labels(m, node_ref, labels),
    ensures
        ({
            let r = end_resolved(m, node_ref);
            &&& r.ty matches Ok(ty)
            &&& ty.labels == labels
            &&& model_of(r.graph_type.vertex_types, labels) == Some(ty)
            &&& types_keyed(r.graph_type)
            &&& r.graph_type.labels == m.labels
            &&& r.graph_type.next_label_id == m.next_label_id
            &&& r.graph_type.edge_types == m.edge_types
            &&& m.vertex_types.len() <= r.graph_type.vertex_types.len()
            &&& forall|i: int|
                0 <= i < m.vertex_types.len() ==> #[trigger] r.graph_type.vertex_types[i]
                    == m.vertex_types[i]
            &&& forall|other: Seq<LabelId>|
                model_of(m.vertex_types, other) is Some ==> #[trigger] model_of(
                    r.graph_type.vertex_types,
                    other,
                ) == model_of(m.vertex_types, other)
        }),
{
    if let NodeTypeRef::Alias(name) = node_ref {
        assert(seq![m.labels[name@]] =~= labels);
    }
    lemma_found_type(m.vertex_types, labels, 0);
    let r = end_resolved(m, node_ref);
    if model_of(m.vertex_types, labels) is None {
        let ty = r.ty->Ok_0;
        added_type_is_found(m.vertex_types, labels, ty, labels);
        assert forall|other: Seq<LabelId>| model_of(m.vertex_types, other) is Some implies
            #[trigger] model_of(r.graph_type.vertex_types, other) == model_of(
            m.vertex_types,
            other,
        ) by {
            added_type_is_found(m.vertex_types, labels, ty, other);
        }
    }
}

/// An edge type with labels of its own and complete ends is found, once it is added, under its
/// labels: its source is the vertex type under the labels of the left end, its destination the
/// vertex type under those of the right end, and its properties are the fields of the edge. Types
/// that were there stay.
pub proof fn edge_types_join_the_types_of_their_ends(
    m: GraphTypeModel,
    edge: BoundEdgeType,
    left: Seq<LabelId>,
    right: Seq<LabelId>,
)
    requires
        types_keyed(m),
        edge.labels@.len() > 0,
        is_end_with_labels(m, edge.left, left),
        is_end_with_labels(m, edge.right, right),
        forall|i: int| 0 <= i < m.edge_types.len() ==> (#[trigger] m.edge_types[i]).0 != edge.labels@,
    ensures
        ({
            let r = edge_added(m, edge);
            let n = m.edge_types.len() as int;
            &&& r.error is None
            &&& model_of(r.graph_type.edge_types, edge.labels@) matches Some(ty)
            &&& r.graph_type.edge_types.len() == n + 1
            &&& r.graph_type.edge_types[n] == (edge.labels@, ty)
            &&& ty.labels == edge.labels@
            &&& ty.src.labels == left
            &&& ty.dst.labels == right
            &&& model_of(r.graph_type.vertex_types, left) == Some(ty.src)
            &&& model_of(r.graph_type.vertex_types, right) == Some(ty.dst)
            &&& are_properties_of(ty.properties, edge.properties@)
            &&& types_keyed(r.graph_type)
            &&& r.graph_type.labels == m.labels
            &&& r.graph_type.next_label_id == m.next_label_id
            &&& forall|i: int|
                0 <= i < n ==> #[trigger] r.graph_type.edge_types[i] == m.edge_types[i]
            &&& forall|i: int|
                0 <= i < m.vertex_types.len() ==> #[trigger] r.graph_type.vertex_types[i]
                    == m.vertex_types[i]
        }),
{
    lemma_end(m, edge.left, left);
    let src = end_resolved(m, edge.left);
    assert(is_end_with_labels(src.graph_type, edge.right, right));
    lemma_end(src.graph_type, edge.right, right);
    let dst = end_resolved(src.graph_type, edge.right);
    let r = edge_added(m, edge);
    let ty = EdgeTypeModel {
        labels: edge.labels@,
        src: src.ty->Ok_0,
        dst: dst.ty->Ok_0,
        properties: field_models(edge.properties@),
    };
    added_type_is_found(dst.graph_type.edge_types, edge.labels@, ty, edge.labels@);
    assert(model_of(dst.graph_type.vertex_types, left) == model_of(
        src.graph_type.vertex_types,
        left,
    ));
    lemma_found_type(dst.graph_type.edge_types, edge.labels@, 0);
    assert forall|i: int| 0 <= i < m.vertex_types.len() implies
        #[trigger] r.graph_type.vertex_types[i] == m.vertex_types[i] by {
        assert(src.graph_type.vertex_types[i] == m.vertex_types[i]);
        assert(dst.graph_type.vertex_types[i] == src.graph_type.vertex_types[i]);
    }
}

/// The vertex type at an end of an edge is the one under the labels of the end, where there is one;
/// else it is made, with the properties that the end lists and none for an end that is a name.
pub proof fn missing_ends_are_made(m: GraphTypeModel, node_ref: NodeTypeRef, labels: Seq<LabelId>)
    requires
        types_keyed(m),
        is_end_with_labels(m, node_ref, labels),
    ensures
        ({
            let r = end_resolved(m, node_ref);
            &&& forall|i: int|
                0 <= i < m.vertex_types.len() && (#[trigger] m.vertex_types[i]).0 == labels && (
                forall|j: int| 0 <= j < i ==> (#[trigger] m.vertex_types[j]).0 != labels) ==> r.ty
                    == Ok::<VertexTypeModel, Seq<char>>(m.vertex_types[i].1) && r.graph_type == m
            &&& (forall|i: int|
                0 <= i < m.vertex_types.len() ==> (#[trigger] m.vertex_types[i]).0 != labels) ==> {
                &&& r.graph_type.vertex_types.len() == m.vertex_types.len() + 1
                &&& r.ty matches Ok(ty) && ty.labels == labels && match node_ref {
                    NodeTypeRef::Filler(filler) => match filler.properties {
                        Some(fields) => are_properties_of(ty.properties, fields@),
                        None => ty.properties.len() == 0,
                    },
                    _ => ty.properties.len() == 0,
                }
            }
        }),
{
    lemma_end(m, node_ref, labels);
    if let NodeTypeRef::Alias(name) = node_ref {
        assert(seq![m.labels[name@]] =~= labels);
    }
    lemma_found_type(m.vertex_types, labels, 0);
}

/// What is wrong with an edge is reported in order: that it has no labels, then what the left end
/// lacks, then what the right end lacks. A name that is no label, an inline definition without
/// labels and an end without constraint are what an end can lack.
pub proof fn incomplete_edges_are_reported(m: GraphTypeModel, edge: BoundEdgeType)
    ensures
        edge.labels@.len() == 0 ==> edge_added(m, edge).error == Some(
            "Edge type must have at least one label"@,
        ) && edge_added(m, edge).graph_type == m,
        edge.labels@.len() > 0 ==> (edge.left matches NodeTypeRef::Alias(name) ==>
            !m.labels.dom().contains(name@) ==> edge_added(m, edge).error == Some(
            "Label '"@ + name@ + "' not found"@,
        ) && edge_added(m, edge).graph_type == m),
        edge.labels@.len() > 0 && edge.left is Empty ==> edge_added(m, edge).error == Some(
            "Cannot resolve vertex type from empty node reference"@,
        ) && edge_added(m, edge).graph_type == m,
        edge.labels@.len() > 0 ==> (edge.left matches NodeTypeRef::Filler(filler)
            ==> filler.label_set is None ==> edge_added(m, edge).error == Some(
            "Filler must have label_set"@,
        ) && edge_added(m, edge).graph_type == m),
        forall|left: Seq<LabelId>|
            edge.labels@.len() > 0 && #[trigger] is_end_with_labels(m, edge.left, left) ==> {
                &&& edge.right is Empty ==> edge_added(m, edge).error == Some(
                    "Cannot resolve vertex type from empty node reference"@,
                )
                &&& edge.right matches NodeTypeRef::Alias(name) ==> !m.labels.dom().contains(name@)
                    ==> edge_added(m, edge).error == Some("Label '"@ + name@ + "' not found"@)
                &&& edge.right matches NodeTypeRef::Filler(filler) ==> filler.label_set is None
                    ==> edge_added(m, edge).error == Some("Filler must have label_set"@)
            },
{
}

/// A vertex type with labels that no type has yet is found, once it is added, under its labels,
/// with the fields as its properties; labels that have a type keep it, and a type without labels is
/// refused.
pub proof fn vertex_types_are_found_under_their_labels(m: GraphTypeModel, vertex: BoundVertexType)
    requires
        types_keyed(m),
    ensures
        ({
            let r = vertex_added(m, vertex);
            &&& vertex.labels@.len() == 0 ==> r.error == Some(
                "Vertex type must have at least one label"@,
            ) && r.graph_type == m
            &&& vertex.labels@.len() > 0 ==> {
                &&& r.error is None
                &&& model_of(r.graph_type.vertex_types, vertex.labels@) matches Some(ty)
                &&& ty.labels == vertex.labels@
                &&& (forall|i: int|
                    0 <= i < m.vertex_types.len() ==> (#[trigger] m.vertex_types[i]).0
                        != vertex.labels@) ==> are_properties_of(ty.properties, vertex.properties@)
                    && r.graph_type.vertex_types.len() == m.vertex_types.len() + 1
                &&& (exists|i: int|
                    0 <= i < m.vertex_types.len() && (#[trigger] m.vertex_types[i]).0
                        == vertex.labels@) ==> r.graph_type == m
            }
            &&& types_keyed(r.graph_type)
            &&& r.graph_type.edge_types == m.edge_types
            &&& r.graph_type.labels == m.labels
            &&& r.graph_type.next_label_id == m.next_label_id
            &&& forall|i: int|
                0 <= i < m.vertex_types.len() ==> #[trigger] r.graph_type.vertex_types[i]
                    == m.vertex_types[i]
        }),
{
    let labels = vertex.labels@;
    let ty = VertexTypeModel { labels, properties: field_models(vertex.properties@) };
    lemma_found_type(m.vertex_types, labels, 0);
    added_type_is_found(m.vertex_types, labels, ty, labels);
}

/// The name of a vertex type, and for an edge type its name and the names at its left and right
/// ends, become labels, in this order.
pub proof fn names_become_labels_in_order(m: GraphTypeModel, element: BoundGraphElementType)
    requires
        1 <= m.next_label_id <= u32::MAX - 3,
    ensures
        element matches BoundGraphElementType::Vertex(vertex) ==> {
            let after = element_registered(m, element);
            &&& vertex.name is None ==> after == m
            &&& vertex.name matches Some(name) ==> after.labels.dom().contains(name@) && (
            !m.labels.dom().contains(name@) ==> after.labels[name@].raw == m.next_label_id)
        },
        element matches BoundGraphElementType::Edge(edge) ==> {
            let after = element_registered(m, element);
            &&& edge.name is None && !(edge.left is Alias) && !(edge.right is Alias) ==> after == m
            &&& edge.name matches Some(name) ==> after.labels.dom().contains(name@) && (
            !m.labels.dom().contains(name@) ==> after.labels[name@].raw == m.next_label_id)
            &&& edge.left matches NodeTypeRef::Alias(left) ==> after.labels.dom().contains(left@)
            &&& edge.right matches NodeTypeRef::Alias(right) ==> after.labels.dom().contains(right@)
            &&& edge.name matches Some(name) ==> (edge.left matches NodeTypeRef::Alias(left) ==> (
            edge.right matches NodeTypeRef::Alias(right) ==> !m.labels.dom().contains(name@)
                && !m.labels.dom().contains(left@) && !m.labels.dom().contains(right@) && name@
                != left@ && left@ != right@ && name@ != right@ ==> after.labels[left@].raw
                == m.next_label_id + 1 && after.labels[right@].raw == m.next_label_id + 2
                && after.next_label_id == m.next_label_id + 3))
        },
        forall|name: Seq<char>|
            m.labels.dom().contains(name) ==> #[trigger] element_registered(
                m,
                element,
            ).labels.dom().contains(name) && element_registered(m, element).labels[name]
                == m.labels[name],
        element_registered(m, element).vertex_types == m.vertex_types,
        element_registered(m, element).edge_types == m.edge_types,
{
}

proof fn lemma_element_keeps(m: GraphTypeModel, element: BoundGraphElementType)
    requires
        types_keyed(m),
    ensures
        ({
            let r = element_added(m, element);
            &&& types_keyed(r.graph_type)
            &&& r.graph_type.labels == m.labels
            &&& forall|labels: Seq<LabelId>|
                model_of(m.vertex_types, labels) is Some ==> #[trigger] model_of(
                    r.graph_type.vertex_types,
                    labels,
                ) == model_of(m.vertex_types, labels)
            &&& forall|labels: Seq<LabelId>|
                model_of(m.edge_types, labels) is Some ==> #[trigger] model_of(
                    r.graph_type.edge_types,
                    labels,
                ) == model_of(m.edge_types, labels)
        }),
{
    match element {
        BoundGraphElementType::Vertex(vertex) => {
            let labels = vertex.labels@;
            let ty = VertexTypeModel { labels, properties: field_models(vertex.properties@) };
            lemma_found_type(m.vertex_types, labels, 0);
            let r = element_added(m, element);
            assert forall|other: Seq<LabelId>| model_of(m.vertex_types, other) is Some implies
                #[trigger] model_of(r.graph_type.vertex_types, other) == model_of(
                m.vertex_types,
                other,
            ) by {
                added_type_is_found(m.vertex_types, labels, ty, other);
            }
        },
        BoundGraphElementType::Edge(edge) => {
            lemma_any_end(m, edge.left);
            let src = end_resolved(m, edge.left);
            lemma_any_end(src.graph_type, edge.right);
            let dst = end_resolved(src.graph_type, edge.right);
            let labels = edge.labels@;
            let ty = EdgeTypeModel {
                labels,
                src: src.ty->Ok_0,
                dst: dst.ty->Ok_0,
                properties: field_models(edge.properties@),
            };
            let r = element_added(m, element);
            lemma_found_type(dst.graph_type.edge_types, labels, 0);
            assert forall|other: Seq<LabelId>| model_of(m.edge_types, other) is Some implies
                #[trigger] model_of(r.graph_type.edge_types, other) == model_of(
                m.edge_types,
                other,
            ) by {
                added_type_is_found(dst.graph_type.edge_types, labels, ty, other);
            }
            assert forall|other: Seq<LabelId>| model_of(m.vertex_types, other) is Some implies
                #[trigger] model_of(r.graph_type.vertex_types, other) == model_of(
                m.vertex_types,
                other,
            ) by {
                assert(model_of(src.graph_type.vertex_types, other) == model_of(
                    m.vertex_types,
                    other,
                ));
                assert(model_of(dst.graph_type.vertex_types, other) == model_of(
                    src.graph_type.vertex_types,
                    other,
                ));
            }
        },
    }
}

proof fn lemma_any_end(m: GraphTypeModel, node_ref: NodeTypeRef)
    requires
        types_keyed(m),
    ensures
        ({
            let r = end_resolved(m, node_ref);
            &&& types_keyed(r.graph_type)
            &&& r.graph_type.labels == m.labels
            &&& r.graph_type.edge_types == m.edge_types
            &&& forall|other: Seq<LabelId>|
                model_of(m.vertex_types, other) is Some ==> #[trigger] model_of(
                    r.graph_type.vertex_types,
                    other,
                ) == model_of(m.vertex_types, other)
        }),
{
    match node_ref {
        NodeTypeRef::Alias(name) => {
            if m.labels.dom().contains(name@) {
                lemma_end(m, node_ref, seq![m.labels[name@]]);
            }
        },
        NodeTypeRef::Filler(filler) => {
            if let Some(set) = filler.label_set {
                lemma_end(m, node_ref, set@);
            }
        },
        NodeTypeRef::Empty => {},
    }
}

/// The labels of an element.
pub open spec fn labels_of(element: BoundGraphElementType) -> Seq<LabelId> {
    match element {
        BoundGraphElementType::Vertex(vertex) => vertex.labels@,
        BoundGraphElementType::Edge(edge) => edge.labels@,
    }
}

/// The type of an element is found under its labels.
pub open spec fn is_found(m: GraphTypeModel, element: BoundGraphElementType) -> bool {
    match element {
        BoundGraphElementType::Vertex(vertex) => model_of(m.vertex_types, vertex.labels@) matches
            Some(ty) && ty.labels == vertex.labels@,
        BoundGraphElementType::Edge(edge) => model_of(m.edge_types, edge.labels@) matches Some(ty)
            && ty.labels == edge.labels@,
    }
}

proof fn lemma_types_added(m: GraphTypeModel, elements: Seq<BoundGraphElementType>, n: int)
    requires
        0 <= n <= elements.len(),
        types_keyed(m),
    ensures
        types_keyed(types_added(m, elements, n).graph_type),
        types_added(m, elements, n).graph_type.labels == m.labels,
        types_added(m, elements, n).error is None ==> forall|i: int|
            0 <= i < n ==> is_found(
                types_added(m, elements, n).graph_type,
                #[trigger] elements[i],
            ),
    decreases n,
{
    if n > 0 {
        lemma_types_added(m, elements, n - 1);
        let before = types_added(m, elements, n - 1);
        let after = types_added(m, elements, n);
        let element = elements[n - 1];
        lemma_element_keeps(before.graph_type, element);
        if after.error is None {
            assert forall|i: int| 0 <= i < n implies is_found(
                after.graph_type,
                #[trigger] elements[i],
            ) by {
                if i < n - 1 {
                    assert(is_found(before.graph_type, elements[i]));
                } else {
                    lemma_added_is_found(before.graph_type, element);
                }
            }
        }
    }
}

proof fn lemma_added_is_found(m: GraphTypeModel, element: BoundGraphElementType)
    requires
        types_keyed(m),
        element_added(m, element).error is None,
    ensures
        is_found(element_added(m, element).graph_type, element),
{
    match element {
        BoundGraphElementType::Vertex(vertex) => {
            vertex_types_are_found_under_their_labels(m, *vertex);
        },
        BoundGraphElementType::Edge(edge) => {
            lemma_any_end(m, edge.left);
            let src = end_resolved(m, edge.left);
            lemma_any_end(src.graph_type, edge.right);
            let dst = end_resolved(src.graph_type, edge.right);
            let labels = edge.labels@;
            let ty = EdgeTypeModel {
                labels,
                src: src.ty->Ok_0,
                dst: dst.ty->Ok_0,
                properties: field_models(edge.properties@),
            };
            lemma_found_type(dst.graph_type.edge_types, labels, 0);
            added_type_is_found(dst.graph_type.edge_types, labels, ty, labels);
        },
    }
}

proof fn lemma_registered_keeps_types(
    m: GraphTypeModel,
    elements: Seq<BoundGraphElementType>,
    n: int,
)
    ensures
        labels_registered(m, elements, n).vertex_types == m.vertex_types,
        labels_registered(m, elements, n).edge_types == m.edge_types,
        forall|name: Seq<char>|
            m.labels.dom().contains(name) ==> #[trigger] labels_registered(
                m,
                elements,
                n,
            ).labels.dom().contains(name),
    decreases n,
{
    if n > 0 {
        lemma_registered_keeps_types(m, elements, n - 1);
    }
}

/// The name is that of a type, or at an end of an edge.
pub open spec fn is_named_in(element: BoundGraphElementType, name: Seq<char>) -> bool {
    match element {
        BoundGraphElementType::Vertex(vertex) => vertex.name matches Some(n) && n@ == name,
        BoundGraphElementType::Edge(edge) => {
            ||| edge.name matches Some(n) && n@ == name
            ||| edge.left matches NodeTypeRef::Alias(n) && n@ == name
            ||| edge.right matches NodeTypeRef::Alias(n) && n@ == name
        },
    }
}

proof fn lemma_names_registered(
    m: GraphTypeModel,
    elements: Seq<BoundGraphElementType>,
    n: int,
    name: Seq<char>,
)
    requires
        0 <= n <= elements.len(),
    ensures
        labels_registered(m, elements, n).labels.dom().contains(name) <==> m.labels.dom().contains(
            name,
        ) || exists|i: int| 0 <= i < n && is_named_in(#[trigger] elements[i], name),
    decreases n,
{
    if n > 0 {
        lemma_names_registered(m, elements, n - 1, name);
        let last = elements[n - 1];
        assert(labels_registered(m, elements, n).labels.dom().contains(name) <==> labels_registered(
            m,
            elements,
            n - 1,
        ).labels.dom().contains(name) || is_named_in(last, name));
    }
}

/// Where the elements of a graph type can be added, the type of each is found under its labels, and
/// the labels are those that were there and the names in the elements, and no others.
pub proof fn elements_are_found_in_the_catalog(
    m: GraphTypeModel,
    elements: Seq<BoundGraphElementType>,
    i: int,
    name: Seq<char>,
)
    requires
        types_keyed(m),
        0 <= i < elements.len(),
        populated(m, elements).error is None,
    ensures
        labels_of(elements[i]).len() > 0,
        is_found(populated(m, elements).graph_type, elements[i]),
        types_keyed(populated(m, elements).graph_type),
        populated(m, elements).graph_type.labels.dom().contains(name) <==> m.labels.dom().contains(
            name,
        ) || exists|k: int| 0 <= k < elements.len() && is_named_in(#[trigger] elements[k], name),
{
    let n = elements.len() as int;
    let labelled = labels_registered(m, elements, n);
    lemma_registered_keeps_types(m, elements, n);
    lemma_types_added(labelled, elements, n);
    lemma_names_registered(m, elements, n, name);
    lemma_no_error_before(labelled, elements, i + 1, n);
    lemma_no_error_before(labelled, elements, i, n);
}

proof fn lemma_no_error_before(
    m: GraphTypeModel,
    elements: Seq<BoundGraphElementType>,
    i: int,
    n: int,
)
    requires
        0 <= i <= n,
        types_added(m, elements, n).error is None,
    ensures
        types_added(m, elements, i).error is None,
    decreases n - i,
{
    if i < n {
        lemma_no_error_before(m, elements, i, n - 1);
    }
}

/// The first element that cannot be added is what is reported; those after it change nothing.
pub proof fn first_element_that_fails_is_reported(
    m: GraphTypeModel,
    elements: Seq<BoundGraphElementType>,
    i: int,
    n: int,
)
    requires
        0 <= i < n <= elements.len(),
        types_added(m, elements, i).error is None,
        element_added(types_added(m, elements, i).graph_type, elements[i]).error is Some,
    ensures
        types_added(m, elements, n) == element_added(
            types_added(m, elements, i).graph_type,
            elements[i],
        ),
    decreases n - i,
{
    if i + 1 < n {
        first_element_that_fails_is_reported(m, elements, i, n - 1);
    }
}

// ---------------------------------------------------------------------------------------------
// Statements
// ---------------------------------------------------------------------------------------------

/// A new graph stands under its name where the name was free, or was taken and the statement says
/// that the graph replaces what is there; else a taken name keeps its graph, and that is an error
/// only where the statement says nothing of it. No other name changes.
pub proof fn created_graphs_stand_under_their_names(
    plan: CreateGraph,
    before: MemorySchemaCatalog,
    r: ExecutionResult<()>,
    after: MemorySchemaCatalog,
    graph_type: GraphTypeModel,
    other: Seq<char>,
)
    requires
        graph_creation(plan, Some(before), r, Some(after)),
        planned_type(plan) == Ok::<GraphTypeModel, Seq<char>>(graph_type),
    ensures
        after.graph_map@.dom().contains(plan.name@),
        !before.graph_map@.dom().contains(plan.name@) || plan.kind is CreateOrReplace ==> {
            let graph = after.graph_map@[plan.name@];
            &&& r is Ok
            &&& graph.graph_type@ == graph_type
            &&& graph.txn_options.default_lock == LockStrategy::Pessimistic
            &&& graph.txn_options.default_isolation == IsolationLevel::Snapshot
            &&& graph.index_catalog matches Some(catalog) && catalog.entries@.len() == 0
        },
        before.graph_map@.dom().contains(plan.name@) && plan.kind is CreateIfNotExists ==> r is Ok
            && after.graph_map@ == before.graph_map@,
        before.graph_map@.dom().contains(plan.name@) && plan.kind is Create ==> after.graph_map@
            == before.graph_map@ && (r matches Err(e) && error_text(e) == "Graph '"@ + plan.name@
            + "' already exists"@),
        other != plan.name@ ==> after.graph_map@.dom().contains(other)
            == before.graph_map@.dom().contains(other),
        other != plan.name@ && before.graph_map@.dom().contains(other) ==> after.graph_map@[other]
            == before.graph_map@[other],
        after.parent == before.parent,
        after.graph_type_map == before.graph_type_map,
        after.procedure_map == before.procedure_map,
{
    let kind = catalog_kind(plan.kind);
    let graph = choose|graph: GraphRef|
        is_new_graph(*graph, graph_type) && after.graph_map@
            == #[trigger] graphs_created(
            before.graph_map@,
            plan.name@,
            graph,
            kind,
        );
}

/// A graph type that cannot be planned, and a session without a schema, leave everything as it is
/// and say why.
pub proof fn refused_creations_change_nothing(
    plan: CreateGraph,
    before: Option<MemorySchemaCatalog>,
    r: ExecutionResult<()>,
    after: Option<MemorySchemaCatalog>,
)
    requires
        graph_creation(plan, before, r, after),
    ensures
        before is None ==> after is None && (r matches Err(e) && error_text(e)
            == "No current schema set"@),
        before is Some && plan.graph_type is Ref ==> after == before && (r matches Err(e)
            && error_text(e) == "Only nested graph type definitions are supported"@),
        before is Some ==> (plan.graph_type matches BoundGraphType::Nested(elements) ==> (populated(
            GraphTypeModel::empty(),
            elements@,
        ).error matches Some(text) ==> after == before && (r matches Err(e) && error_text(e)
            == text))),
{
}

/// A type that can be planned is what its elements stand for, added to a graph type without labels
/// and types.
pub proof fn planned_types_hold_their_elements(plan: CreateGraph, graph_type: GraphTypeModel, i: int)
    requires
        planned_type(plan) == Ok::<GraphTypeModel, Seq<char>>(graph_type),
    ensures
        plan.graph_type matches BoundGraphType::Nested(elements) && (0 <= i < elements@.len()
            ==> is_found(graph_type, elements@[i]) && labels_of(elements@[i]).len() > 0),
{
    if let BoundGraphType::Nested(elements) = plan.graph_type {
        if 0 <= i < elements@.len() {
            elements_are_found_in_the_catalog(
                GraphTypeModel::empty(),
                elements@,
                i,
                Seq::empty(),
            );
        }
    }
}

/// A dropped graph is gone and every other stays; a name without a graph is an error unless the
/// statement says that it may be missing.
pub proof fn dropped_graphs_are_gone(
    plan: DropGraph,
    before: MemorySchemaCatalog,
    r: ExecutionResult<()>,
    after: MemorySchemaCatalog,
    other: Seq<char>,
)
    requires
        graph_removal(plan, Some(before), r, Some(after)),
    ensures
        !after.graph_map@.dom().contains(plan.name@),
        other != plan.name@ ==> after.graph_map@.dom().contains(other)
            == before.graph_map@.dom().contains(other),
        other != plan.name@ && before.graph_map@.dom().contains(other) ==> after.graph_map@[other]
            == before.graph_map@[other],
        before.graph_map@.dom().contains(plan.name@) ==> r is Ok,
        !before.graph_map@.dom().contains(plan.name@) && plan.if_exists ==> r is Ok,
        !before.graph_map@.dom().contains(plan.name@) && !plan.if_exists ==> (r matches Err(e)
            && error_text(e) == "Graph '"@ + plan.name@ + "' does not exist"@),
        after.parent == before.parent,
        after.graph_type_map == before.graph_type_map,
        after.procedure_map == before.procedure_map,
{
}

} // verus!
