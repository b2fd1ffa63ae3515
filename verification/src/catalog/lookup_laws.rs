//! What is found in a catalog, and what a change leaves in it: laws.

use vstd::prelude::*;
use crate::catalog::graph_type::{
    model_added, model_index, model_of, property_index, type_added, type_index, type_of,
    EdgeTypeModel, GraphTypeModel, Property, VertexTypeModel,
};
use crate::catalog::label_set::{label_set_of, lemma_label_set_of, LabelSet};
use crate::catalog::schema::{
    added, create_outcome, graphs_created, index_by_key, index_by_name, CreateGraphResult,
    CreateKind, GraphRef, VectorIndexCatalogEntry,
};
use crate::common::types::{LabelId, VectorIndexKey};

verus! {

/// A type is found at the first entry with its label set.
pub proof fn first_type_with_labels_is_found<M>(
    types: Seq<(Seq<LabelId>, M)>,
    labels: Seq<LabelId>,
    from: int,
    i: int,
)
    requires
        0 <= from <= i <= types.len(),
        i < types.len() ==> types[i].0 == labels,
        forall|j: int| from <= j < i ==> (#[trigger] types[j]).0 != labels,
    ensures
        i < types.len() ==> model_index(types, labels, from) == Some(i),
        i == types.len() ==> model_index(types, labels, from) is None,
        i < types.len() && from == 0 ==> model_of(types, labels) == Some(types[i].1),
        i == types.len() && from == 0 ==> model_of(types, labels) is None,
    decreases i - from,
{
    if from < i {
        assert(types[from].0 != labels);
        first_type_with_labels_is_found(types, labels, from + 1, i);
    }
}

/// An entry is found at the first position with its label set.
pub proof fn first_entry_with_labels_is_found<T>(
    types: Seq<(LabelSet, T)>,
    labels: Seq<LabelId>,
    from: int,
    i: int,
)
    requires
        0 <= from <= i <= types.len(),
        i < types.len() ==> types[i].0@ == labels,
        forall|j: int| from <= j < i ==> (#[trigger] types[j]).0@ != labels,
    ensures
        i < types.len() ==> type_index(types, labels, from) == Some(i),
        i == types.len() ==> type_index(types, labels, from) is None,
        i < types.len() && from == 0 ==> type_of(types, labels) == Some(types[i].1),
        i == types.len() && from == 0 ==> type_of(types, labels) is None,
    decreases i - from,
{
    if from < i {
        assert(types[from].0@ != labels);
        first_entry_with_labels_is_found(types, labels, from + 1, i);
    }
}

/// What is found under a label set stands under it.
pub proof fn lemma_found_type<M>(types: Seq<(Seq<LabelId>, M)>, labels: Seq<LabelId>, from: int)
    requires
        from >= 0,
    ensures
        match model_index(types, labels, from) {
            Some(i) => from <= i < types.len() && types[i].0 == labels && forall|j: int|
                from <= j < i ==> (#[trigger] types[j]).0 != labels,
            None => forall|j: int| from <= j < types.len() ==> (#[trigger] types[j]).0 != labels,
        },
    decreases types.len() - from,
{
    if from < types.len() && types[from].0 != labels {
        lemma_found_type(types, labels, from + 1);
    }
}

/// A type that is added under a label set that has none is found under it, and one under a label
/// set that has one changes nothing; what is found under every other label set stays.
pub proof fn added_type_is_found<M>(
    types: Seq<(Seq<LabelId>, M)>,
    labels: Seq<LabelId>,
    ty: M,
    other: Seq<LabelId>,
)
    ensures
        (forall|j: int| 0 <= j < types.len() ==> (#[trigger] types[j]).0 != labels) ==> {
            &&& model_added(types, labels, ty).len() == types.len() + 1
            &&& model_of(model_added(types, labels, ty), labels) == Some(ty)
        },
        (exists|j: int| 0 <= j < types.len() && (#[trigger] types[j]).0 == labels) ==> model_added(
            types,
            labels,
            ty,
        ) == types,
        forall|j: int|
            0 <= j < types.len() ==> #[trigger] model_added(types, labels, ty)[j] == types[j],
        other != labels ==> model_of(model_added(types, labels, ty), other) == model_of(
            types,
            other,
        ),
{
    let after = model_added(types, labels, ty);
    lemma_found_type(types, labels, 0);
    if model_index(types, labels, 0) is None {
        assert forall|j: int| 0 <= j < types.len() implies (#[trigger] after[j]).0 != labels by {
            assert(after[j] == types[j]);
        }
        first_type_with_labels_is_found(after, labels, 0, types.len() as int);
        if other != labels {
            lemma_found_type(types, other, 0);
            match model_index(types, other, 0) {
                Some(i) => {
                    assert forall|j: int| 0 <= j < i implies (#[trigger] after[j]).0 != other by {
                        assert(after[j] == types[j]);
                    }
                    first_type_with_labels_is_found(after, other, 0, i);
                },
                None => {
                    assert forall|j: int| 0 <= j < after.len() implies (#[trigger] after[j]).0
                        != other by {
                        if j < types.len() {
                            assert(after[j] == types[j]);
                        }
                    }
                    first_type_with_labels_is_found(after, other, 0, after.len() as int);
                },
            }
        }
    }
}

/// A type that is added under a label set that has none is the last one; one under a label set that
/// has one is not taken.
pub proof fn added_entry_is_the_last<T>(types: Seq<(LabelSet, T)>, labels: LabelSet, ty: T)
    ensures
        (forall|j: int| 0 <= j < types.len() ==> (#[trigger] types[j]).0@ != labels@) ==> type_added(
            types,
            labels,
            ty,
        ) == types.push((labels, ty)),
        (exists|j: int| 0 <= j < types.len() && (#[trigger] types[j]).0@ == labels@) ==> type_added(
            types,
            labels,
            ty,
        ) == types,
{
    lemma_found_entry(types, labels@, 0);
}

proof fn lemma_found_entry<T>(types: Seq<(LabelSet, T)>, labels: Seq<LabelId>, from: int)
    requires
        from >= 0,
    ensures
        match type_index(types, labels, from) {
            Some(i) => from <= i < types.len() && types[i].0@ == labels,
            None => forall|j: int| from <= j < types.len() ==> (#[trigger] types[j]).0@ != labels,
        },
    decreases types.len() - from,
{
    if from < types.len() && types[from].0@ != labels {
        lemma_found_entry(types, labels, from + 1);
    }
}

/// A new label gets the next number and the number after it is next; a label that is there keeps
/// its number. No other label and no type changes.
pub proof fn added_label_gets_the_next_number(m: GraphTypeModel, name: Seq<char>, other: Seq<char>)
    requires
        1 <= m.next_label_id <= u32::MAX,
    ensures
        ({
            let after = m.label_added(name);
            &&& after.labels.dom().contains(name)
            &&& !m.labels.dom().contains(name) ==> after.labels[name].raw == m.next_label_id
                && after.next_label_id == m.next_label_id + 1
            &&& m.labels.dom().contains(name) ==> after.labels[name] == m.labels[name]
                && after.next_label_id == m.next_label_id
            &&& other != name ==> after.labels.dom().contains(other) == m.labels.dom().contains(
                other,
            )
            &&& other != name && m.labels.dom().contains(other) ==> after.labels[other]
                == m.labels[other]
            &&& after.vertex_types == m.vertex_types
            &&& after.edge_types == m.edge_types
        }),
{
}

/// An added type leaves the labels and the types of the other sort as they are.
pub proof fn added_types_keep_the_rest(
    m: GraphTypeModel,
    labels: Seq<LabelId>,
    vertex_type: VertexTypeModel,
    edge_type: EdgeTypeModel,
)
    ensures
        m.vertex_type_added(labels, vertex_type).labels == m.labels,
        m.vertex_type_added(labels, vertex_type).next_label_id == m.next_label_id,
        m.vertex_type_added(labels, vertex_type).edge_types == m.edge_types,
        (forall|j: int| 0 <= j < m.vertex_types.len() ==> (#[trigger] m.vertex_types[j]).0 != labels)
            ==> model_of(m.vertex_type_added(labels, vertex_type).vertex_types, labels) == Some(
            vertex_type,
        ),
        m.edge_type_added(labels, edge_type).labels == m.labels,
        m.edge_type_added(labels, edge_type).next_label_id == m.next_label_id,
        m.edge_type_added(labels, edge_type).vertex_types == m.vertex_types,
        (forall|j: int| 0 <= j < m.edge_types.len() ==> (#[trigger] m.edge_types[j]).0 != labels)
            ==> model_of(m.edge_type_added(labels, edge_type).edge_types, labels) == Some(
            edge_type,
        ),
{
    added_type_is_found(m.vertex_types, labels, vertex_type, labels);
    added_type_is_found(m.edge_types, labels, edge_type, labels);
}

/// A property is found at the first position with its name; the position is its identifier.
pub proof fn first_property_with_a_name_is_found(
    properties: Seq<Property>,
    name: Seq<char>,
    from: int,
    i: int,
)
    requires
        0 <= from <= i <= properties.len(),
        i < properties.len() ==> properties[i].name@ == name,
        forall|j: int| from <= j < i ==> (#[trigger] properties[j]).name@ != name,
    ensures
        i < properties.len() ==> property_index(properties, name, from) == Some(i),
        i == properties.len() ==> property_index(properties, name, from) is None,
    decreases i - from,
{
    if from < i {
        assert(properties[from].name@ != name);
        first_property_with_a_name_is_found(properties, name, from + 1, i);
    }
}

/// An index is found by its key at the first entry with the key.
pub proof fn first_index_on_a_key_is_found(
    entries: Seq<VectorIndexCatalogEntry>,
    key: VectorIndexKey,
    from: int,
    i: int,
)
    requires
        0 <= from <= i <= entries.len(),
        i < entries.len() ==> entries[i].key.label_id == key.label_id && entries[i].key.property_id
            == key.property_id,
        forall|j: int|
            from <= j < i ==> (#[trigger] entries[j]).key.label_id != key.label_id
                || entries[j].key.property_id != key.property_id,
    ensures
        i < entries.len() ==> index_by_key(entries, key, from) == Some(entries[i]),
        i == entries.len() ==> index_by_key(entries, key, from) is None,
    decreases i - from,
{
    if from < i {
        let first = entries[from];
        first_index_on_a_key_is_found(entries, key, from + 1, i);
    }
}

/// An index is found by its name at the first entry with the name.
pub proof fn first_index_with_a_name_is_found(
    entries: Seq<VectorIndexCatalogEntry>,
    name: Seq<char>,
    from: int,
    i: int,
)
    requires
        0 <= from <= i <= entries.len(),
        i < entries.len() ==> entries[i].name@ == name,
        forall|j: int| from <= j < i ==> (#[trigger] entries[j]).name@ != name,
    ensures
        i < entries.len() ==> index_by_name(entries, name, from) == Some(entries[i]),
        i == entries.len() ==> index_by_name(entries, name, from) is None,
    decreases i - from,
{
    if from < i {
        assert(entries[from].name@ != name);
        first_index_with_a_name_is_found(entries, name, from + 1, i);
    }
}

/// A name that is free gets the value that is added under it, and a name that is taken keeps its
/// own; every other name is as before.
pub proof fn added_value_is_found_unless_the_name_is_taken<V>(
    map: Map<Seq<char>, V>,
    name: Seq<char>,
    value: V,
    other: Seq<char>,
)
    ensures
        !map.dom().contains(name) ==> added(map, name, value).dom().contains(name) && added(
            map,
            name,
            value,
        )[name] == value,
        map.dom().contains(name) ==> added(map, name, value)[name] == map[name],
        other != name ==> added(map, name, value).dom().contains(other) == map.dom().contains(other),
        other != name && map.dom().contains(other) ==> added(map, name, value)[other] == map[other],
{
}

/// A graph is created under a free name whatever the kind; a taken name keeps its graph, unless the
/// kind says that the graph replaces it.
pub proof fn taken_names_keep_their_graphs(
    graphs: Map<Seq<char>, GraphRef>,
    name: Seq<char>,
    graph: GraphRef,
    kind: CreateKind,
)
    ensures
        !graphs.dom().contains(name) ==> graphs_created(graphs, name, graph, kind)[name] == graph
            && create_outcome(kind, false) == CreateGraphResult::Created,
        graphs.dom().contains(name) && (kind is Create || kind is CreateIfNotExists)
            ==> graphs_created(graphs, name, graph, kind) == graphs && create_outcome(kind, true)
            == CreateGraphResult::AlreadyExists,
        graphs.dom().contains(name) && kind is CreateOrReplace ==> graphs_created(
            graphs,
            name,
            graph,
            kind,
        )[name] == graph && create_outcome(kind, true) == CreateGraphResult::Replaced,
{
}

/// The set of a list of labels ascends and has exactly the labels of the list, so that neither the
/// order of the list nor what it repeats matters.
pub proof fn label_sets_forget_order_and_repetition(
    a: Seq<LabelId>,
    b: Seq<LabelId>,
    set: Seq<LabelId>,
)
    requires
        forall|id: LabelId| #[trigger] a.contains(id) <==> b.contains(id),
        forall|id: LabelId| #[trigger] set.contains(id) <==> a.contains(id),
        forall|i: int, j: int|
            0 <= i < j < set.len() ==> (#[trigger] set[i]).raw < (#[trigger] set[j]).raw,
    ensures
        label_set_of(a) == set,
        label_set_of(b) == set,
{
    lemma_label_set_of(set, a);
    lemma_label_set_of(set, b);
}

} // verus!
