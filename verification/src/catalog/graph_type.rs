//! Graph types: labels, vertex types and edge types.

use vstd::prelude::*;
use std::sync::Arc;
use crate::catalog::label_set::LabelSet;
use crate::common::data_type::LogicalType;
use crate::common::name_map::{lemma_entries_map, NameMap};
use crate::common::text::strings_equal;
use crate::common::types::LabelId;

verus! {

/// A property of a vertex or edge type.
#[derive(Debug, PartialEq, Eq)]
pub struct Property {
    pub name: String,
    pub ty: LogicalType,
    pub nullable: bool,
}

impl Clone for Property {
    fn clone(&self) -> (r: Self)
        ensures
            r == *self,
    {
        Property { name: self.name.clone(), ty: self.ty.clone(), nullable: self.nullable }
    }
}

impl Property {
    pub fn new(name: String, ty: LogicalType, nullable: bool) -> (r: Self)
        ensures
            r == (Property { name, ty, nullable }),
    {
        Property { name, ty, nullable }
    }

    pub fn name(&self) -> (r: &str)
        ensures
            r@ == self.name@,
    {
        self.name.as_str()
    }

    pub fn logical_type(&self) -> (r: &LogicalType)
        ensures
            *r == self.ty,
    {
        &self.ty
    }

    pub fn nullable(&self) -> (r: bool)
        ensures
            r == self.nullable,
    {
        self.nullable
    }
}

/// The position of the first property with a name, from `from` on.
pub open spec fn property_index(properties: Seq<Property>, name: Seq<char>, from: int) -> Option<
    int,
>
    decreases properties.len() - from,
{
    if from >= properties.len() {
        None
    } else if properties[from].name@ == name {
        Some(from)
    } else {
        property_index(properties, name, from + 1)
    }
}

/// A property that is found is in range and has the name.
pub proof fn lemma_property_index(properties: Seq<Property>, name: Seq<char>, from: int)
    requires
        from >= 0,
    ensures
        property_index(properties, name, from) matches Some(i) ==> from <= i < properties.len()
            && properties[i].name@ == name,
    decreases properties.len() - from,
{
    if from < properties.len() && properties[from].name@ != name {
        lemma_property_index(properties, name, from + 1);
    }
}

/// The position of the property with a name; the position is the property's identifier.
pub fn find_property(properties: &Vec<Property>, name: &str) -> (r: Option<usize>)
    ensures
        property_index(properties@, name@, 0) == (match r {
            Some(i) => Some(i as int),
            None => None,
        }),
        r matches Some(i) ==> i < properties@.len(),
{
    let mut i: usize = 0;
    while i < properties.len()
        invariant
            i <= properties.len(),
            property_index(properties@, name@, 0) == property_index(
                properties@,
                name@,
                i as int,
            ),
        decreases properties.len() - i,
    {
        if strings_equal(properties[i].name.as_str(), name) {
            return Some(i);
        }
        i = i + 1;
    }
    None
}

/// A vertex type.
#[derive(Debug)]
pub struct MemoryVertexTypeCatalog {
    pub label_set: LabelSet,
    pub properties: Vec<Property>,
}

impl MemoryVertexTypeCatalog {
    pub fn new(label_set: LabelSet, properties: Vec<Property>) -> (r: Self)
        ensures
            r == (MemoryVertexTypeCatalog { label_set, properties }),
    {
        MemoryVertexTypeCatalog { label_set, properties }
    }
}

/// A vertex type shared by those that refer to it.
pub type VertexTypeRef = Arc<MemoryVertexTypeCatalog>;

/// An edge type with the types of its ends.
#[derive(Debug)]
pub struct MemoryEdgeTypeCatalog {
    pub label_set: LabelSet,
    pub src: VertexTypeRef,
    pub dst: VertexTypeRef,
    pub properties: Vec<Property>,
}

impl MemoryEdgeTypeCatalog {
    pub fn new(
        label_set: LabelSet,
        src: VertexTypeRef,
        dst: VertexTypeRef,
        properties: Vec<Property>,
    ) -> (r: Self)
        ensures
            r == (MemoryEdgeTypeCatalog { label_set, src, dst, properties }),
    {
        MemoryEdgeTypeCatalog { label_set, src, dst, properties }
    }
}

/// An edge type shared by those that refer to it.
pub type EdgeTypeRef = Arc<MemoryEdgeTypeCatalog>;

/// A graph type. Labels are numbered from one, in the order in which they are added.
#[derive(Debug)]
pub struct MemoryGraphTypeCatalog {
    pub next_label_id: u32,
    pub label_map: NameMap<LabelId>,
    pub vertex_types: Vec<(LabelSet, VertexTypeRef)>,
    pub edge_types: Vec<(LabelSet, EdgeTypeRef)>,
}

// ---------------------------------------------------------------------------------------------
// Graph types as values
// ---------------------------------------------------------------------------------------------

pub struct PropertyModel {
    pub name: Seq<char>,
    pub ty: LogicalType,
    pub nullable: bool,
}

#[verifier::ext_equal]
pub struct VertexTypeModel {
    pub labels: Seq<LabelId>,
    pub properties: Seq<PropertyModel>,
}

#[verifier::ext_equal]
pub struct EdgeTypeModel {
    pub labels: Seq<LabelId>,
    pub src: VertexTypeModel,
    pub dst: VertexTypeModel,
    pub properties: Seq<PropertyModel>,
}

/// A graph type: the numbers of the labels, the number of the next label, and the types under
/// their label sets.
#[verifier::ext_equal]
pub struct GraphTypeModel {
    pub labels: Map<Seq<char>, LabelId>,
    pub next_label_id: int,
    pub vertex_types: Seq<(Seq<LabelId>, VertexTypeModel)>,
    pub edge_types: Seq<(Seq<LabelId>, EdgeTypeModel)>,
}

impl Property {
    pub open spec fn model(self) -> PropertyModel {
        PropertyModel { name: self.name@, ty: self.ty, nullable: self.nullable }
    }
}

/// Properties as values.
pub open spec fn property_models(properties: Seq<Property>) -> Seq<PropertyModel> {
    properties.map_values(|p: Property| p.model())
}

impl MemoryVertexTypeCatalog {
    pub open spec fn model(self) -> VertexTypeModel {
        VertexTypeModel { labels: self.label_set@, properties: property_models(self.properties@) }
    }
}

impl MemoryEdgeTypeCatalog {
    pub open spec fn model(self) -> EdgeTypeModel {
        EdgeTypeModel {
            labels: self.label_set@,
            src: self.src.model(),
            dst: self.dst.model(),
            properties: property_models(self.properties@),
        }
    }
}

pub open spec fn vertex_type_models(types: Seq<(LabelSet, VertexTypeRef)>) -> Seq<
    (Seq<LabelId>, VertexTypeModel),
> {
    types.map_values(|t: (LabelSet, VertexTypeRef)| (t.0@, t.1.model()))
}

pub open spec fn edge_type_models(types: Seq<(LabelSet, EdgeTypeRef)>) -> Seq<
    (Seq<LabelId>, EdgeTypeModel),
> {
    types.map_values(|t: (LabelSet, EdgeTypeRef)| (t.0@, t.1.model()))
}

/// The position of the first type with a label set, from `from` on.
pub open spec fn model_index<M>(
    types: Seq<(Seq<LabelId>, M)>,
    labels: Seq<LabelId>,
    from: int,
) -> Option<int>
    decreases types.len() - from,
{
    if from >= types.len() {
        None
    } else if types[from].0 == labels {
        Some(from)
    } else {
        model_index(types, labels, from + 1)
    }
}

/// The type with a label set.
pub open spec fn model_of<M>(types: Seq<(Seq<LabelId>, M)>, labels: Seq<LabelId>) -> Option<M> {
    match model_index(types, labels, 0) {
        Some(i) => Some(types[i].1),
        None => None,
    }
}

/// The types after one has been added; a label set that has one keeps it.
pub open spec fn model_added<M>(
    types: Seq<(Seq<LabelId>, M)>,
    labels: Seq<LabelId>,
    ty: M,
) -> Seq<(Seq<LabelId>, M)> {
    if model_index(types, labels, 0) is Some {
        types
    } else {
        types.push((labels, ty))
    }
}

impl GraphTypeModel {
    /// No label and no type.
    pub open spec fn empty() -> GraphTypeModel {
        GraphTypeModel {
            labels: Map::empty(),
            next_label_id: 1,
            vertex_types: Seq::empty(),
            edge_types: Seq::empty(),
        }
    }

    /// The label has the number.
    pub open spec fn has_label(self, name: Seq<char>, id: LabelId) -> bool {
        self.labels.dom().contains(name) && self.labels[name] == id
    }

    /// After a label has been added; one that is there keeps its number.
    pub open spec fn label_added(self, name: Seq<char>) -> GraphTypeModel {
        if self.labels.dom().contains(name) {
            self
        } else {
            GraphTypeModel {
                labels: self.labels.insert(name, LabelId { raw: self.next_label_id as u32 }),
                next_label_id: self.next_label_id + 1,
                ..self
            }
        }
    }

    pub open spec fn vertex_type_added(
        self,
        labels: Seq<LabelId>,
        ty: VertexTypeModel,
    ) -> GraphTypeModel {
        GraphTypeModel { vertex_types: model_added(self.vertex_types, labels, ty), ..self }
    }

    pub open spec fn edge_type_added(
        self,
        labels: Seq<LabelId>,
        ty: EdgeTypeModel,
    ) -> GraphTypeModel {
        GraphTypeModel { edge_types: model_added(self.edge_types, labels, ty), ..self }
    }
}

impl View for MemoryGraphTypeCatalog {
    type V = GraphTypeModel;

    open spec fn view(&self) -> GraphTypeModel {
        GraphTypeModel {
            labels: self.label_map@,
            next_label_id: self.next_label_id as int,
            vertex_types: vertex_type_models(self.vertex_types@),
            edge_types: edge_type_models(self.edge_types@),
        }
    }
}

/// The position of the first entry with a label set, from `from` on.
pub open spec fn type_index<T>(
    types: Seq<(LabelSet, T)>,
    labels: Seq<LabelId>,
    from: int,
) -> Option<int>
    decreases types.len() - from,
{
    if from >= types.len() {
        None
    } else if types[from].0@ == labels {
        Some(from)
    } else {
        type_index(types, labels, from + 1)
    }
}

/// The type with a label set.
pub open spec fn type_of<T>(types: Seq<(LabelSet, T)>, labels: Seq<LabelId>) -> Option<T> {
    match type_index(types, labels, 0) {
        Some(i) => Some(types[i].1),
        None => None,
    }
}

/// The types after one has been added; a label set that has one keeps it.
pub open spec fn type_added<T>(types: Seq<(LabelSet, T)>, labels: LabelSet, ty: T) -> Seq<
    (LabelSet, T),
> {
    if type_index(types, labels@, 0) is Some {
        types
    } else {
        types.push((labels, ty))
    }
}

/// An entry that is found is in range and has the label set.
pub proof fn lemma_type_index<T>(types: Seq<(LabelSet, T)>, labels: Seq<LabelId>, from: int)
    requires
        from >= 0,
    ensures
        type_index(types, labels, from) matches Some(i) ==> from <= i < types.len()
            && types[i].0@ == labels,
    decreases types.len() - from,
{
    if from < types.len() && types[from].0@ != labels {
        lemma_type_index(types, labels, from + 1);
    }
}

/// Vertex types are found by their label sets as values too.
pub proof fn lemma_vertex_type_models(
    types: Seq<(LabelSet, VertexTypeRef)>,
    labels: Seq<LabelId>,
    from: int,
)
    requires
        from >= 0,
    ensures
        model_index(vertex_type_models(types), labels, from) == type_index(types, labels, from),
    decreases types.len() - from,
{
    if from < types.len() && types[from].0@ != labels {
        lemma_vertex_type_models(types, labels, from + 1);
    }
}

/// Edge types are found by their label sets as values too.
pub proof fn lemma_edge_type_models(
    types: Seq<(LabelSet, EdgeTypeRef)>,
    labels: Seq<LabelId>,
    from: int,
)
    requires
        from >= 0,
    ensures
        model_index(edge_type_models(types), labels, from) == type_index(types, labels, from),
    decreases types.len() - from,
{
    if from < types.len() && types[from].0@ != labels {
        lemma_edge_type_models(types, labels, from + 1);
    }
}

fn find_type<T>(types: &Vec<(LabelSet, T)>, labels: &LabelSet) -> (r: Option<usize>)
    ensures
        type_index(types@, labels@, 0) == (match r {
            Some(i) => Some(i as int),
            None => None,
        }),
        r matches Some(i) ==> i < types@.len(),
{
    let mut i: usize = 0;
    while i < types.len()
        invariant
            i <= types.len(),
            type_index(types@, labels@, 0) == type_index(types@, labels@, i as int),
        decreases types.len() - i,
    {
        if types[i].0.equals(labels) {
            return Some(i);
        }
        i = i + 1;
    }
    None
}

impl MemoryGraphTypeCatalog {
    /// Every label has a number below the next one, and no number is zero.
    pub open spec fn wf(&self) -> bool {
        &&& self.label_map.wf()
        &&& self.next_label_id >= 1
        &&& forall|name: Seq<char>| #[trigger]
            self.label_map@.dom().contains(name) ==> 1 <= self.label_map@[name].raw
                < self.next_label_id
        &&& forall|a: Seq<char>, b: Seq<char>|
            #![trigger self.label_map@[a], self.label_map@[b]]
            self.label_map@.dom().contains(a) && self.label_map@.dom().contains(b) && a != b
                ==> self.label_map@[a] != self.label_map@[b]
    }

    pub fn new() -> (r: Self)
        ensures
            r.wf(),
            r.next_label_id == 1,
            r.label_map@ == Map::<Seq<char>, LabelId>::empty(),
            r.vertex_types@ == Seq::<(LabelSet, VertexTypeRef)>::empty(),
            r.edge_types@ == Seq::<(LabelSet, EdgeTypeRef)>::empty(),
            r@ == GraphTypeModel::empty(),
    {
        assert(vertex_type_models(Seq::<(LabelSet, VertexTypeRef)>::empty()) =~= Seq::empty());
        assert(edge_type_models(Seq::<(LabelSet, EdgeTypeRef)>::empty()) =~= Seq::empty());
        MemoryGraphTypeCatalog {
            next_label_id: 1,
            label_map: NameMap::new(),
            vertex_types: Vec::new(),
            edge_types: Vec::new(),
        }
    }

    /// Numbers a label that is new.
    pub fn add_label(&mut self, name: String) -> (r: Option<LabelId>)
        requires
            old(self).wf(),
            !old(self).label_map@.dom().contains(name@) ==> old(self).next_label_id < u32::MAX,
        ensures
            final(self).wf(),
            final(self).vertex_types@ == old(self).vertex_types@,
            final(self).edge_types@ == old(self).edge_types@,
            final(self)@ == old(self)@.label_added(name@),
            if old(self).label_map@.dom().contains(name@) {
                &&& r is None
                &&& final(self).label_map@ == old(self).label_map@
                &&& final(self).next_label_id == old(self).next_label_id
            } else {
                &&& r == Some(LabelId { raw: old(self).next_label_id })
                &&& final(self).label_map@ == old(self).label_map@.insert(
                    name@,
                    LabelId { raw: old(self).next_label_id },
                )
                &&& final(self).next_label_id == old(self).next_label_id + 1
            },
    {
        if self.label_map.contains(name.as_str()) {
            return None;
        }
        let id = LabelId { raw: self.next_label_id };
        self.label_map.insert(name, id);
        self.next_label_id = self.next_label_id + 1;
        Some(id)
    }

    /// The number of a label.
    pub fn get_label_id(&self, name: &str) -> (r: Option<LabelId>)
        requires
            self.wf(),
        ensures
            r == (if self.label_map@.dom().contains(name@) {
                Some(self.label_map@[name@])
            } else {
                None
            }),
    {
        match self.label_map.get(name) {
            Some(id) => Some(*id),
            None => None,
        }
    }

    /// The label with a number.
    pub fn label_name(&self, id: LabelId) -> (r: Option<String>)
        requires
            self.wf(),
        ensures
            match r {
                Some(name) => self@.has_label(name@, id),
                None => forall|name: Seq<char>| !#[trigger] self@.has_label(name, id),
            },
    {
        proof {
            lemma_entries_map(self.label_map.entries@);
        }
        let mut i: usize = 0;
        while i < self.label_map.entries.len()
            invariant
                i <= self.label_map.entries@.len(),
                forall|k: int|
                    0 <= k < self.label_map.entries@.len() ==> self.label_map@.dom().contains(
                        (#[trigger] self.label_map.entries@[k]).0@,
                    ) && self.label_map@[self.label_map.entries@[k].0@]
                        == self.label_map.entries@[k].1,
                forall|k: int| 0 <= k < i ==> (#[trigger] self.label_map.entries@[k]).1 != id,
            decreases self.label_map.entries.len() - i,
        {
            if self.label_map.entries[i].1 == id {
                assert(self.label_map@.dom().contains(self.label_map.entries@[i as int].0@));
                return Some(self.label_map.entries[i].0.clone());
            }
            i = i + 1;
        }
        proof {
            assert forall|name: Seq<char>| !#[trigger] self@.has_label(name, id) by {
                if self@.has_label(name, id) {
                    let k = choose|k: int|
                        0 <= k < self.label_map.entries@.len() && (
                        #[trigger] self.label_map.entries@[k]).0@ == name;
                    assert(self.label_map.entries@[k].1 != id);
                }
            }
        }
        None
    }

    /// Adds a vertex type, unless its label set has one.
    pub fn add_vertex_type(&mut self, label_set: LabelSet, vertex_type: VertexTypeRef) -> (r: bool)
        requires
            old(self).wf(),
        ensures
            final(self).wf(),
            r == (type_index(old(self).vertex_types@, label_set@, 0) is None),
            final(self).vertex_types@ == type_added(
                old(self).vertex_types@,
                label_set,
                vertex_type,
            ),
            final(self).edge_types@ == old(self).edge_types@,
            final(self).label_map@ == old(self).label_map@,
            final(self).next_label_id == old(self).next_label_id,
            final(self)@ == old(self)@.vertex_type_added(label_set@, vertex_type.model()),
    {
        let ghost before = self.vertex_types@;
        proof {
            lemma_vertex_type_models(before, label_set@, 0);
        }
        if find_type(&self.vertex_types, &label_set).is_some() {
            return false;
        }
        self.vertex_types.push((label_set, vertex_type));
        assert(vertex_type_models(self.vertex_types@) =~= vertex_type_models(before).push(
            (label_set@, vertex_type.model()),
        ));
        true
    }

    /// The vertex type with a label set.
    pub fn get_vertex_type(&self, label_set: &LabelSet) -> (r: Option<VertexTypeRef>)
        ensures
            r == type_of(self.vertex_types@, label_set@),
            model_of(self@.vertex_types, label_set@) == (match r {
                Some(ty) => Some(ty.model()),
                None => None,
            }),
    {
        proof {
            lemma_vertex_type_models(self.vertex_types@, label_set@, 0);
        }
        match find_type(&self.vertex_types, label_set) {
            Some(i) => Some(self.vertex_types[i].1.clone()),
            None => None,
        }
    }

    /// Adds an edge type, unless its label set has one.
    pub fn add_edge_type(&mut self, label_set: LabelSet, edge_type: EdgeTypeRef) -> (r: bool)
        requires
            old(self).wf(),
        ensures
            final(self).wf(),
            r == (type_index(old(self).edge_types@, label_set@, 0) is None),
            final(self).edge_types@ == type_added(old(self).edge_types@, label_set, edge_type),
            final(self).vertex_types@ == old(self).vertex_types@,
            final(self).label_map@ == old(self).label_map@,
            final(self).next_label_id == old(self).next_label_id,
            final(self)@ == old(self)@.edge_type_added(label_set@, edge_type.model()),
    {
        let ghost before = self.edge_types@;
        proof {
            lemma_edge_type_models(before, label_set@, 0);
        }
        if find_type(&self.edge_types, &label_set).is_some() {
            return false;
        }
        self.edge_types.push((label_set, edge_type));
        assert(edge_type_models(self.edge_types@) =~= edge_type_models(before).push(
            (label_set@, edge_type.model()),
        ));
        true
    }

    /// The edge type with a label set.
    pub fn get_edge_type(&self, label_set: &LabelSet) -> (r: Option<EdgeTypeRef>)
        ensures
            r == type_of(self.edge_types@, label_set@),
            model_of(self@.edge_types, label_set@) == (match r {
                Some(ty) => Some(ty.model()),
                None => None,
            }),
    {
        proof {
            lemma_edge_type_models(self.edge_types@, label_set@, 0);
        }
        match find_type(&self.edge_types, label_set) {
            Some(i) => Some(self.edge_types[i].1.clone()),
            None => None,
        }
    }
}

} // verus!
