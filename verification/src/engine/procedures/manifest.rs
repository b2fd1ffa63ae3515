//! Manifests: what an exported graph consists of.

use vstd::prelude::*;
use std::sync::Arc;
use crate::catalog::graph_type::{
    model_index, model_of, property_models, EdgeTypeModel, GraphTypeModel, MemoryEdgeTypeCatalog,
    MemoryGraphTypeCatalog, MemoryVertexTypeCatalog, Property, PropertyModel, VertexTypeModel,
    VertexTypeRef,
};
use crate::catalog::label_set::LabelSet;
use crate::common::name_map::NameMap;
use crate::common::text::strings_equal;
use crate::common::types::LabelId;
use crate::engine::procedures::field::{ImportError, ImportFailure};

verus! {

/// A file with the records of a label.
#[derive(Debug)]
pub struct FileSpec {
    pub path: String,
    pub format: String,
}

impl FileSpec {
    pub fn new(path: String, format: String) -> (r: Self)
        ensures
            r == (FileSpec { path, format }),
    {
        FileSpec { path, format }
    }
}

/// The vertices with a label.
#[derive(Debug)]
pub struct VertexSpec {
    pub label: String,
    pub file: FileSpec,
    pub properties: Vec<Property>,
}

impl VertexSpec {
    pub fn new(label: String, file: FileSpec, properties: Vec<Property>) -> (r: Self)
        ensures
            r == (VertexSpec { label, file, properties }),
    {
        VertexSpec { label, file, properties }
    }
}

/// The edges with a label.
#[derive(Debug)]
pub struct EdgeSpec {
    pub label: String,
    pub src_label: String,
    pub dst_label: String,
    pub file: FileSpec,
    pub properties: Vec<Property>,
}

impl EdgeSpec {
    pub fn new(
        label: String,
        src_label: String,
        dst_label: String,
        file: FileSpec,
        properties: Vec<Property>,
    ) -> (r: Self)
        ensures
            r == (EdgeSpec { label, src_label, dst_label, file, properties }),
    {
        EdgeSpec { label, src_label, dst_label, file, properties }
    }
}

/// What an exported graph consists of.
#[derive(Debug)]
pub struct Manifest {
    pub vertices: Vec<VertexSpec>,
    pub edges: Vec<EdgeSpec>,
}

#[verifier::ext_equal]
pub struct VertexSpecModel {
    pub label: Seq<char>,
    pub path: Seq<char>,
    pub format: Seq<char>,
    pub properties: Seq<PropertyModel>,
}

#[verifier::ext_equal]
pub struct EdgeSpecModel {
    pub label: Seq<char>,
    pub src_label: Seq<char>,
    pub dst_label: Seq<char>,
    pub path: Seq<char>,
    pub format: Seq<char>,
    pub properties: Seq<PropertyModel>,
}

#[verifier::ext_equal]
pub struct ManifestModel {
    pub vertices: Seq<VertexSpecModel>,
    pub edges: Seq<EdgeSpecModel>,
}

impl View for VertexSpec {
    type V = VertexSpecModel;

    open spec fn view(&self) -> VertexSpecModel {
        VertexSpecModel {
            label: self.label@,
            path: self.file.path@,
            format: self.file.format@,
            properties: property_models(self.properties@),
        }
    }
}

impl View for EdgeSpec {
    type V = EdgeSpecModel;

    open spec fn view(&self) -> EdgeSpecModel {
        EdgeSpecModel {
            label: self.label@,
            src_label: self.src_label@,
            dst_label: self.dst_label@,
            path: self.file.path@,
            format: self.file.format@,
            properties: property_models(self.properties@),
        }
    }
}

impl View for Manifest {
    type V = ManifestModel;

    open spec fn view(&self) -> ManifestModel {
        ManifestModel {
            vertices: self.vertices@.map_values(|s: VertexSpec| s@),
            edges: self.edges@.map_values(|s: EdgeSpec| s@),
        }
    }
}

// ---------------------------------------------------------------------------------------------
// The graph type of a manifest
// ---------------------------------------------------------------------------------------------

impl ManifestModel {
    /// The label at a position: first those of the vertices, then those of the edges.
    pub open spec fn label_at(self, i: int) -> Seq<char> {
        if i < self.vertices.len() {
            self.vertices[i].label
        } else {
            self.edges[i - self.vertices.len()].label
        }
    }

    /// The number of labels.
    pub open spec fn size(self) -> int {
        (self.vertices.len() + self.edges.len()) as int
    }

    /// The vertices with a label.
    pub open spec fn is_vertex_label(self, i: int, label: Seq<char>) -> bool {
        0 <= i < self.vertices.len() && self.vertices[i].label == label
    }

    /// There are vertices with a label.
    pub open spec fn has_vertices(self, label: Seq<char>) -> bool {
        exists|i: int| #[trigger] self.is_vertex_label(i, label)
    }

    /// No label occurs twice, and the ends of the edges have labels of vertices.
    pub open spec fn is_valid(self) -> bool {
        &&& forall|i: int, j: int|
            0 <= i < j < self.size() ==> #[trigger] self.label_at(i) != #[trigger] self.label_at(j)
        &&& forall|j: int|
            0 <= j < self.edges.len() ==> self.has_vertices((#[trigger] self.edges[j]).src_label)
                && self.has_vertices(self.edges[j].dst_label)
        &&& 1 + self.size() <= u32::MAX
    }

    /// The label at a position occurs before it too.
    pub open spec fn repeats(self, i: int) -> bool {
        exists|j: int| 0 <= j < i && #[trigger] self.label_at(j) == self.label_at(i)
    }

    /// What is wrong with the label at a position, or with the ends of its edges.
    pub open spec fn failure_at(self, i: int) -> Option<ImportFailure> {
        if self.repeats(i) {
            Some(ImportFailure::DuplicateLabel(self.label_at(i)))
        } else if i < self.vertices.len() {
            None
        } else {
            let spec = self.edges[i - self.vertices.len()];
            if !self.has_vertices(spec.src_label) {
                Some(ImportFailure::UnknownLabel(spec.src_label))
            } else if !self.has_vertices(spec.dst_label) {
                Some(ImportFailure::UnknownLabel(spec.dst_label))
            } else {
                None
            }
        }
    }

    /// The first thing that is wrong with the first `n` labels.
    pub open spec fn failure_below(self, n: int) -> Option<ImportFailure>
        decreases n,
    {
        if n <= 0 {
            None
        } else {
            match self.failure_below(n - 1) {
                Some(e) => Some(e),
                None => self.failure_at(n - 1),
            }
        }
    }

    /// What is wrong with the manifest, if anything is.
    pub open spec fn failure(self) -> Option<ImportFailure> {
        if 1 + self.size() > u32::MAX {
            Some(ImportFailure::TooManyLabels)
        } else {
            self.failure_below(self.size())
        }
    }

    /// The position of a label among the vertices.
    pub open spec fn vertex_position(self, label: Seq<char>) -> int {
        choose|i: int| #[trigger] self.is_vertex_label(i, label)
    }

    /// The type of the vertices at a position. The label at a position has the next number.
    pub open spec fn vertex_type(self, i: int) -> VertexTypeModel {
        VertexTypeModel {
            labels: seq![LabelId { raw: (i + 1) as u32 }],
            properties: self.vertices[i].properties,
        }
    }

    /// The type of the edges at a position.
    pub open spec fn edge_type(self, j: int) -> EdgeTypeModel {
        EdgeTypeModel {
            labels: seq![LabelId { raw: (self.vertices.len() + j + 1) as u32 }],
            src: self.vertex_type(self.vertex_position(self.edges[j].src_label)),
            dst: self.vertex_type(self.vertex_position(self.edges[j].dst_label)),
            properties: self.edges[j].properties,
        }
    }

    /// The labels are numbered in order; every one has a type.
    pub open spec fn is_graph_type(self, m: GraphTypeModel) -> bool {
        self.is_partial_type(m, self.vertices.len() as int, self.edges.len() as int)
    }

    /// A graph type with the types of the first `v` vertices and the first `e` edges.
    pub open spec fn is_partial_type(self, m: GraphTypeModel, v: int, e: int) -> bool {
        &&& m.next_label_id == 1 + v + e
        &&& forall|i: int|
            0 <= i < v + e ==> m.labels.dom().contains(#[trigger] self.label_at(i))
                && m.labels[self.label_at(i)] == (LabelId { raw: (i + 1) as u32 })
        &&& forall|name: Seq<char>| #[trigger]
            m.labels.dom().contains(name) ==> exists|i: int|
                0 <= i < v + e && #[trigger] self.label_at(i) == name
        &&& m.vertex_types.len() == v
        &&& forall|i: int|
            0 <= i < v ==> #[trigger] m.vertex_types[i] == (
                self.vertex_type(i).labels,
                self.vertex_type(i),
            )
        &&& m.edge_types.len() == e
        &&& forall|j: int|
            0 <= j < e ==> #[trigger] m.edge_types[j] == (
                self.edge_type(j).labels,
                self.edge_type(j),
            )
    }
}

/// A label set with one label is not among others.
proof fn lemma_not_among<M>(types: Seq<(Seq<LabelId>, M)>, labels: Seq<LabelId>, from: int)
    requires
        from >= 0,
        forall|i: int| from <= i < types.len() ==> (#[trigger] types[i]).0 != labels,
    ensures
        model_index(types, labels, from) is None,
    decreases types.len() - from,
{
    if from < types.len() {
        lemma_not_among(types, labels, from + 1);
    }
}

/// A label set is found where it stands first.
proof fn lemma_found_at<M>(
    types: Seq<(Seq<LabelId>, M)>,
    labels: Seq<LabelId>,
    from: int,
    at: int,
)
    requires
        0 <= from <= at < types.len(),
        types[at].0 == labels,
        forall|i: int| from <= i < at ==> (#[trigger] types[i]).0 != labels,
    ensures
        model_index(types, labels, from) == Some(at),
    decreases at - from,
{
    if from < at {
        lemma_found_at(types, labels, from + 1, at);
    }
}

fn copy_properties(properties: &Vec<Property>) -> (r: Vec<Property>)
    ensures
        r@ == properties@,
{
    let mut r: Vec<Property> = Vec::new();
    let mut i: usize = 0;
    while i < properties.len()
        invariant
            i <= properties.len(),
            r@ == properties@.take(i as int),
        decreases properties.len() - i,
    {
        r.push(properties[i].clone());
        i = i + 1;
        assert(r@ =~= properties@.take(i as int));
    }
    assert(properties@.take(i as int) =~= properties@);
    r
}

proof fn lemma_failure_below(m: ManifestModel, i: int, n: int)
    requires
        0 <= i < n,
        m.failure_below(n) is None,
    ensures
        m.failure_at(i) is None,
    decreases n,
{
    if i < n - 1 {
        lemma_failure_below(m, i, n - 1);
    }
}

proof fn lemma_failure_stays(m: ManifestModel, i: int, n: int)
    requires
        0 <= i <= n,
        m.failure_below(i) is Some,
    ensures
        m.failure_below(n) == m.failure_below(i),
    decreases n - i,
{
    if i < n {
        lemma_failure_stays(m, i, n - 1);
    }
}

proof fn lemma_valid_below(m: ManifestModel, n: int)
    requires
        m.is_valid(),
        0 <= n <= m.size(),
    ensures
        m.failure_below(n) is None,
    decreases n,
{
    if n > 0 {
        lemma_valid_below(m, n - 1);
        if m.repeats(n - 1) {
            let j = choose|j: int|
                0 <= j < n - 1 && #[trigger] m.label_at(j) == m.label_at(n - 1);
            assert(m.label_at(j) != m.label_at(n - 1));
        }
    }
}

/// A manifest is valid where nothing is wrong with it.
pub proof fn valid_manifests_do_not_fail(m: ManifestModel)
    ensures
        m.is_valid() <==> m.failure() is None,
{
    if m.failure() is None {
        assert forall|i: int, j: int| 0 <= i < j < m.size() implies #[trigger] m.label_at(i)
            != #[trigger] m.label_at(j) by {
            lemma_failure_below(m, j, m.size());
            if m.label_at(i) == m.label_at(j) {
                assert(m.repeats(j));
            }
        }
        assert forall|j: int| 0 <= j < m.edges.len() implies m.has_vertices(
            (#[trigger] m.edges[j]).src_label,
        ) && m.has_vertices(m.edges[j].dst_label) by {
            lemma_failure_below(m, m.vertices.len() + j, m.size());
        }
    }
    if m.is_valid() {
        lemma_valid_below(m, m.size());
    }
}

impl Manifest {
    /// The label at a position: first those of the vertices, then those of the edges.
    fn label(&self, i: usize) -> (r: &String)
        requires
            i < self@.size(),
        ensures
            r@ == self@.label_at(i as int),
    {
        if i < self.vertices.len() {
            assert(self@.vertices[i as int] == self.vertices@[i as int]@);
            &self.vertices[i].label
        } else {
            let j: usize = i - self.vertices.len();
            assert(self@.edges[j as int] == self.edges@[j as int]@);
            &self.edges[j].label
        }
    }

    /// Whether there are vertices with a label.
    fn has_vertex_label(&self, label: &str) -> (r: bool)
        ensures
            r == self@.has_vertices(label@),
    {
        let mut i: usize = 0;
        while i < self.vertices.len()
            invariant
                i <= self.vertices.len(),
                forall|k: int| 0 <= k < i ==> !#[trigger] self@.is_vertex_label(k, label@),
            decreases self.vertices.len() - i,
        {
            assert(self@.vertices[i as int] == self.vertices@[i as int]@);
            if strings_equal(self.vertices[i].label.as_str(), label) {
                assert(self@.is_vertex_label(i as int, label@));
                return true;
            }
            i = i + 1;
        }
        false
    }

    /// Whether the label at a position occurs before it too.
    fn is_repeated(&self, i: usize) -> (r: bool)
        requires
            i < self@.size(),
        ensures
            r == self@.repeats(i as int),
    {
        let mut j: usize = 0;
        while j < i
            invariant
                j <= i < self@.size(),
                forall|k: int|
                    0 <= k < j ==> #[trigger] self@.label_at(k) != self@.label_at(i as int),
            decreases i - j,
        {
            if strings_equal(self.label(j).as_str(), self.label(i).as_str()) {
                assert(self@.label_at(j as int) == self@.label_at(i as int));
                return true;
            }
            j = j + 1;
        }
        false
    }

    /// Whether a graph type can be made of the manifest: no label occurs twice, and the ends of the
    /// edges have labels of vertices.
    pub fn check(&self) -> (r: Result<(), ImportError>)
        ensures
            self@.failure() == (match r {
                Ok(_) => None,
                Err(e) => Some(e@),
            }),
    {
        let limit: usize = 0xffff_ffff;
        if self.vertices.len() >= limit || self.edges.len() >= limit - self.vertices.len() {
            return Err(ImportError::TooManyLabels);
        }
        let n: usize = self.vertices.len() + self.edges.len();
        let ghost m = self@;
        let mut i: usize = 0;
        while i < n
            invariant
                m == self@,
                n == m.size(),
                1 + m.size() <= u32::MAX,
                i <= n,
                m.failure_below(i as int) is None,
            decreases n - i,
        {
            proof {
                if m.failure_at(i as int) is Some {
                    lemma_failure_stays(m, i + 1, n as int);
                }
            }
            if self.is_repeated(i) {
                return Err(ImportError::DuplicateLabel(self.label(i).clone()));
            }
            if i >= self.vertices.len() {
                let spec = &self.edges[i - self.vertices.len()];
                assert(m.edges[i - m.vertices.len()] == spec@);
                if !self.has_vertex_label(spec.src_label.as_str()) {
                    return Err(ImportError::UnknownLabel(spec.src_label.clone()));
                }
                if !self.has_vertex_label(spec.dst_label.as_str()) {
                    return Err(ImportError::UnknownLabel(spec.dst_label.clone()));
                }
            }
            i = i + 1;
        }
        Ok(())
    }
}

/// The graph type of a manifest, or what is wrong with the manifest.
pub fn get_graph_type_from_manifest(manifest: &Manifest) -> (r: Result<
    MemoryGraphTypeCatalog,
    ImportError,
>)
    ensures
        match r {
            Ok(graph_type) => {
                &&& manifest@.is_valid()
                &&& manifest@.failure() is None
                &&& graph_type.wf()
                &&& manifest@.is_graph_type(graph_type@)
            },
            Err(e) => manifest@.failure() == Some(e@),
        },
{
    match manifest.check() {
        Ok(_) => {
            proof {
                valid_manifests_do_not_fail(manifest@);
            }
            Ok(graph_type_of(manifest))
        },
        Err(e) => Err(e),
    }
}

/// The graph type of a valid manifest.
fn graph_type_of(manifest: &Manifest) -> (r: MemoryGraphTypeCatalog)
    requires
        manifest@.is_valid(),
    ensures
        r.wf(),
        manifest@.is_graph_type(r@),
{
    let ghost m = manifest@;
    let mut graph_type = MemoryGraphTypeCatalog::new();
    let mut label_vertex_type: NameMap<VertexTypeRef> = NameMap::new();
    let mut v: usize = 0;
    while v < manifest.vertices.len()
        invariant
            v <= manifest.vertices@.len(),
            m == manifest@,
            m.is_valid(),
            graph_type.wf(),
            m.is_partial_type(graph_type@, v as int, 0),
            label_vertex_type.wf(),
            forall|i: int|
                0 <= i < v ==> label_vertex_type@.dom().contains(#[trigger] m.label_at(i))
                    && label_vertex_type@[m.label_at(i)].model() == m.vertex_type(i),
        decreases manifest.vertices.len() - v,
    {
        let spec = &manifest.vertices[v];
        let ghost before = graph_type@;
        let ghost map_before = label_vertex_type@;
        proof {
            assert(m.vertices[v as int] == spec@);
            assert(m.label_at(v as int) == spec.label@);
            assert(!before.labels.dom().contains(spec.label@)) by {
                if before.labels.dom().contains(spec.label@) {
                    let i = choose|i: int|
                        0 <= i < v && #[trigger] m.label_at(i) == spec.label@;
                    assert(m.label_at(i) != m.label_at(v as int));
                }
            }
        }
        let label_id = graph_type.add_label(spec.label.clone()).unwrap();
        let label_set = LabelSet::single(label_id);
        let vertex_type = Arc::new(
            MemoryVertexTypeCatalog::new(label_set.clone(), copy_properties(&spec.properties)),
        );
        proof {
            assert(vertex_type.model() == m.vertex_type(v as int));
            assert forall|i: int| 0 <= i < before.vertex_types.len() implies (
            #[trigger] before.vertex_types[i]).0 != label_set@ by {
                assert(before.vertex_types[i].0[0] != label_set@[0]);
            }
            lemma_not_among(before.vertex_types, label_set@, 0);
        }
        let _ = graph_type.add_vertex_type(label_set, vertex_type.clone());
        label_vertex_type.insert(spec.label.clone(), vertex_type);
        proof {
            assert forall|i: int| 0 <= i < v + 1 implies label_vertex_type@.dom().contains(
                #[trigger] m.label_at(i),
            ) && label_vertex_type@[m.label_at(i)].model() == m.vertex_type(i) by {
                if i < v {
                    assert(m.label_at(i) != m.label_at(v as int));
                    assert(map_before.dom().contains(m.label_at(i)));
                }
            }
            let after = graph_type@;
            assert forall|i: int| 0 <= i < v + 1 implies after.labels.dom().contains(
                #[trigger] m.label_at(i),
            ) && after.labels[m.label_at(i)] == (LabelId { raw: (i + 1) as u32 }) by {
                if i < v {
                    assert(m.label_at(i) != m.label_at(v as int));
                }
            }
            assert forall|name: Seq<char>| #[trigger] after.labels.dom().contains(
                name,
            ) implies exists|i: int| 0 <= i < v + 1 && #[trigger] m.label_at(i) == name by {
                if name == spec.label@ {
                    assert(m.label_at(v as int) == name);
                } else {
                    assert(before.labels.dom().contains(name));
                    let i = choose|i: int| 0 <= i < v && #[trigger] m.label_at(i) == name;
                    assert(m.label_at(i) == name);
                }
            }
        }
        v = v + 1;
    }
    let mut e: usize = 0;
    let ghost count = manifest.vertices@.len() as int;
    while e < manifest.edges.len()
        invariant
            e <= manifest.edges@.len(),
            m == manifest@,
            count == m.vertices.len(),
            m.is_valid(),
            graph_type.wf(),
            m.is_partial_type(graph_type@, count, e as int),
            label_vertex_type.wf(),
            forall|i: int|
                0 <= i < count ==> label_vertex_type@.dom().contains(#[trigger] m.label_at(i))
                    && label_vertex_type@[m.label_at(i)].model() == m.vertex_type(i),
        decreases manifest.edges.len() - e,
    {
        let spec = &manifest.edges[e];
        let ghost before = graph_type@;
        let ghost at = count + e;
        proof {
            assert(m.edges[e as int] == spec@);
            assert(m.label_at(at) == spec.label@);
            assert(!before.labels.dom().contains(spec.label@)) by {
                if before.labels.dom().contains(spec.label@) {
                    let i = choose|i: int|
                        0 <= i < count + e && #[trigger] m.label_at(i) == spec.label@;
                    assert(m.label_at(i) != m.label_at(at));
                }
            }
            let s = m.vertex_position(spec.src_label@);
            assert(m.is_vertex_label(s, spec.src_label@));
            assert(m.label_at(s) == spec.src_label@);
            let d = m.vertex_position(spec.dst_label@);
            assert(m.is_vertex_label(d, spec.dst_label@));
            assert(m.label_at(d) == spec.dst_label@);
        }
        let label_id = graph_type.add_label(spec.label.clone()).unwrap();
        let label_set = LabelSet::single(label_id);
        let src_type = label_vertex_type.get(spec.src_label.as_str()).unwrap().clone();
        let dst_type = label_vertex_type.get(spec.dst_label.as_str()).unwrap().clone();
        let edge_type = Arc::new(
            MemoryEdgeTypeCatalog::new(
                label_set.clone(),
                src_type,
                dst_type,
                copy_properties(&spec.properties),
            ),
        );
        proof {
            assert(edge_type.model() == m.edge_type(e as int));
            assert forall|j: int| 0 <= j < before.edge_types.len() implies (
            #[trigger] before.edge_types[j]).0 != label_set@ by {
                assert(before.edge_types[j].0[0] != label_set@[0]);
            }
            lemma_not_among(before.edge_types, label_set@, 0);
        }
        let _ = graph_type.add_edge_type(label_set, edge_type);
        proof {
            let after = graph_type@;
            assert forall|i: int| 0 <= i < at + 1 implies after.labels.dom().contains(
                #[trigger] m.label_at(i),
            ) && after.labels[m.label_at(i)] == (LabelId { raw: (i + 1) as u32 }) by {
                if i < at {
                    assert(m.label_at(i) != m.label_at(at));
                }
            }
            assert forall|name: Seq<char>| #[trigger] after.labels.dom().contains(
                name,
            ) implies exists|i: int| 0 <= i < at + 1 && #[trigger] m.label_at(i) == name by {
                if name == spec.label@ {
                    assert(m.label_at(at) == name);
                } else {
                    assert(before.labels.dom().contains(name));
                    let i = choose|i: int| 0 <= i < count + e && #[trigger] m.label_at(i) == name;
                    assert(m.label_at(i) == name);
                }
            }
        }
        e = e + 1;
    }
    graph_type
}

// ---------------------------------------------------------------------------------------------
// The manifest of a graph type
// ---------------------------------------------------------------------------------------------

/// What has to be known of a graph type to export a graph: the labels in the order of their
/// numbers, and which of them are labels of vertices and of edges.
#[derive(Debug)]
pub struct SchemaMetadata {
    pub label_map: Vec<(LabelId, String)>,
    pub vertex_labels: Vec<LabelId>,
    pub edge_infos: Vec<(LabelId, (LabelId, LabelId))>,
    pub schema: Arc<MemoryGraphTypeCatalog>,
}

pub open spec fn label_id(raw: int) -> LabelId {
    LabelId { raw: raw as u32 }
}

/// The label with a number.
pub open spec fn name_for(m: GraphTypeModel, id: LabelId) -> Option<Seq<char>> {
    if exists|name: Seq<char>| #[trigger] m.has_label(name, id) {
        Some(choose|name: Seq<char>| #[trigger] m.has_label(name, id))
    } else {
        None
    }
}

/// The label is one of vertices: no edge type has it alone.
pub open spec fn is_vertex_id(m: GraphTypeModel, id: LabelId) -> bool {
    name_for(m, id) is Some && model_of(m.edge_types, seq![id]) is None
}

/// The label is one of edges: an edge type has it alone.
pub open spec fn is_edge_id(m: GraphTypeModel, id: LabelId) -> bool {
    name_for(m, id) is Some && model_of(m.edge_types, seq![id]) is Some
}

/// The labels of an end of an edge are a single label of vertices.
pub open spec fn is_vertex_set(m: GraphTypeModel, labels: Seq<LabelId>) -> bool {
    labels.len() == 1 && is_vertex_id(m, labels[0])
}

/// A label has a type: one of edges between single labels of vertices, or one of vertices.
pub open spec fn can_export_label(m: GraphTypeModel, id: LabelId) -> bool {
    match model_of(m.edge_types, seq![id]) {
        Some(ty) => is_vertex_set(m, ty.src.labels) && is_vertex_set(m, ty.dst.labels),
        None => model_of(m.vertex_types, seq![id]) is Some,
    }
}

/// Every label has a type.
pub open spec fn can_export(m: GraphTypeModel) -> bool {
    forall|raw: int|
        1 <= raw < m.next_label_id && name_for(m, label_id(raw)) is Some
            ==> #[trigger] can_export_label(m, label_id(raw))
}

/// The vertices of a label.
pub open spec fn vertex_spec_of(m: GraphTypeModel, id: LabelId) -> VertexSpecModel {
    let name = name_for(m, id)->0;
    VertexSpecModel {
        label: name,
        path: name + ".csv"@,
        format: "csv"@,
        properties: (model_of(m.vertex_types, seq![id])->0).properties,
    }
}

/// The edges of a label.
pub open spec fn edge_spec_of(m: GraphTypeModel, id: LabelId) -> EdgeSpecModel {
    let name = name_for(m, id)->0;
    let ty = model_of(m.edge_types, seq![id])->0;
    EdgeSpecModel {
        label: name,
        src_label: name_for(m, ty.src.labels[0])->0,
        dst_label: name_for(m, ty.dst.labels[0])->0,
        path: name + ".csv"@,
        format: "csv"@,
        properties: ty.properties,
    }
}

/// The manifest of the labels with numbers below `n`, in the order of the numbers.
pub open spec fn manifest_below(m: GraphTypeModel, n: int) -> ManifestModel
    decreases n,
{
    if n <= 1 {
        ManifestModel { vertices: Seq::empty(), edges: Seq::empty() }
    } else {
        let before = manifest_below(m, n - 1);
        let id = label_id(n - 1);
        if name_for(m, id) is None {
            before
        } else if model_of(m.edge_types, seq![id]) is Some {
            ManifestModel { edges: before.edges.push(edge_spec_of(m, id)), ..before }
        } else {
            ManifestModel { vertices: before.vertices.push(vertex_spec_of(m, id)), ..before }
        }
    }
}

/// The manifest of a graph type.
pub open spec fn manifest_of(m: GraphTypeModel) -> ManifestModel {
    manifest_below(m, m.next_label_id)
}

impl SchemaMetadata {
    /// The labels below a number: those of vertices and those of edges.
    pub open spec fn covers(&self, m: GraphTypeModel, n: int) -> bool {
        let manifest = manifest_below(m, n);
        &&& self.vertex_labels@.len() == manifest.vertices.len()
        &&& forall|i: int|
            0 <= i < self.vertex_labels@.len() ==> is_vertex_id(
                m,
                #[trigger] self.vertex_labels@[i],
            ) && 1 <= self.vertex_labels@[i].raw < n && manifest.vertices[i] == vertex_spec_of(
                m,
                self.vertex_labels@[i],
            )
        &&& self.edge_infos@.len() == manifest.edges.len()
        &&& forall|i: int|
            0 <= i < self.edge_infos@.len() ==> {
                let (id, (src, dst)) = #[trigger] self.edge_infos@[i];
                &&& name_for(m, id) is Some
                &&& 1 <= id.raw < n
                &&& model_of(m.edge_types, seq![id]) matches Some(ty)
                &&& ty.src.labels == seq![src]
                &&& ty.dst.labels == seq![dst]
                &&& manifest.edges[i] == edge_spec_of(m, id)
            }
        &&& forall|i: int|
            0 <= i < self.label_map@.len() ==> m.has_label(
                (#[trigger] self.label_map@[i]).1@,
                self.label_map@[i].0,
            ) && 1 <= self.label_map@[i].0.raw < n
        &&& forall|raw: int|
            1 <= raw < n && #[trigger] name_for(m, label_id(raw)) is Some ==> exists|i: int|
                0 <= i < self.label_map@.len() && (#[trigger] self.label_map@[i]).0 == label_id(
                    raw,
                )
    }

    /// What has to be known of a graph type.
    pub fn from_schema(graph_type: Arc<MemoryGraphTypeCatalog>) -> (r: Self)
        requires
            graph_type.wf(),
            can_export(graph_type@),
        ensures
            r.schema == graph_type,
            r.covers(graph_type@, graph_type@.next_label_id),
    {
        let ghost m = graph_type@;
        let mut r = SchemaMetadata {
            label_map: Vec::new(),
            vertex_labels: Vec::new(),
            edge_infos: Vec::new(),
            schema: graph_type.clone(),
        };
        let mut raw: u32 = 1;
        while raw < graph_type.next_label_id
            invariant
                m == graph_type@,
                graph_type.wf(),
                can_export(m),
                1 <= raw <= graph_type.next_label_id,
                r.schema == graph_type,
                r.covers(m, raw as int),
            decreases graph_type.next_label_id - raw,
        {
            let id = LabelId { raw };
            let ghost before = r;
            assert(id == label_id(raw as int));
            match graph_type.label_name(id) {
                Some(name) => {
                    assert(m.has_label(name@, id));
                    assert(can_export_label(m, label_id(raw as int)));
                    r.label_map.push((id, name));
                    assert(r.label_map@.drop_last() =~= before.label_map@);
                    match graph_type.get_edge_type(&LabelSet::single(id)) {
                        Some(edge_type) => {
                            let src_id = edge_type.src.label_set.ids[0];
                            let dst_id = edge_type.dst.label_set.ids[0];
                            assert(edge_type.model().src.labels =~= seq![src_id]);
                            assert(edge_type.model().dst.labels =~= seq![dst_id]);
                            r.edge_infos.push((id, (src_id, dst_id)));
                            assert(r.edge_infos@.drop_last() =~= before.edge_infos@);
                        },
                        None => {
                            r.vertex_labels.push(id);
                        },
                    }
                },
                None => {},
            }
            proof {
                lemma_covers_step(&before, &r, m, raw as int);
            }
            raw = raw + 1;
        }
        r
    }
}

/// One more label is covered.
proof fn lemma_covers_step(
    before: &SchemaMetadata,
    after: &SchemaMetadata,
    m: GraphTypeModel,
    raw: int,
)
    requires
        before.covers(m, raw),
        1 <= raw < u32::MAX,
        ({
            let id = label_id(raw);
            let edge = model_of(m.edge_types, seq![id]);
            if name_for(m, id) is None {
                after.label_map@ == before.label_map@ && after.vertex_labels@
                    == before.vertex_labels@ && after.edge_infos@ == before.edge_infos@
            } else {
                &&& after.label_map@.len() == before.label_map@.len() + 1
                &&& after.label_map@.drop_last() == before.label_map@
                &&& after.label_map@.last().0 == id
                &&& m.has_label(after.label_map@.last().1@, id)
                &&& if edge is Some {
                    &&& after.vertex_labels@ == before.vertex_labels@
                    &&& after.edge_infos@.len() == before.edge_infos@.len() + 1
                    &&& after.edge_infos@.drop_last() == before.edge_infos@
                    &&& after.edge_infos@.last().0 == id
                    &&& edge->0.src.labels == seq![after.edge_infos@.last().1.0]
                    &&& edge->0.dst.labels == seq![after.edge_infos@.last().1.1]
                } else {
                    &&& after.vertex_labels@ == before.vertex_labels@.push(id)
                    &&& after.edge_infos@ == before.edge_infos@
                }
            }
        }),
    ensures
        after.covers(m, raw + 1),
{
    let id = label_id(raw);
    let manifest = manifest_below(m, raw);
    let next = manifest_below(m, raw + 1);
    assert forall|i: int| 0 <= i < after.vertex_labels@.len() implies is_vertex_id(
        m,
        #[trigger] after.vertex_labels@[i],
    ) && 1 <= after.vertex_labels@[i].raw < raw + 1 && next.vertices[i] == vertex_spec_of(
        m,
        after.vertex_labels@[i],
    ) by {
        if i < before.vertex_labels@.len() {
            assert(after.vertex_labels@[i] == before.vertex_labels@[i]);
        }
    }
    assert forall|i: int| 0 <= i < after.edge_infos@.len() implies {
        let (id, (src, dst)) = #[trigger] after.edge_infos@[i];
        &&& name_for(m, id) is Some
        &&& 1 <= id.raw < raw + 1
        &&& model_of(m.edge_types, seq![id]) matches Some(ty)
        &&& ty.src.labels == seq![src]
        &&& ty.dst.labels == seq![dst]
        &&& next.edges[i] == edge_spec_of(m, id)
    } by {
        if i < before.edge_infos@.len() {
            assert(after.edge_infos@[i] == before.edge_infos@[i]) by {
                if after.edge_infos@.len() > before.edge_infos@.len() {
                    assert(after.edge_infos@.drop_last()[i] == after.edge_infos@[i]);
                }
            }
        }
    }
    assert forall|i: int| 0 <= i < after.label_map@.len() implies m.has_label(
        (#[trigger] after.label_map@[i]).1@,
        after.label_map@[i].0,
    ) && 1 <= after.label_map@[i].0.raw < raw + 1 by {
        if i < before.label_map@.len() {
            assert(after.label_map@[i] == before.label_map@[i]) by {
                if after.label_map@.len() > before.label_map@.len() {
                    assert(after.label_map@.drop_last()[i] == after.label_map@[i]);
                }
            }
        }
    }
    assert forall|r: int| 1 <= r < raw + 1 && #[trigger] name_for(m, label_id(r)) is Some implies (
    exists|i: int|
        0 <= i < after.label_map@.len() && (#[trigger] after.label_map@[i]).0 == label_id(r)) by {
        if r < raw {
            let i = choose|i: int|
                0 <= i < before.label_map@.len() && (#[trigger] before.label_map@[i]).0 == label_id(
                    r,
                );
            assert(after.label_map@[i] == before.label_map@[i]) by {
                if after.label_map@.len() > before.label_map@.len() {
                    assert(after.label_map@.drop_last()[i] == after.label_map@[i]);
                }
            }
        } else {
            assert(after.label_map@[after.label_map@.len() - 1].0 == label_id(r));
        }
    }
}

/// The name that a list has for a label.
fn listed_name(label_map: &Vec<(LabelId, String)>, id: LabelId) -> (r: String)
    requires
        exists|i: int| 0 <= i < label_map@.len() && (#[trigger] label_map@[i]).0 == id,
    ensures
        exists|i: int|
            0 <= i < label_map@.len() && (#[trigger] label_map@[i]).0 == id && label_map@[i].1 == r,
{
    let mut i: usize = 0;
    while i < label_map.len()
        invariant
            i <= label_map@.len(),
            exists|k: int| i <= k < label_map@.len() && (#[trigger] label_map@[k]).0 == id,
        decreases label_map.len() - i,
    {
        if label_map[i].0 == id {
            assert(label_map@[i as int].1 == label_map[i as int].1);
            return label_map[i].1.clone();
        }
        i = i + 1;
    }
    vstd::pervasive::unreached()
}

/// The path of the file for a label.
fn file_of(name: &str) -> (r: FileSpec)
    ensures
        r.path@ == name@ + ".csv"@,
        r.format@ == "csv"@,
{
    let mut path = name.to_owned();
    path.append(".csv");
    FileSpec::new(path, "csv".to_owned())
}

/// Two labels with one number are the same.
proof fn lemma_name_for(m: GraphTypeModel, name: Seq<char>, id: LabelId)
    requires
        m.has_label(name, id),
        forall|a: Seq<char>, b: Seq<char>|
            #![trigger m.labels[a], m.labels[b]]
            m.labels.dom().contains(a) && m.labels.dom().contains(b) && a != b ==> m.labels[a]
                != m.labels[b],
    ensures
        name_for(m, id) == Some(name),
{
    let other = choose|other: Seq<char>| #[trigger] m.has_label(other, id);
    assert(m.has_label(other, id));
    if other != name {
        assert(m.labels[other] != m.labels[name]);
    }
}

impl Manifest {
    /// The manifest of a graph type.
    pub fn from_schema(metadata: SchemaMetadata) -> (r: Self)
        requires
            metadata.schema.wf(),
            can_export(metadata.schema@),
            metadata.covers(metadata.schema@, metadata.schema@.next_label_id),
        ensures
            r@ == manifest_of(metadata.schema@),
    {
        let ghost m = metadata.schema@;
        let ghost target = manifest_of(m);
        let mut vertices: Vec<VertexSpec> = Vec::new();
        let mut i: usize = 0;
        while i < metadata.vertex_labels.len()
            invariant
                i <= metadata.vertex_labels@.len(),
                m == metadata.schema@,
                target == manifest_of(m),
                metadata.schema.wf(),
                can_export(m),
                metadata.covers(m, m.next_label_id),
                vertices@.len() == i,
                forall|k: int| 0 <= k < i ==> (#[trigger] vertices@[k])@ == target.vertices[k],
            decreases metadata.vertex_labels.len() - i,
        {
            let id = metadata.vertex_labels[i];
            proof {
                assert(is_vertex_id(m, metadata.vertex_labels@[i as int]));
                assert(id == label_id(id.raw as int));
                assert(can_export_label(m, label_id(id.raw as int)));
                assert(name_for(m, label_id(id.raw as int)) is Some);
            }
            let name = listed_name(&metadata.label_map, id);
            proof {
                let k = choose|k: int|
                    0 <= k < metadata.label_map@.len() && (#[trigger] metadata.label_map@[k]).0
                        == id && metadata.label_map@[k].1 == name;
                assert(m.has_label(metadata.label_map@[k].1@, metadata.label_map@[k].0));
                lemma_name_for(m, name@, id);
            }
            let vertex_type = metadata.schema.get_vertex_type(&LabelSet::single(id)).unwrap();
            let file = file_of(name.as_str());
            vertices.push(VertexSpec::new(name, file, copy_properties(&vertex_type.properties)));
            assert(vertices@[i as int]@ == vertex_spec_of(m, id));
            i = i + 1;
        }
        let mut edges: Vec<EdgeSpec> = Vec::new();
        let mut j: usize = 0;
        while j < metadata.edge_infos.len()
            invariant
                j <= metadata.edge_infos@.len(),
                m == metadata.schema@,
                target == manifest_of(m),
                metadata.schema.wf(),
                can_export(m),
                metadata.covers(m, m.next_label_id),
                edges@.len() == j,
                forall|k: int| 0 <= k < j ==> (#[trigger] edges@[k])@ == target.edges[k],
            decreases metadata.edge_infos.len() - j,
        {
            let id = metadata.edge_infos[j].0;
            let src_id = (metadata.edge_infos[j].1).0;
            let dst_id = (metadata.edge_infos[j].1).1;
            let ghost ty = model_of(m.edge_types, seq![id])->0;
            proof {
                let info = metadata.edge_infos@[j as int];
                assert(info == (id, (src_id, dst_id)));
                assert(id == label_id(id.raw as int));
                assert(name_for(m, label_id(id.raw as int)) is Some);
                assert(can_export_label(m, label_id(id.raw as int)));
                assert(ty.src.labels[0] == src_id);
                assert(ty.dst.labels[0] == dst_id);
                lemma_id_in_range(m, src_id);
                lemma_id_in_range(m, dst_id);
                assert(name_for(m, label_id(src_id.raw as int)) is Some);
                assert(name_for(m, label_id(dst_id.raw as int)) is Some);
            }
            let name = listed_name(&metadata.label_map, id);
            let src_label = listed_name(&metadata.label_map, src_id);
            let dst_label = listed_name(&metadata.label_map, dst_id);
            proof {
                let a = choose|k: int|
                    0 <= k < metadata.label_map@.len() && (#[trigger] metadata.label_map@[k]).0
                        == id && metadata.label_map@[k].1 == name;
                assert(m.has_label(metadata.label_map@[a].1@, metadata.label_map@[a].0));
                lemma_name_for(m, name@, id);
                let b = choose|k: int|
                    0 <= k < metadata.label_map@.len() && (#[trigger] metadata.label_map@[k]).0
                        == src_id && metadata.label_map@[k].1 == src_label;
                assert(m.has_label(metadata.label_map@[b].1@, metadata.label_map@[b].0));
                lemma_name_for(m, src_label@, src_id);
                let c = choose|k: int|
                    0 <= k < metadata.label_map@.len() && (#[trigger] metadata.label_map@[k]).0
                        == dst_id && metadata.label_map@[k].1 == dst_label;
                assert(m.has_label(metadata.label_map@[c].1@, metadata.label_map@[c].0));
                lemma_name_for(m, dst_label@, dst_id);
            }
            let edge_type = metadata.schema.get_edge_type(&LabelSet::single(id)).unwrap();
            let file = file_of(name.as_str());
            edges.push(
                EdgeSpec::new(
                    name,
                    src_label,
                    dst_label,
                    file,
                    copy_properties(&edge_type.properties),
                ),
            );
            assert(edges@[j as int]@ == edge_spec_of(m, id));
            j = j + 1;
        }
        let r = Manifest { vertices, edges };
        proof {
            assert(r@.vertices =~= target.vertices);
            assert(r@.edges =~= target.edges);
        }
        r
    }
}

/// The number of a label is below the next one.
proof fn lemma_id_in_range(m: GraphTypeModel, id: LabelId)
    requires
        name_for(m, id) is Some,
        forall|name: Seq<char>| #[trigger]
            m.labels.dom().contains(name) ==> 1 <= m.labels[name].raw < m.next_label_id,
    ensures
        1 <= id.raw < m.next_label_id,
        label_id(id.raw as int) == id,
{
    let name = choose|name: Seq<char>| #[trigger] m.has_label(name, id);
    assert(m.labels.dom().contains(name));
}

// ---------------------------------------------------------------------------------------------
// Laws
// ---------------------------------------------------------------------------------------------

impl ManifestModel {
    /// The files are named after the labels.
    pub open spec fn has_own_files(self) -> bool {
        &&& forall|i: int|
            0 <= i < self.vertices.len() ==> (#[trigger] self.vertices[i]).path
                == self.vertices[i].label + ".csv"@ && self.vertices[i].format == "csv"@
        &&& forall|j: int|
            0 <= j < self.edges.len() ==> (#[trigger] self.edges[j]).path == self.edges[j].label
                + ".csv"@ && self.edges[j].format == "csv"@
    }
}

/// What a graph type made from a manifest says of a label.
proof fn lemma_label_of_manifest(m: ManifestModel, g: GraphTypeModel, i: int)
    requires
        m.is_valid(),
        m.is_graph_type(g),
        0 <= i < m.size(),
    ensures
        name_for(g, label_id(i + 1)) == Some(m.label_at(i)),
        i < m.vertices.len() ==> model_of(g.edge_types, seq![label_id(i + 1)]) is None && model_of(
            g.vertex_types,
            seq![label_id(i + 1)],
        ) == Some(m.vertex_type(i)),
        i >= m.vertices.len() ==> model_of(g.edge_types, seq![label_id(i + 1)]) == Some(
            m.edge_type(i - m.vertices.len()),
        ),
{
    let id = label_id(i + 1);
    let set = seq![id];
    let nv = m.vertices.len() as int;
    assert(g.has_label(m.label_at(i), id));
    assert forall|a: Seq<char>, b: Seq<char>|
        #![trigger g.labels[a], g.labels[b]]
        g.labels.dom().contains(a) && g.labels.dom().contains(b) && a != b implies g.labels[a]
        != g.labels[b] by {
        let x = choose|x: int| 0 <= x < nv + m.edges.len() && #[trigger] m.label_at(x) == a;
        let y = choose|y: int| 0 <= y < nv + m.edges.len() && #[trigger] m.label_at(y) == b;
        assert(g.labels[m.label_at(x)] == (LabelId { raw: (x + 1) as u32 }));
        assert(g.labels[m.label_at(y)] == (LabelId { raw: (y + 1) as u32 }));
    }
    lemma_name_for(g, m.label_at(i), id);
    if i < nv {
        assert forall|j: int| 0 <= j < g.edge_types.len() implies (#[trigger] g.edge_types[j]).0
            != set by {
            assert(g.edge_types[j].0[0] != set[0]);
        }
        lemma_not_among(g.edge_types, set, 0);
        assert forall|k: int| 0 <= k < i implies (#[trigger] g.vertex_types[k]).0 != set by {
            assert(g.vertex_types[k].0[0] != set[0]);
        }
        assert(g.vertex_types[i] == (m.vertex_type(i).labels, m.vertex_type(i)));
        lemma_found_at(g.vertex_types, set, 0, i);
    } else {
        let e = i - nv;
        assert forall|k: int| 0 <= k < e implies (#[trigger] g.edge_types[k]).0 != set by {
            assert(g.edge_types[k].0[0] != set[0]);
        }
        assert(g.edge_types[e] == (m.edge_type(e).labels, m.edge_type(e)));
        lemma_found_at(g.edge_types, set, 0, e);
    }
}

proof fn lemma_manifest_below(m: ManifestModel, g: GraphTypeModel, n: int)
    requires
        m.is_valid(),
        m.has_own_files(),
        m.is_graph_type(g),
        0 <= n <= m.size(),
    ensures
        n <= m.vertices.len() ==> manifest_below(g, n + 1) == (ManifestModel {
            vertices: m.vertices.take(n),
            edges: Seq::empty(),
        }),
        n >= m.vertices.len() ==> manifest_below(g, n + 1) == (ManifestModel {
            vertices: m.vertices,
            edges: m.edges.take(n - m.vertices.len()),
        }),
    decreases n,
{
    let nv = m.vertices.len() as int;
    if n > 0 {
        let i = n - 1;
        lemma_manifest_below(m, g, i);
        lemma_label_of_manifest(m, g, i);
        if i < nv {
            assert(vertex_spec_of(g, label_id(i + 1)) =~= m.vertices[i]);
            assert(m.vertices.take(i).push(m.vertices[i]) =~= m.vertices.take(n));
        } else {
            let e = i - nv;
            let s = m.vertex_position(m.edges[e].src_label);
            let d = m.vertex_position(m.edges[e].dst_label);
            assert(m.is_vertex_label(s, m.edges[e].src_label));
            assert(m.is_vertex_label(d, m.edges[e].dst_label));
            lemma_label_of_manifest(m, g, s);
            lemma_label_of_manifest(m, g, d);
            assert(edge_spec_of(g, label_id(i + 1)) =~= m.edges[e]);
            assert(m.edges.take(e).push(m.edges[e]) =~= m.edges.take(e + 1));
        }
    }
    if n == 0 {
        assert(m.vertices.take(0) =~= Seq::<VertexSpecModel>::empty());
    }
    if n == nv {
        assert(m.vertices.take(nv) =~= m.vertices);
        assert(m.edges.take(0) =~= Seq::<EdgeSpecModel>::empty());
    }
}

/// The graph type that is made from a manifest can be exported, and has that manifest: what is
/// imported is exported as it was.
pub proof fn imported_types_export_again(m: ManifestModel, g: GraphTypeModel)
    requires
        m.is_valid(),
        m.has_own_files(),
        m.is_graph_type(g),
    ensures
        can_export(g),
        manifest_of(g) == m,
{
    let nv = m.vertices.len() as int;
    lemma_manifest_below(m, g, m.size());
    assert(m.edges.take(m.edges.len() as int) =~= m.edges);
    assert forall|raw: int|
        1 <= raw < g.next_label_id && name_for(g, label_id(raw)) is Some implies
        #[trigger] can_export_label(g, label_id(raw)) by {
        let i = raw - 1;
        lemma_label_of_manifest(m, g, i);
        if i >= nv {
            let e = i - nv;
            let s = m.vertex_position(m.edges[e].src_label);
            let d = m.vertex_position(m.edges[e].dst_label);
            assert(m.is_vertex_label(s, m.edges[e].src_label));
            assert(m.is_vertex_label(d, m.edges[e].dst_label));
            lemma_label_of_manifest(m, g, s);
            lemma_label_of_manifest(m, g, d);
            assert(m.edge_type(e).src.labels =~= seq![label_id(s + 1)]);
            assert(m.edge_type(e).dst.labels =~= seq![label_id(d + 1)]);
        }
    }
}

/// The labels of vertices with numbers below `n`, in the order of the numbers.
spec fn vertex_ids(m: GraphTypeModel, n: int) -> Seq<LabelId>
    decreases n,
{
    if n <= 1 {
        Seq::empty()
    } else {
        let before = vertex_ids(m, n - 1);
        let id = label_id(n - 1);
        if is_vertex_id(m, id) {
            before.push(id)
        } else {
            before
        }
    }
}

/// The labels of edges with numbers below `n`, in the order of the numbers.
spec fn edge_ids(m: GraphTypeModel, n: int) -> Seq<LabelId>
    decreases n,
{
    if n <= 1 {
        Seq::empty()
    } else {
        let before = edge_ids(m, n - 1);
        let id = label_id(n - 1);
        if name_for(m, id) is Some && model_of(m.edge_types, seq![id]) is Some {
            before.push(id)
        } else {
            before
        }
    }
}

/// Ascending numbers below `n`.
spec fn ids_below(ids: Seq<LabelId>, n: int) -> bool {
    &&& forall|i: int| 0 <= i < ids.len() ==> 1 <= (#[trigger] ids[i]).raw < n
    &&& forall|i: int, j: int|
        0 <= i < j < ids.len() ==> (#[trigger] ids[i]).raw < (#[trigger] ids[j]).raw
}

proof fn lemma_manifest_ids(m: GraphTypeModel, n: int)
    requires
        1 <= n <= u32::MAX,
    ensures
        ({
            let manifest = manifest_below(m, n);
            let vs = vertex_ids(m, n);
            let es = edge_ids(m, n);
            &&& ids_below(vs, n) && ids_below(es, n)
            &&& vs.len() + es.len() < n
            &&& manifest.vertices.len() == vs.len() && manifest.edges.len() == es.len()
            &&& forall|i: int|
                0 <= i < vs.len() ==> is_vertex_id(m, #[trigger] vs[i]) && manifest.vertices[i]
                    == vertex_spec_of(m, vs[i])
            &&& forall|j: int|
                0 <= j < es.len() ==> name_for(m, #[trigger] es[j]) is Some && model_of(
                    m.edge_types,
                    seq![es[j]],
                ) is Some && manifest.edges[j] == edge_spec_of(m, es[j])
            &&& forall|raw: int|
                1 <= raw < n && #[trigger] is_vertex_id(m, label_id(raw)) ==> vs.contains(
                    label_id(raw),
                )
            &&& forall|raw: int|
                1 <= raw < n && #[trigger] is_edge_id(m, label_id(raw)) ==> es.contains(
                    label_id(raw),
                )
        }),
    decreases n,
{
    if n > 1 {
        lemma_manifest_ids(m, n - 1);
        let id = label_id(n - 1);
        let edges_before = edge_ids(m, n - 1);
        let edges_after = edge_ids(m, n);
        assert forall|raw: int|
            1 <= raw < n && #[trigger] is_edge_id(m, label_id(raw)) implies edges_after.contains(
            label_id(raw),
        ) by {
            if raw < n - 1 {
                let i = choose|i: int|
                    0 <= i < edges_before.len() && edges_before[i] == label_id(raw);
                assert(edges_after[i] == label_id(raw));
            } else {
                assert(edges_after.last() == label_id(raw));
            }
        }
        let before = vertex_ids(m, n - 1);
        let after = vertex_ids(m, n);
        assert forall|raw: int|
            1 <= raw < n && #[trigger] is_vertex_id(m, label_id(raw)) implies after.contains(
            label_id(raw),
        ) by {
            if raw < n - 1 {
                let i = choose|i: int| 0 <= i < before.len() && before[i] == label_id(raw);
                assert(after[i] == label_id(raw));
            } else {
                assert(after.last() == label_id(raw));
            }
        }
    }
}

/// No two labels have the same name.
proof fn lemma_names_differ(m: GraphTypeModel, a: LabelId, b: LabelId)
    requires
        name_for(m, a) is Some,
        name_for(m, b) is Some,
        a != b,
    ensures
        name_for(m, a) != name_for(m, b),
{
    let x = choose|name: Seq<char>| #[trigger] m.has_label(name, a);
    let y = choose|name: Seq<char>| #[trigger] m.has_label(name, b);
    assert(m.has_label(x, a));
    assert(m.has_label(y, b));
}

/// The ends of the edges in a manifest are labels of its vertices.
proof fn lemma_ends_are_exported(g: GraphTypeModel, j: int)
    requires
        1 <= g.next_label_id <= u32::MAX,
        forall|name: Seq<char>| #[trigger]
            g.labels.dom().contains(name) ==> 1 <= g.labels[name].raw < g.next_label_id,
        can_export(g),
        0 <= j < manifest_of(g).edges.len(),
    ensures
        manifest_of(g).has_vertices(manifest_of(g).edges[j].src_label),
        manifest_of(g).has_vertices(manifest_of(g).edges[j].dst_label),
{
    let n = g.next_label_id;
    let m = manifest_of(g);
    let vs = vertex_ids(g, n);
    let es = edge_ids(g, n);
    lemma_manifest_ids(g, n);
    let id = es[j];
    assert(name_for(g, es[j]) is Some);
    lemma_id_in_range(g, id);
    assert(can_export_label(g, label_id(id.raw as int)));
    let ty = model_of(g.edge_types, seq![id])->0;
    let src = ty.src.labels[0];
    let dst = ty.dst.labels[0];
    lemma_id_in_range(g, src);
    lemma_id_in_range(g, dst);
    assert(is_vertex_id(g, label_id(src.raw as int)));
    assert(is_vertex_id(g, label_id(dst.raw as int)));
    assert(vs.contains(src) && vs.contains(dst));
    let a = choose|i: int| 0 <= i < vs.len() && vs[i] == src;
    let b = choose|i: int| 0 <= i < vs.len() && vs[i] == dst;
    assert(is_vertex_id(g, vs[a]) && is_vertex_id(g, vs[b]));
    assert(m.is_vertex_label(a, m.edges[j].src_label));
    assert(m.is_vertex_label(b, m.edges[j].dst_label));
}

/// The manifest that is made from a graph type is valid, so that it can be imported again: and what
/// is made from the graph type that is imported then is the same manifest.
pub proof fn exported_types_import_again(g: GraphTypeModel, imported: GraphTypeModel)
    requires
        1 <= g.next_label_id <= u32::MAX,
        forall|name: Seq<char>| #[trigger]
            g.labels.dom().contains(name) ==> 1 <= g.labels[name].raw < g.next_label_id,
        can_export(g),
        manifest_of(g).is_graph_type(imported),
    ensures
        manifest_of(g).is_valid(),
        manifest_of(g).has_own_files(),
        can_export(imported),
        manifest_of(imported) == manifest_of(g),
{
    let n = g.next_label_id;
    let m = manifest_of(g);
    let vs = vertex_ids(g, n);
    let es = edge_ids(g, n);
    lemma_manifest_ids(g, n);
    assert forall|i: int, j: int| 0 <= i < j < m.size() implies #[trigger] m.label_at(i)
        != #[trigger] m.label_at(j) by {
        let nv = m.vertices.len() as int;
        let a = if i < nv {
            vs[i]
        } else {
            es[i - nv]
        };
        let b = if j < nv {
            vs[j]
        } else {
            es[j - nv]
        };
        if i < nv {
            assert(is_vertex_id(g, vs[i]));
        } else {
            assert(name_for(g, es[i - nv]) is Some);
        }
        if j < nv {
            assert(is_vertex_id(g, vs[j]));
            assert(vs[i].raw < vs[j].raw);
        } else {
            assert(name_for(g, es[j - nv]) is Some);
            if i >= nv {
                assert(es[i - nv].raw < es[j - nv].raw);
            }
        }
        lemma_names_differ(g, a, b);
    }
    assert forall|j: int| 0 <= j < m.edges.len() implies m.has_vertices(
        (#[trigger] m.edges[j]).src_label,
    ) && m.has_vertices(m.edges[j].dst_label) by {
        lemma_ends_are_exported(g, j);
    }
    assert forall|i: int| 0 <= i < m.vertices.len() implies (#[trigger] m.vertices[i])
        == vertex_spec_of(g, vs[i]) by {
        assert(is_vertex_id(g, vs[i]));
    }
    assert forall|j: int| 0 <= j < m.edges.len() implies (#[trigger] m.edges[j])
        == edge_spec_of(g, es[j]) by {
        assert(name_for(g, es[j]) is Some);
    }
    imported_types_export_again(m, imported);
}

/// The label at a position of the manifest of a graph type, and what the manifest says of it.
pub proof fn lemma_manifest_label(g: GraphTypeModel, i: int)
    requires
        1 <= g.next_label_id <= u32::MAX,
        0 <= i < manifest_of(g).size(),
    ensures
        ({
            let m = manifest_of(g);
            let id = g.labels[m.label_at(i)];
            &&& g.labels.dom().contains(m.label_at(i))
            &&& name_for(g, id) == Some(m.label_at(i))
            &&& i < m.vertices.len() ==> is_vertex_id(g, id) && m.vertices[i] == vertex_spec_of(
                g,
                id,
            )
            &&& i >= m.vertices.len() ==> is_edge_id(g, id) && m.edges[i - m.vertices.len()]
                == edge_spec_of(g, id)
        }),
{
    let m = manifest_of(g);
    let n = g.next_label_id;
    let vs = vertex_ids(g, n);
    let es = edge_ids(g, n);
    lemma_manifest_ids(g, n);
    let nv = m.vertices.len() as int;
    let id = if i < nv {
        vs[i]
    } else {
        es[i - nv]
    };
    if i < nv {
        assert(is_vertex_id(g, vs[i]));
    } else {
        assert(name_for(g, es[i - nv]) is Some);
    }
    let name = choose|name: Seq<char>| #[trigger] g.has_label(name, id);
    assert(g.has_label(name, id));
}

/// Every label has a position in the manifest of a graph type.
pub proof fn lemma_label_in_manifest(g: GraphTypeModel, id: LabelId) -> (i: int)
    requires
        1 <= g.next_label_id <= u32::MAX,
        forall|name: Seq<char>| #[trigger]
            g.labels.dom().contains(name) ==> 1 <= g.labels[name].raw < g.next_label_id,
        name_for(g, id) is Some,
    ensures
        0 <= i < manifest_of(g).size(),
        g.labels[manifest_of(g).label_at(i)] == id,
        i < manifest_of(g).vertices.len() <==> is_vertex_id(g, id),
{
    let m = manifest_of(g);
    let n = g.next_label_id;
    let vs = vertex_ids(g, n);
    let es = edge_ids(g, n);
    lemma_manifest_ids(g, n);
    lemma_id_in_range(g, id);
    let nv = m.vertices.len() as int;
    let i = if is_vertex_id(g, id) {
        assert(is_vertex_id(g, label_id(id.raw as int)));
        choose|k: int| 0 <= k < vs.len() && vs[k] == id
    } else {
        assert(is_edge_id(g, label_id(id.raw as int)));
        nv + choose|k: int| 0 <= k < es.len() && es[k] == id
    };
    if is_vertex_id(g, id) {
        assert(vs.contains(id));
        assert(is_vertex_id(g, vs[i]));
    } else {
        assert(es.contains(id));
        assert(name_for(g, es[i - nv]) is Some);
    }
    let name = choose|name: Seq<char>| #[trigger] g.has_label(name, id);
    assert(g.has_label(name, id));
    i
}

/// What the graph type that is made from a manifest says of the label at a position.
pub proof fn lemma_imported_label(m: ManifestModel, g: GraphTypeModel, i: int)
    requires
        m.is_valid(),
        m.is_graph_type(g),
        0 <= i < m.size(),
    ensures
        g.labels.dom().contains(m.label_at(i)),
        name_for(g, g.labels[m.label_at(i)]) == Some(m.label_at(i)),
        i < m.vertices.len() ==> model_of(
            g.vertex_types,
            seq![g.labels[m.label_at(i)]],
        ) == Some(m.vertex_type(i)),
        i >= m.vertices.len() ==> model_of(g.edge_types, seq![g.labels[m.label_at(i)]]) == Some(
            m.edge_type(i - m.vertices.len()),
        ),
{
    lemma_label_of_manifest(m, g, i);
    assert(g.labels[m.label_at(i)] == label_id(i + 1));
}

} // verus!
