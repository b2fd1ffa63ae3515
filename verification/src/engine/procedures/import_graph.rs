//! Importing a graph from records.

use vstd::prelude::*;
use std::collections::HashMap;
use std::sync::Arc;
use crate::catalog::graph_type::{
    model_of, property_models, GraphTypeModel, MemoryGraphTypeCatalog, Property, PropertyModel,
};
use crate::catalog::label_set::LabelSet;
use crate::catalog::schema::{GraphContainer, GraphRef, MemorySchemaCatalog, Procedure};
use crate::common::data_type::LogicalType;
use crate::common::parse::unsigned_value;
use crate::common::types::LabelId;
use crate::common::value::{value_models, ScalarValue, ValueModel};
use crate::engine::procedures::create_test_graph::{is_added, is_fresh};
use crate::engine::procedures::field::{
    field_models, property_to_scalar_value, unsigned, value_read, Field, FieldModel, ImportError,
    ImportFailure,
};
use crate::engine::procedures::manifest::{get_graph_type_from_manifest, Manifest};
use crate::execution::error::{error_text, execution_error, named_error, ExecutionResult};
use crate::storage::model::{
    edge_data, vertex_data, Edge, EdgeData, GraphData, PropertyRecord, Vertex, VertexData,
};
use crate::transaction::txn::TxnOptions;

verus! {

broadcast use vstd::std_specs::hash::group_hash_axioms;

/// The values of the first `n` properties, in fields from `skip` on; the first failure counts.
pub open spec fn properties_read(
    properties: Seq<PropertyModel>,
    record: Seq<FieldModel>,
    skip: int,
    n: int,
) -> Result<Seq<ValueModel>, ImportFailure>
    decreases n,
{
    if n <= 0 {
        Ok(Seq::empty())
    } else {
        match properties_read(properties, record, skip, n - 1) {
            Err(e) => Err(e),
            Ok(values) => match value_read(properties[n - 1], record[skip + n - 1]) {
                Err(e) => Err(e),
                Ok(value) => Ok(values.push(value)),
            },
        }
    }
}

/// A failure stays what it is.
proof fn lemma_failure_stays(
    properties: Seq<PropertyModel>,
    record: Seq<FieldModel>,
    skip: int,
    i: int,
    n: int,
)
    requires
        0 <= i <= n,
        properties_read(properties, record, skip, i) is Err,
    ensures
        properties_read(properties, record, skip, n) == properties_read(
            properties,
            record,
            skip,
            i,
        ),
    decreases n - i,
{
    if i < n {
        lemma_failure_stays(properties, record, skip, i, n - 1);
    }
}

/// The number of properties that a record has fields for.
pub open spec fn zipped(properties: int, fields: int, skip: int) -> int {
    if fields - skip < 0 {
        0
    } else if properties < fields - skip {
        properties
    } else {
        fields - skip
    }
}

/// The values of properties, in the fields of a record from `skip` on.
pub fn build_properties(properties: &Vec<Property>, record: &Vec<Field>, skip: usize) -> (r: Result<
    Vec<ScalarValue>,
    ImportError,
>)
    ensures
        properties_read(
            property_models(properties@),
            field_models(record@),
            skip as int,
            zipped(properties@.len() as int, record@.len() as int, skip as int),
        ) == (match r {
            Ok(values) => Ok(value_models(values@)),
            Err(e) => Err(e@),
        }),
{
    let mut values: Vec<ScalarValue> = Vec::new();
    let ghost props = property_models(properties@);
    let ghost fields = field_models(record@);
    let ghost total = zipped(properties@.len() as int, record@.len() as int, skip as int);
    let mut n: usize = 0;
    assert(value_models(values@) =~= Seq::<ValueModel>::empty());
    while n < properties.len() && skip < record.len() && n < record.len() - skip
        invariant
            props == property_models(properties@),
            fields == field_models(record@),
            total == zipped(properties@.len() as int, record@.len() as int, skip as int),
            n <= total,
            properties_read(props, fields, skip as int, n as int) == Ok::<
                Seq<ValueModel>,
                ImportFailure,
            >(value_models(values@)),
        decreases properties.len() - n,
    {
        let ghost before = values@;
        match property_to_scalar_value(&properties[n], &record[skip + n]) {
            Ok(value) => {
                values.push(value);
                assert(value_models(values@) =~= value_models(before).push(value.model()));
            },
            Err(e) => {
                proof {
                    lemma_failure_stays(props, fields, skip as int, n + 1, total);
                }
                return Err(e);
            },
        }
        n = n + 1;
    }
    Ok(values)
}

// ---------------------------------------------------------------------------------------------
// The graph so far
// ---------------------------------------------------------------------------------------------

/// A graph that is being imported. Vertices and edges get new identifiers, from one on.
pub struct GraphImport {
    pub graph_type: MemoryGraphTypeCatalog,
    pub vertices: Vec<Vertex>,
    pub edges: Vec<Edge>,
    /// The new identifiers of the vertices, by those in their records.
    pub vid_mapping: HashMap<u64, u64>,
    pub next_vid: u64,
    pub next_eid: u64,
}

#[verifier::ext_equal]
pub struct ImportModel {
    pub graph_type: GraphTypeModel,
    pub vertices: Seq<VertexData>,
    pub edges: Seq<EdgeData>,
    pub vid_mapping: Map<u64, u64>,
    pub next_vid: u64,
    pub next_eid: u64,
}

impl View for GraphImport {
    type V = ImportModel;

    open spec fn view(&self) -> ImportModel {
        ImportModel {
            graph_type: self.graph_type@,
            vertices: vertex_data(self.vertices@),
            edges: edge_data(self.edges@),
            vid_mapping: self.vid_mapping@,
            next_vid: self.next_vid,
            next_eid: self.next_eid,
        }
    }
}

impl ImportModel {
    /// Nothing has been imported into a graph of a type.
    pub open spec fn empty(graph_type: GraphTypeModel) -> ImportModel {
        ImportModel {
            graph_type,
            vertices: Seq::empty(),
            edges: Seq::empty(),
            vid_mapping: Map::empty(),
            next_vid: 1,
            next_eid: 1,
        }
    }

    /// After a vertex has been added.
    pub open spec fn vertex_added(
        self,
        old_vid: u64,
        label_id: LabelId,
        values: Seq<ValueModel>,
    ) -> ImportModel {
        ImportModel {
            vertices: self.vertices.push(
                VertexData { vid: self.next_vid, label_id, properties: values },
            ),
            vid_mapping: self.vid_mapping.insert(old_vid, self.next_vid),
            next_vid: (self.next_vid + 1) as u64,
            ..self
        }
    }

    /// After an edge has been added.
    pub open spec fn edge_added(
        self,
        old_src: u64,
        old_dst: u64,
        label_id: LabelId,
        values: Seq<ValueModel>,
    ) -> ImportModel {
        ImportModel {
            edges: self.edges.push(
                EdgeData {
                    eid: self.next_eid,
                    src_id: self.vid_mapping[old_src],
                    dst_id: self.vid_mapping[old_dst],
                    label_id,
                    properties: values,
                },
            ),
            next_eid: (self.next_eid + 1) as u64,
            ..self
        }
    }

    /// After a record of a vertex: its identifier, then its properties.
    pub open spec fn vertex_imported(
        self,
        label_id: LabelId,
        properties: Seq<PropertyModel>,
        record: Seq<FieldModel>,
    ) -> Result<ImportModel, ImportFailure> {
        if record.len() != properties.len() + 1 {
            Err(ImportFailure::RecordLength(record.len()))
        } else {
            match unsigned_value(record[0].text, u64::MAX as nat) {
                None => Err(ImportFailure::InvalidInteger(record[0].text)),
                Some(old_vid) => match properties_read(
                    properties,
                    record,
                    1,
                    properties.len() as int,
                ) {
                    Err(e) => Err(e),
                    Ok(values) => Ok(self.vertex_added(old_vid as u64, label_id, values)),
                },
            }
        }
    }

    /// After a record of an edge: its identifier, those of its ends, then its properties.
    pub open spec fn edge_imported(
        self,
        label_id: LabelId,
        properties: Seq<PropertyModel>,
        record: Seq<FieldModel>,
    ) -> Result<ImportModel, ImportFailure> {
        if record.len() != properties.len() + 3 {
            Err(ImportFailure::RecordLength(record.len()))
        } else {
            match self.ends_read(record) {
                Err(e) => Err(e),
                Ok(ends) => match properties_read(
                    properties,
                    record,
                    3,
                    properties.len() as int,
                ) {
                    Err(e) => Err(e),
                    Ok(values) => Ok(self.edge_added(ends.0, ends.1, label_id, values)),
                },
            }
        }
    }

    /// The ends of an edge: numbers, of vertices that have been imported.
    pub open spec fn ends_read(self, record: Seq<FieldModel>) -> Result<(u64, u64), ImportFailure> {
        match (
            unsigned_value(record[1].text, u64::MAX as nat),
            unsigned_value(record[2].text, u64::MAX as nat),
        ) {
            (None, _) => Err(ImportFailure::InvalidInteger(record[1].text)),
            (_, None) => Err(ImportFailure::InvalidInteger(record[2].text)),
            (Some(src), Some(dst)) => if !self.vid_mapping.dom().contains(src as u64) {
                Err(ImportFailure::UnknownVertex(src as u64))
            } else if !self.vid_mapping.dom().contains(dst as u64) {
                Err(ImportFailure::UnknownVertex(dst as u64))
            } else {
                Ok((src as u64, dst as u64))
            },
        }
    }
}

/// The number of a label of vertices and the properties of these vertices.
pub open spec fn vertex_source(m: GraphTypeModel, label: Seq<char>) -> Option<
    (LabelId, Seq<PropertyModel>),
> {
    if m.labels.dom().contains(label) {
        match model_of(m.vertex_types, seq![m.labels[label]]) {
            Some(ty) => Some((m.labels[label], ty.properties)),
            None => None,
        }
    } else {
        None
    }
}

/// The number of a label of edges and the properties of these edges.
pub open spec fn edge_source(m: GraphTypeModel, label: Seq<char>) -> Option<
    (LabelId, Seq<PropertyModel>),
> {
    if m.labels.dom().contains(label) {
        match model_of(m.edge_types, seq![m.labels[label]]) {
            Some(ty) => Some((m.labels[label], ty.properties)),
            None => None,
        }
    } else {
        None
    }
}

impl GraphImport {
    /// Starts with the graph type of a manifest, unless something is wrong with the manifest.
    pub fn new(manifest: &Manifest) -> (r: Result<Self, ImportError>)
        ensures
            match r {
                Ok(import) => {
                    &&& manifest@.failure() is None
                    &&& import.graph_type.wf()
                    &&& manifest@.is_graph_type(import.graph_type@)
                    &&& import@ == ImportModel::empty(import.graph_type@)
                },
                Err(e) => manifest@.failure() == Some(e@),
            },
    {
        let graph_type = match get_graph_type_from_manifest(manifest) {
            Ok(graph_type) => graph_type,
            Err(e) => {
                return Err(e);
            },
        };
        let r = GraphImport {
            graph_type,
            vertices: Vec::new(),
            edges: Vec::new(),
            vid_mapping: HashMap::new(),
            next_vid: 1,
            next_eid: 1,
        };
        proof {
            assert(vertex_data(r.vertices@) =~= Seq::<VertexData>::empty());
            assert(edge_data(r.edges@) =~= Seq::<EdgeData>::empty());
            assert(r.vid_mapping@ =~= Map::empty());
        }
        Ok(r)
    }

    /// Adds the vertex of a record.
    pub fn add_vertex(&mut self, label: &str, record: &Vec<Field>) -> (r: Result<(), ImportError>)
        requires
            old(self).graph_type.wf(),
            old(self).next_vid < u64::MAX,
        ensures
            final(self).graph_type == old(self).graph_type,
            r is Err ==> *final(self) == *old(self),
            match vertex_source(old(self).graph_type@, label@) {
                None => r matches Err(e) && e@ == ImportFailure::UnknownLabel(label@),
                Some(source) => old(self)@.vertex_imported(
                    source.0,
                    source.1,
                    field_models(record@),
                ) == (match r {
                    Ok(_) => Ok(final(self)@),
                    Err(e) => Err(e@),
                }),
            },
    {
        let ghost before = self@;
        let ghost vertices = self.vertices@;
        let label_id = match self.graph_type.get_label_id(label) {
            Some(label_id) => label_id,
            None => {
                return Err(ImportError::UnknownLabel(label.to_owned()));
            },
        };
        let vertex_type = match self.graph_type.get_vertex_type(&LabelSet::single(label_id)) {
            Some(vertex_type) => vertex_type,
            None => {
                return Err(ImportError::UnknownLabel(label.to_owned()));
            },
        };
        if record.len() < 1 || record.len() - 1 != vertex_type.properties.len() {
            return Err(ImportError::RecordLength(record.len()));
        }
        assert(field_models(record@)[0] == record@[0]@);
        let old_vid: u64 = match unsigned(&record[0], u64::MAX) {
            Ok(n) => n,
            Err(e) => {
                return Err(e);
            },
        };
        let values = match build_properties(&vertex_type.properties, record, 1) {
            Ok(values) => values,
            Err(e) => {
                return Err(e);
            },
        };
        let vid: u64 = self.next_vid;
        let vertex = Vertex::new(vid, label_id, PropertyRecord::new(values));
        self.vertices.push(vertex);
        self.vid_mapping.insert(old_vid, vid);
        self.next_vid = vid + 1;
        proof {
            assert(vertex_data(self.vertices@) =~= vertex_data(vertices).push(vertex@));
            assert(self@ =~= before.vertex_added(old_vid, label_id, vertex@.properties));
        }
        Ok(())
    }

    /// Adds the edge of a record.
    pub fn add_edge(&mut self, label: &str, record: &Vec<Field>) -> (r: Result<(), ImportError>)
        requires
            old(self).graph_type.wf(),
            old(self).next_eid < u64::MAX,
        ensures
            final(self).graph_type == old(self).graph_type,
            r is Err ==> *final(self) == *old(self),
            match edge_source(old(self).graph_type@, label@) {
                None => r matches Err(e) && e@ == ImportFailure::UnknownLabel(label@),
                Some(source) => old(self)@.edge_imported(
                    source.0,
                    source.1,
                    field_models(record@),
                ) == (match r {
                    Ok(_) => Ok(final(self)@),
                    Err(e) => Err(e@),
                }),
            },
    {
        let ghost before = self@;
        let ghost edges = self.edges@;
        let label_id = match self.graph_type.get_label_id(label) {
            Some(label_id) => label_id,
            None => {
                return Err(ImportError::UnknownLabel(label.to_owned()));
            },
        };
        let edge_type = match self.graph_type.get_edge_type(&LabelSet::single(label_id)) {
            Some(edge_type) => edge_type,
            None => {
                return Err(ImportError::UnknownLabel(label.to_owned()));
            },
        };
        if record.len() < 3 || record.len() - 3 != edge_type.properties.len() {
            return Err(ImportError::RecordLength(record.len()));
        }
        assert(field_models(record@)[1] == record@[1]@);
        assert(field_models(record@)[2] == record@[2]@);
        let old_src: u64 = match unsigned(&record[1], u64::MAX) {
            Ok(n) => n,
            Err(e) => {
                return Err(e);
            },
        };
        let old_dst: u64 = match unsigned(&record[2], u64::MAX) {
            Ok(n) => n,
            Err(e) => {
                return Err(e);
            },
        };
        let src_id: u64 = match self.vid_mapping.get(&old_src) {
            Some(vid) => *vid,
            None => {
                return Err(ImportError::UnknownVertex(old_src));
            },
        };
        let dst_id: u64 = match self.vid_mapping.get(&old_dst) {
            Some(vid) => *vid,
            None => {
                return Err(ImportError::UnknownVertex(old_dst));
            },
        };
        let values = match build_properties(&edge_type.properties, record, 3) {
            Ok(values) => values,
            Err(e) => {
                return Err(e);
            },
        };
        let eid: u64 = self.next_eid;
        let edge = Edge::new(eid, src_id, dst_id, label_id, PropertyRecord::new(values));
        self.edges.push(edge);
        self.next_eid = eid + 1;
        proof {
            assert(edge_data(self.edges@) =~= edge_data(edges).push(edge@));
            assert(self@ =~= before.edge_added(old_src, old_dst, label_id, edge@.properties));
        }
        Ok(())
    }
}

/// A record, with the label and the properties that it is read by.
#[verifier::ext_equal]
pub struct Item {
    pub label_id: LabelId,
    pub properties: Seq<PropertyModel>,
    pub record: Seq<FieldModel>,
}

/// The records of a file, all read by the same label and the same properties.
pub open spec fn file_items(
    label_id: LabelId,
    properties: Seq<PropertyModel>,
    records: Seq<Vec<Field>>,
) -> Seq<Item> {
    records.map_values(
        |record: Vec<Field>| Item { label_id, properties, record: field_models(record@) },
    )
}

impl ImportModel {
    /// After the first `n` of some records of vertices; the first failure counts.
    pub open spec fn vertices_imported(self, items: Seq<Item>, n: int) -> Result<
        ImportModel,
        ImportFailure,
    >
        decreases n,
    {
        if n <= 0 {
            Ok(self)
        } else {
            match self.vertices_imported(items, n - 1) {
                Err(e) => Err(e),
                Ok(before) => before.vertex_imported(
                    items[n - 1].label_id,
                    items[n - 1].properties,
                    items[n - 1].record,
                ),
            }
        }
    }

    /// After the first `n` of some records of edges; the first failure counts.
    pub open spec fn edges_imported(self, items: Seq<Item>, n: int) -> Result<
        ImportModel,
        ImportFailure,
    >
        decreases n,
    {
        if n <= 0 {
            Ok(self)
        } else {
            match self.edges_imported(items, n - 1) {
                Err(e) => Err(e),
                Ok(before) => before.edge_imported(
                    items[n - 1].label_id,
                    items[n - 1].properties,
                    items[n - 1].record,
                ),
            }
        }
    }

    /// The import of vertices fails at a record, with the records before it imported.
    pub open spec fn vertices_fail_at(
        self,
        items: Seq<Item>,
        k: int,
        after: ImportModel,
        e: ImportFailure,
    ) -> bool {
        &&& 0 <= k < items.len()
        &&& self.vertices_imported(items, k) == Ok::<ImportModel, ImportFailure>(after)
        &&& self.vertices_imported(items, k + 1) == Err::<ImportModel, ImportFailure>(e)
    }

    /// The import of edges fails at a record, with the records before it imported.
    pub open spec fn edges_fail_at(
        self,
        items: Seq<Item>,
        k: int,
        after: ImportModel,
        e: ImportFailure,
    ) -> bool {
        &&& 0 <= k < items.len()
        &&& self.edges_imported(items, k) == Ok::<ImportModel, ImportFailure>(after)
        &&& self.edges_imported(items, k + 1) == Err::<ImportModel, ImportFailure>(e)
    }
}

proof fn lemma_vertices_fail(m: ImportModel, items: Seq<Item>, k: int, n: int)
    requires
        0 <= k <= n,
        m.vertices_imported(items, k) is Err,
    ensures
        m.vertices_imported(items, n) == m.vertices_imported(items, k),
    decreases n - k,
{
    if k < n {
        lemma_vertices_fail(m, items, k, n - 1);
    }
}

proof fn lemma_edges_fail(m: ImportModel, items: Seq<Item>, k: int, n: int)
    requires
        0 <= k <= n,
        m.edges_imported(items, k) is Err,
    ensures
        m.edges_imported(items, n) == m.edges_imported(items, k),
    decreases n - k,
{
    if k < n {
        lemma_edges_fail(m, items, k, n - 1);
    }
}

impl GraphImport {
    /// Adds the vertices of the records of a file, up to the first record that is not valid.
    pub fn add_vertices(&mut self, label: &str, records: &Vec<Vec<Field>>) -> (r: Result<
        (),
        ImportError,
    >)
        requires
            old(self).graph_type.wf(),
            old(self).next_vid + records@.len() <= u64::MAX,
        ensures
            final(self).graph_type == old(self).graph_type,
            match vertex_source(old(self).graph_type@, label@) {
                None => {
                    &&& *final(self) == *old(self)
                    &&& if records@.len() == 0 {
                        r is Ok
                    } else {
                        r matches Err(e) && e@ == ImportFailure::UnknownLabel(label@)
                    }
                },
                Some(source) => {
                    let items = file_items(source.0, source.1, records@);
                    let imported = old(self)@.vertices_imported(items, items.len() as int);
                    match r {
                        Ok(_) => imported == Ok::<ImportModel, ImportFailure>(final(self)@),
                        Err(e) => imported == Err::<ImportModel, ImportFailure>(e@) && exists|
                            k: int,
                        | #[trigger]
                            old(self)@.vertices_fail_at(items, k, final(self)@, e@),
                    }
                },
            },
    {
        let ghost start = self@;
        let ghost graph_type = self.graph_type;
        let ghost source = vertex_source(graph_type@, label@);
        let ghost items = file_items((source->0).0, (source->0).1, records@);
        let mut i: usize = 0;
        while i < records.len()
            invariant
                i <= records@.len(),
                start == old(self)@,
                graph_type == old(self).graph_type,
                self.graph_type == graph_type,
                graph_type.wf(),
                source == vertex_source(graph_type@, label@),
                items == file_items((source->0).0, (source->0).1, records@),
                source is None ==> i == 0,
                i == 0 ==> *self == *old(self),
                self.next_vid + (records@.len() - i) <= u64::MAX,
                start.vertices_imported(items, i as int) == Ok::<ImportModel, ImportFailure>(self@),
            decreases records.len() - i,
        {
            assert(items[i as int].record == field_models(records@[i as int]@));
            match self.add_vertex(label, &records[i]) {
                Ok(_) => {},
                Err(e) => {
                    proof {
                        if source is Some {
                            assert(start.vertices_fail_at(items, i as int, self@, e@));
                            lemma_vertices_fail(start, items, i + 1, items.len() as int);
                        }
                    }
                    return Err(e);
                },
            }
            i = i + 1;
        }
        Ok(())
    }

    /// Adds the edges of the records of a file, up to the first record that is not valid.
    pub fn add_edges(&mut self, label: &str, records: &Vec<Vec<Field>>) -> (r: Result<
        (),
        ImportError,
    >)
        requires
            old(self).graph_type.wf(),
            old(self).next_eid + records@.len() <= u64::MAX,
        ensures
            final(self).graph_type == old(self).graph_type,
            match edge_source(old(self).graph_type@, label@) {
                None => {
                    &&& *final(self) == *old(self)
                    &&& if records@.len() == 0 {
                        r is Ok
                    } else {
                        r matches Err(e) && e@ == ImportFailure::UnknownLabel(label@)
                    }
                },
                Some(source) => {
                    let items = file_items(source.0, source.1, records@);
                    let imported = old(self)@.edges_imported(items, items.len() as int);
                    match r {
                        Ok(_) => imported == Ok::<ImportModel, ImportFailure>(final(self)@),
                        Err(e) => imported == Err::<ImportModel, ImportFailure>(e@) && exists|
                            k: int,
                        | #[trigger]
                            old(self)@.edges_fail_at(items, k, final(self)@, e@),
                    }
                },
            },
    {
        let ghost start = self@;
        let ghost graph_type = self.graph_type;
        let ghost source = edge_source(graph_type@, label@);
        let ghost items = file_items((source->0).0, (source->0).1, records@);
        let mut i: usize = 0;
        while i < records.len()
            invariant
                i <= records@.len(),
                start == old(self)@,
                graph_type == old(self).graph_type,
                self.graph_type == graph_type,
                graph_type.wf(),
                source == edge_source(graph_type@, label@),
                items == file_items((source->0).0, (source->0).1, records@),
                source is None ==> i == 0,
                i == 0 ==> *self == *old(self),
                self.next_eid + (records@.len() - i) <= u64::MAX,
                start.edges_imported(items, i as int) == Ok::<ImportModel, ImportFailure>(self@),
            decreases records.len() - i,
        {
            assert(items[i as int].record == field_models(records@[i as int]@));
            match self.add_edge(label, &records[i]) {
                Ok(_) => {},
                Err(e) => {
                    proof {
                        if source is Some {
                            assert(start.edges_fail_at(items, i as int, self@, e@));
                            lemma_edges_fail(start, items, i + 1, items.len() as int);
                        }
                    }
                    return Err(e);
                },
            }
            i = i + 1;
        }
        Ok(())
    }
}

// ---------------------------------------------------------------------------------------------
// The procedure
// ---------------------------------------------------------------------------------------------

/// The procedure as the catalog knows it: it takes two texts.
pub fn build_procedure() -> (r: Procedure)
    ensures
        r.parameters@ == seq![LogicalType::String, LogicalType::String],
        r.schema is None,
{
    let mut parameters: Vec<LogicalType> = Vec::new();
    parameters.push(LogicalType::String);
    parameters.push(LogicalType::String);
    assert(parameters@ =~= seq![LogicalType::String, LogicalType::String]);
    Procedure { parameters, schema: None }
}

/// Whether a graph can be imported under a name: there is a current schema, and the name is free
/// in it.
pub fn check_import(current_schema: &Option<MemorySchemaCatalog>, graph_name: &str) -> (r:
    ExecutionResult<()>)
    requires
        *current_schema matches Some(schema) ==> schema.wf(),
    ensures
        match *current_schema {
            None => r matches Err(e) && error_text(e) == "current schema not set"@,
            Some(schema) => if schema.graph_map@.dom().contains(graph_name@) {
                r matches Err(e) && error_text(e) == "graph "@ + graph_name@ + " already exists"@
            } else {
                r is Ok
            },
        },
{
    match current_schema {
        None => Err(execution_error("current schema not set")),
        Some(schema) => if schema.get_graph(graph_name).is_some() {
            Err(named_error("graph ", graph_name, " already exists"))
        } else {
            Ok(())
        },
    }
}

/// What the registration of an imported graph gives and leaves behind.
pub open spec fn is_registered(
    import: GraphImport,
    before: Option<MemorySchemaCatalog>,
    name: Seq<char>,
    txn_options: TxnOptions,
    r: ExecutionResult<GraphData>,
    after: Option<MemorySchemaCatalog>,
) -> bool {
    match before {
        None => after is None && (r matches Err(e) && error_text(e) == "current schema not set"@),
        Some(schema) => if schema.graph_map@.dom().contains(name) {
            &&& after matches Some(same)
            &&& same.wf()
            &&& same.same_but_graphs(&schema)
            &&& same.graph_map@ == schema.graph_map@
            &&& r matches Err(e)
            &&& error_text(e) == "graph "@ + name + " already exists"@
        } else {
            &&& r matches Ok(data)
            &&& data.vertices == import.vertices
            &&& data.edges == import.edges
            &&& after matches Some(more)
            &&& exists|graph: GraphRef|
                is_fresh(*graph, import.graph_type@, txn_options) && #[trigger] is_added(
                    schema,
                    more,
                    name,
                    graph,
                )
        },
    }
}

impl GraphImport {
    /// Adds the graph to the current schema under a name. Gives the data that the graph is to
    /// hold.
    pub fn register(
        self,
        current_schema: &mut Option<MemorySchemaCatalog>,
        graph_name: &str,
        txn_options: TxnOptions,
    ) -> (r: ExecutionResult<GraphData>)
        requires
            self.graph_type.wf(),
            *old(current_schema) matches Some(schema) ==> schema.wf(),
        ensures
            is_registered(
                self,
                *old(current_schema),
                graph_name@,
                txn_options,
                r,
                *final(current_schema),
            ),
    {
        match current_schema {
            None => Err(execution_error("current schema not set")),
            Some(schema) => {
                let graph: GraphRef = Arc::new(
                    GraphContainer::new(Arc::new(self.graph_type), txn_options),
                );
                let ghost before = *schema;
                if !schema.add_graph(graph_name.to_owned(), graph) {
                    return Err(named_error("graph ", graph_name, " already exists"));
                }
                assert(is_added(before, *schema, graph_name@, graph));
                Ok(GraphData { vertices: self.vertices, edges: self.edges })
            },
        }
    }
}

} // verus!
