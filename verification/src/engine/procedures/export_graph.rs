//! Exporting a graph as records.

use vstd::prelude::*;
use crate::catalog::graph_type::{GraphTypeModel, PropertyModel};
use crate::catalog::schema::{GraphRef, MemorySchemaCatalog, Procedure};
use crate::common::data_type::LogicalType;
use crate::common::parse::unsigned_text_is_read_back;
use crate::common::text::{decimal, decimal_text};
use crate::common::types::LabelId;
use crate::common::value::{value_models, ScalarValue, ValueModel};
use crate::engine::procedures::field::{
    cell_models, has_type, is_absent, is_read_of, scalar_value_to_cell, value_cell,
    written_values_are_read_back, Cell, CellModel, FieldModel, ImportFailure,
};
use crate::engine::procedures::import_graph::{properties_read, ImportModel, Item};
use crate::execution::error::{error_text, execution_error, named_error, ExecutionResult};
use crate::storage::model::{edge_data, vertex_data, Edge, EdgeData, Vertex, VertexData};

verus! {

// ---------------------------------------------------------------------------------------------
// Records
// ---------------------------------------------------------------------------------------------

/// The cells of values.
pub open spec fn value_cells(values: Seq<ValueModel>) -> Seq<CellModel> {
    values.map_values(|v: ValueModel| value_cell(v))
}

/// The cell of an identifier.
pub open spec fn id_cell(id: u64) -> CellModel {
    CellModel::Text(decimal(id as nat))
}

/// The record of a vertex: its identifier, then its properties.
pub open spec fn vertex_record(v: VertexData) -> Seq<CellModel> {
    seq![id_cell(v.vid)] + value_cells(v.properties)
}

/// The record of an edge: its identifier, those of its ends, then its properties.
pub open spec fn edge_record(e: EdgeData) -> Seq<CellModel> {
    seq![id_cell(e.eid), id_cell(e.src_id), id_cell(e.dst_id)] + value_cells(e.properties)
}

/// The records of those of the first `n` vertices that have a label, by their identifiers.
pub open spec fn vertex_records(vertices: Seq<VertexData>, label_id: LabelId, n: int) -> Map<
    u64,
    Seq<CellModel>,
>
    decreases n,
{
    if n <= 0 {
        Map::empty()
    } else {
        let before = vertex_records(vertices, label_id, n - 1);
        let v = vertices[n - 1];
        if v.label_id == label_id {
            before.insert(v.vid, vertex_record(v))
        } else {
            before
        }
    }
}

/// The records of those of the first `n` edges that have a label, by their identifiers.
pub open spec fn edge_records(edges: Seq<EdgeData>, label_id: LabelId, n: int) -> Map<
    u64,
    Seq<CellModel>,
>
    decreases n,
{
    if n <= 0 {
        Map::empty()
    } else {
        let before = edge_records(edges, label_id, n - 1);
        let e = edges[n - 1];
        if e.label_id == label_id {
            before.insert(e.eid, edge_record(e))
        } else {
            before
        }
    }
}

fn push_values(record: &mut Vec<Cell>, values: &Vec<ScalarValue>)
    ensures
        cell_models(final(record)@) == cell_models(old(record)@) + value_cells(
            value_models(values@),
        ),
{
    let ghost start = cell_models(record@);
    let ghost cells = value_cells(value_models(values@));
    let mut i: usize = 0;
    assert(start + cells.take(0) =~= start);
    while i < values.len()
        invariant
            i <= values@.len(),
            cells == value_cells(value_models(values@)),
            cell_models(record@) == start + cells.take(i as int),
        decreases values.len() - i,
    {
        let ghost before = record@;
        let cell = scalar_value_to_cell(&values[i]);
        record.push(cell);
        i = i + 1;
        proof {
            assert(cell_models(record@) =~= cell_models(before).push(cell@));
            assert(cells.take(i as int) =~= cells.take(i - 1).push(cells[i - 1]));
            assert(start + cells.take(i as int) =~= (start + cells.take(i - 1)).push(cell@));
        }
    }
    assert(cells.take(i as int) =~= cells);
}

// ---------------------------------------------------------------------------------------------
// Files
// ---------------------------------------------------------------------------------------------

/// Records, by label and by identifier.
#[derive(Debug)]
pub struct RecordFiles {
    pub files: Vec<(LabelId, Vec<(u64, Vec<Cell>)>)>,
}

/// The identifiers of the records in a file ascend.
pub open spec fn ids_ascend(file: Seq<(u64, Vec<Cell>)>) -> bool {
    forall|i: int, j: int|
        0 <= i < j < file.len() ==> (#[trigger] file[i]).0 < (#[trigger] file[j]).0
}

/// A file as a map from identifiers to records.
pub open spec fn file_map(file: Seq<(u64, Vec<Cell>)>) -> Map<u64, Seq<CellModel>>
    decreases file.len(),
{
    if file.len() == 0 {
        Map::empty()
    } else {
        file_map(file.drop_last()).insert(file.last().0, cell_models(file.last().1@))
    }
}

/// What the map of a file with ascending identifiers holds.
pub proof fn lemma_file_map(file: Seq<(u64, Vec<Cell>)>)
    requires
        ids_ascend(file),
    ensures
        forall|i: int|
            0 <= i < file.len() ==> file_map(file).dom().contains((#[trigger] file[i]).0)
                && file_map(file)[file[i].0] == cell_models(file[i].1@),
        forall|id: u64| #[trigger]
            file_map(file).dom().contains(id) ==> exists|i: int|
                0 <= i < file.len() && (#[trigger] file[i]).0 == id,
    decreases file.len(),
{
    if file.len() > 0 {
        let before = file.drop_last();
        assert(ids_ascend(before)) by {
            assert forall|i: int, j: int| 0 <= i < j < before.len() implies (
            #[trigger] before[i]).0 < (#[trigger] before[j]).0 by {
                assert(file[i].0 < file[j].0);
            }
        }
        lemma_file_map(before);
        assert forall|i: int| 0 <= i < file.len() implies file_map(file).dom().contains(
            (#[trigger] file[i]).0,
        ) && file_map(file)[file[i].0] == cell_models(file[i].1@) by {
            if i < file.len() - 1 {
                assert(file[i].0 < file[file.len() - 1].0);
                assert(before[i] == file[i]);
            }
        }
        assert forall|id: u64| #[trigger] file_map(file).dom().contains(id) implies exists|i: int|
            0 <= i < file.len() && (#[trigger] file[i]).0 == id by {
            if id == file.last().0 {
                assert(file[file.len() - 1].0 == id);
            } else {
                assert(file_map(before).dom().contains(id));
                let i = choose|i: int| 0 <= i < before.len() && (#[trigger] before[i]).0 == id;
                assert(file[i].0 == id);
            }
        }
    }
}

/// A file with ascending identifiers is the map that holds its records and no others.
proof fn lemma_is_file_map(file: Seq<(u64, Vec<Cell>)>, m: Map<u64, Seq<CellModel>>)
    requires
        ids_ascend(file),
        forall|i: int|
            0 <= i < file.len() ==> m.dom().contains((#[trigger] file[i]).0) && m[file[i].0]
                == cell_models(file[i].1@),
        forall|id: u64| #[trigger]
            m.dom().contains(id) ==> exists|i: int|
                0 <= i < file.len() && (#[trigger] file[i]).0 == id,
    ensures
        file_map(file) == m,
{
    lemma_file_map(file);
    assert forall|id: u64| #[trigger] m.dom().contains(id) implies file_map(file).dom().contains(
        id,
    ) && file_map(file)[id] == m[id] by {
        let i = choose|i: int| 0 <= i < file.len() && (#[trigger] file[i]).0 == id;
        assert(file_map(file).dom().contains(file[i].0));
    }
    assert forall|id: u64| #[trigger] file_map(file).dom().contains(id) implies m.dom().contains(
        id,
    ) by {
        let i = choose|i: int| 0 <= i < file.len() && (#[trigger] file[i]).0 == id;
        assert(m.dom().contains(file[i].0));
    }
    assert(file_map(file) =~= m);
}

/// Puts a record in its place, in place of one with its identifier.
fn insert_record(file: &mut Vec<(u64, Vec<Cell>)>, id: u64, record: Vec<Cell>)
    requires
        ids_ascend(old(file)@),
    ensures
        ids_ascend(final(file)@),
        file_map(final(file)@) == file_map(old(file)@).insert(id, cell_models(record@)),
{
    let ghost before = file@;
    let ghost target = file_map(before).insert(id, cell_models(record@));
    proof {
        lemma_file_map(before);
    }
    let mut i: usize = 0;
    while i < file.len() && file[i].0 < id
        invariant
            i <= file@.len(),
            file@ == before,
            forall|k: int| 0 <= k < i ==> (#[trigger] before[k]).0 < id,
        decreases file.len() - i,
    {
        i = i + 1;
    }
    if i < file.len() && file[i].0 == id {
        file[i].1 = record;
        proof {
            let after = file@;
            assert(after =~= before.update(i as int, (id, record)));
            assert(ids_ascend(after)) by {
                assert forall|j: int, k: int| 0 <= j < k < after.len() implies (
                #[trigger] after[j]).0 < (#[trigger] after[k]).0 by {
                    assert(before[j].0 < before[k].0);
                }
            }
            assert forall|k: int| 0 <= k < after.len() implies target.dom().contains(
                (#[trigger] after[k]).0,
            ) && target[after[k].0] == cell_models(after[k].1@) by {
                if k < i {
                    assert(before[k].0 < before[i as int].0);
                    assert(file_map(before).dom().contains(before[k].0));
                } else if k > i {
                    assert(before[i as int].0 < before[k].0);
                    assert(file_map(before).dom().contains(before[k].0));
                }
            }
            assert forall|x: u64| #[trigger] target.dom().contains(x) implies exists|k: int|
                0 <= k < after.len() && (#[trigger] after[k]).0 == x by {
                if x == id {
                    assert(after[i as int].0 == x);
                } else {
                    let k = choose|k: int| 0 <= k < before.len() && (#[trigger] before[k]).0 == x;
                    assert(after[k].0 == x);
                }
            }
            lemma_is_file_map(after, target);
        }
    } else {
        file.insert(i, (id, record));
        proof {
            let after = file@;
            assert(after =~= before.insert(i as int, (id, record)));
            assert forall|k: int| 0 <= k < after.len() implies #[trigger] after[k] == (if k < i {
                before[k]
            } else if k == i {
                (id, record)
            } else {
                before[k - 1]
            }) by {}
            assert forall|k: int| i <= k < before.len() implies (#[trigger] before[k]).0 > id by {
                if k > i {
                    assert(before[i as int].0 < before[k].0);
                }
            }
            assert(ids_ascend(after)) by {
                assert forall|j: int, k: int| 0 <= j < k < after.len() implies (
                #[trigger] after[j]).0 < (#[trigger] after[k]).0 by {
                    let oj = if j < i {
                        j
                    } else {
                        j - 1
                    };
                    let ok = if k < i {
                        k
                    } else {
                        k - 1
                    };
                    if j != i && k != i {
                        assert(before[oj].0 < before[ok].0);
                    }
                }
            }
            assert forall|k: int| 0 <= k < after.len() implies target.dom().contains(
                (#[trigger] after[k]).0,
            ) && target[after[k].0] == cell_models(after[k].1@) by {
                if k < i {
                    assert(file_map(before).dom().contains(before[k].0));
                } else if k > i {
                    assert(file_map(before).dom().contains(before[k - 1].0));
                }
            }
            assert forall|x: u64| #[trigger] target.dom().contains(x) implies exists|k: int|
                0 <= k < after.len() && (#[trigger] after[k]).0 == x by {
                if x == id {
                    assert(after[i as int].0 == x);
                } else {
                    let k = choose|k: int| 0 <= k < before.len() && (#[trigger] before[k]).0 == x;
                    if k < i {
                        assert(after[k].0 == x);
                    } else {
                        assert(after[k + 1].0 == x);
                    }
                }
            }
            lemma_is_file_map(after, target);
        }
    }
}

/// The position of the file of a label, from `from` on.
pub open spec fn file_index(
    files: Seq<(LabelId, Vec<(u64, Vec<Cell>)>)>,
    label_id: LabelId,
    from: int,
) -> Option<int>
    decreases files.len() - from,
{
    if from >= files.len() {
        None
    } else if files[from].0 == label_id {
        Some(from)
    } else {
        file_index(files, label_id, from + 1)
    }
}

proof fn lemma_file_index(
    a: Seq<(LabelId, Vec<(u64, Vec<Cell>)>)>,
    b: Seq<(LabelId, Vec<(u64, Vec<Cell>)>)>,
    label_id: LabelId,
    from: int,
)
    requires
        0 <= from <= a.len() <= b.len(),
        forall|i: int| 0 <= i < a.len() ==> (#[trigger] a[i]).0 == b[i].0,
    ensures
        file_index(a, label_id, from) matches Some(i) ==> from <= i < a.len() && a[i].0 == label_id
            && file_index(b, label_id, from) == Some(i),
        file_index(a, label_id, from) is None ==> file_index(b, label_id, from) == file_index(
            b,
            label_id,
            a.len() as int,
        ),
    decreases a.len() - from,
{
    if from < a.len() && a[from].0 != label_id {
        lemma_file_index(a, b, label_id, from + 1);
    }
}

impl RecordFiles {
    pub open spec fn wf(&self) -> bool {
        forall|i: int| 0 <= i < self.files@.len() ==> ids_ascend((#[trigger] self.files@[i]).1@)
    }

    /// The records of a label.
    pub open spec fn records_of(&self, label_id: LabelId) -> Map<u64, Seq<CellModel>> {
        match file_index(self.files@, label_id, 0) {
            Some(i) => file_map(self.files@[i].1@),
            None => Map::empty(),
        }
    }

    pub fn new() -> (r: Self)
        ensures
            r.wf(),
            forall|label_id: LabelId| #[trigger]
                r.records_of(label_id) == Map::<u64, Seq<CellModel>>::empty(),
    {
        RecordFiles { files: Vec::new() }
    }

    fn position(&self, label_id: LabelId) -> (r: Option<usize>)
        ensures
            file_index(self.files@, label_id, 0) == (match r {
                Some(i) => Some(i as int),
                None => None,
            }),
            r matches Some(i) ==> i < self.files@.len(),
    {
        let mut i: usize = 0;
        while i < self.files.len()
            invariant
                i <= self.files@.len(),
                file_index(self.files@, label_id, 0) == file_index(
                    self.files@,
                    label_id,
                    i as int,
                ),
            decreases self.files.len() - i,
        {
            if self.files[i].0 == label_id {
                return Some(i);
            }
            i = i + 1;
        }
        None
    }

    /// Adds a record to those of a label, in place of one with its identifier.
    pub fn insert(&mut self, label_id: LabelId, id: u64, record: Vec<Cell>)
        requires
            old(self).wf(),
        ensures
            final(self).wf(),
            final(self).records_of(label_id) == old(self).records_of(label_id).insert(
                id,
                cell_models(record@),
            ),
            forall|other: LabelId|
                other != label_id ==> #[trigger] final(self).records_of(other) == old(
                    self,
                ).records_of(other),
    {
        let ghost before = self.files@;
        match self.position(label_id) {
            Some(i) => {
                insert_record(&mut self.files[i].1, id, record);
                let ghost after = self.files@;
                proof {
                    assert forall|k: int| 0 <= k < after.len() implies ids_ascend(
                        (#[trigger] after[k]).1@,
                    ) by {
                        if k != i {
                            assert(after[k] == before[k]);
                        }
                    }
                    lemma_file_index(before, after, label_id, 0);
                    assert forall|other: LabelId| other != label_id implies
                        #[trigger] self.records_of(other) == old(self).records_of(other) by {
                        lemma_file_index(before, after, other, 0);
                        if let Some(j) = file_index(before, other, 0) {
                            assert(after[j] == before[j]);
                        }
                    }
                }
            },
            None => {
                let mut file: Vec<(u64, Vec<Cell>)> = Vec::new();
                assert(file_map(file@) == Map::<u64, Seq<CellModel>>::empty());
                insert_record(&mut file, id, record);
                self.files.push((label_id, file));
                let ghost after = self.files@;
                proof {
                    lemma_file_index(before, after, label_id, 0);
                    assert forall|other: LabelId| other != label_id implies
                        #[trigger] self.records_of(other) == old(self).records_of(other) by {
                        lemma_file_index(before, after, other, 0);
                        match file_index(before, other, 0) {
                            Some(j) => {
                                assert(after[j] == before[j]);
                            },
                            None => {
                                assert(file_index(after, other, before.len() as int + 1) is None);
                            },
                        }
                    }
                }
            },
        }
    }

    /// Adds the record of a vertex.
    pub fn add_vertex(&mut self, v: &Vertex)
        requires
            old(self).wf(),
        ensures
            final(self).wf(),
            final(self).records_of(v.label_id) == old(self).records_of(v.label_id).insert(
                v.vid,
                vertex_record(v@),
            ),
            forall|other: LabelId|
                other != v.label_id ==> #[trigger] final(self).records_of(other) == old(
                    self,
                ).records_of(other),
    {
        let mut record: Vec<Cell> = Vec::new();
        record.push(Cell::Text(decimal_text(v.vid)));
        assert(cell_models(record@) =~= seq![id_cell(v.vid)]);
        push_values(&mut record, &v.properties.properties);
        self.insert(v.label_id, v.vid, record);
    }

    /// Adds the record of an edge.
    pub fn add_edge(&mut self, e: &Edge)
        requires
            old(self).wf(),
        ensures
            final(self).wf(),
            final(self).records_of(e.label_id) == old(self).records_of(e.label_id).insert(
                e.eid,
                edge_record(e@),
            ),
            forall|other: LabelId|
                other != e.label_id ==> #[trigger] final(self).records_of(other) == old(
                    self,
                ).records_of(other),
    {
        let mut record: Vec<Cell> = Vec::new();
        record.push(Cell::Text(decimal_text(e.eid)));
        record.push(Cell::Text(decimal_text(e.src_id)));
        record.push(Cell::Text(decimal_text(e.dst_id)));
        assert(cell_models(record@) =~= seq![id_cell(e.eid), id_cell(e.src_id), id_cell(e.dst_id)]);
        push_values(&mut record, &e.properties.properties);
        self.insert(e.label_id, e.eid, record);
    }

    /// The records of vertices.
    pub fn of_vertices(vertices: &Vec<Vertex>) -> (r: Self)
        ensures
            r.wf(),
            forall|label_id: LabelId| #[trigger]
                r.records_of(label_id) == vertex_records(
                    vertex_data(vertices@),
                    label_id,
                    vertices@.len() as int,
                ),
    {
        let mut r = RecordFiles::new();
        let ghost data = vertex_data(vertices@);
        let mut i: usize = 0;
        while i < vertices.len()
            invariant
                i <= vertices@.len(),
                data == vertex_data(vertices@),
                r.wf(),
                forall|label_id: LabelId| #[trigger]
                    r.records_of(label_id) == vertex_records(data, label_id, i as int),
            decreases vertices.len() - i,
        {
            assert(data[i as int] == vertices@[i as int]@);
            r.add_vertex(&vertices[i]);
            i = i + 1;
        }
        r
    }

    /// The records of edges.
    pub fn of_edges(edges: &Vec<Edge>) -> (r: Self)
        ensures
            r.wf(),
            forall|label_id: LabelId| #[trigger]
                r.records_of(label_id) == edge_records(
                    edge_data(edges@),
                    label_id,
                    edges@.len() as int,
                ),
    {
        let mut r = RecordFiles::new();
        let ghost data = edge_data(edges@);
        let mut i: usize = 0;
        while i < edges.len()
            invariant
                i <= edges@.len(),
                data == edge_data(edges@),
                r.wf(),
                forall|label_id: LabelId| #[trigger]
                    r.records_of(label_id) == edge_records(data, label_id, i as int),
            decreases edges.len() - i,
        {
            assert(data[i as int] == edges@[i as int]@);
            r.add_edge(&edges[i]);
            i = i + 1;
        }
        r
    }

    /// The records of a label, in the order of their identifiers.
    pub fn file(&self, label_id: LabelId) -> (r: Option<&Vec<(u64, Vec<Cell>)>>)
        requires
            self.wf(),
        ensures
            match r {
                Some(file) => ids_ascend(file@) && file_map(file@) == self.records_of(label_id),
                None => self.records_of(label_id) == Map::<u64, Seq<CellModel>>::empty(),
            },
    {
        match self.position(label_id) {
            Some(i) => Some(&self.files[i].1),
            None => None,
        }
    }
}

// ---------------------------------------------------------------------------------------------
// The procedure
// ---------------------------------------------------------------------------------------------

/// The procedure as the catalog knows it: it takes three texts.
pub fn build_procedure() -> (r: Procedure)
    ensures
        r.parameters@ == seq![LogicalType::String, LogicalType::String, LogicalType::String],
        r.schema is None,
{
    let mut parameters: Vec<LogicalType> = Vec::new();
    parameters.push(LogicalType::String);
    parameters.push(LogicalType::String);
    parameters.push(LogicalType::String);
    assert(parameters@ =~= seq![LogicalType::String, LogicalType::String, LogicalType::String]);
    Procedure { parameters, schema: None }
}

/// The graph of the current schema that is to be exported.
pub fn find_exported(current_schema: &Option<MemorySchemaCatalog>, graph_name: &str) -> (r:
    ExecutionResult<GraphRef>)
    requires
        *current_schema matches Some(schema) ==> schema.wf(),
    ensures
        match *current_schema {
            None => r matches Err(e) && error_text(e) == "current schema not set"@,
            Some(schema) => if schema.graph_map@.dom().contains(graph_name@) {
                r matches Ok(graph) && graph == schema.graph_map@[graph_name@]
            } else {
                r matches Err(e) && error_text(e) == "graph type named with "@ + graph_name@
                    + " not found"@
            },
        },
{
    match current_schema {
        None => Err(execution_error("current schema not set")),
        Some(schema) => match schema.get_graph(graph_name) {
            Some(graph) => Ok(graph),
            None => Err(named_error("graph type named with ", graph_name, " not found")),
        },
    }
}

// ---------------------------------------------------------------------------------------------
// Laws
// ---------------------------------------------------------------------------------------------

/// The file of a label has the record of every vertex with that label and nothing else, where no
/// two vertices have the same identifier.
pub proof fn files_hold_every_vertex(vertices: Seq<VertexData>, label_id: LabelId, n: int)
    requires
        0 <= n <= vertices.len(),
        distinct_vids(vertices),
    ensures
        forall|i: int|
            0 <= i < n && (#[trigger] vertices[i]).label_id == label_id ==> vertex_records(
                vertices,
                label_id,
                n,
            ).dom().contains(vertices[i].vid) && vertex_records(vertices, label_id, n)[vertices[i].vid]
                == vertex_record(vertices[i]),
        forall|id: u64| #[trigger]
            vertex_records(vertices, label_id, n).dom().contains(id) ==> exists|i: int|
                0 <= i < n && (#[trigger] vertices[i]).vid == id && vertices[i].label_id == label_id,
    decreases n,
{
    if n > 0 {
        files_hold_every_vertex(vertices, label_id, n - 1);
        assert forall|i: int|
            0 <= i < n && (#[trigger] vertices[i]).label_id == label_id implies vertex_records(
            vertices,
            label_id,
            n,
        ).dom().contains(vertices[i].vid) && vertex_records(vertices, label_id, n)[vertices[i].vid]
            == vertex_record(vertices[i]) by {
            if i < n - 1 {
                assert(vertices[i].vid != vertices[n - 1].vid);
            }
        }
        assert forall|id: u64| #[trigger]
            vertex_records(vertices, label_id, n).dom().contains(id) implies exists|i: int|
            0 <= i < n && (#[trigger] vertices[i]).vid == id && vertices[i].label_id == label_id by {
            if vertices[n - 1].label_id == label_id && vertices[n - 1].vid == id {
                assert(vertices[n - 1].vid == id);
            } else {
                assert(vertex_records(vertices, label_id, n - 1).dom().contains(id));
            }
        }
    }
}

/// The file of a label has the record of every edge with that label and nothing else, where no
/// two edges have the same identifier.
pub proof fn files_hold_every_edge(edges: Seq<EdgeData>, label_id: LabelId, n: int)
    requires
        0 <= n <= edges.len(),
        forall|i: int, j: int|
            0 <= i < j < edges.len() ==> (#[trigger] edges[i]).eid != (#[trigger] edges[j]).eid,
    ensures
        forall|i: int|
            0 <= i < n && (#[trigger] edges[i]).label_id == label_id ==> edge_records(
                edges,
                label_id,
                n,
            ).dom().contains(edges[i].eid) && edge_records(edges, label_id, n)[edges[i].eid]
                == edge_record(edges[i]),
        forall|id: u64| #[trigger]
            edge_records(edges, label_id, n).dom().contains(id) ==> exists|i: int|
                0 <= i < n && (#[trigger] edges[i]).eid == id && edges[i].label_id == label_id,
    decreases n,
{
    if n > 0 {
        files_hold_every_edge(edges, label_id, n - 1);
        assert forall|i: int|
            0 <= i < n && (#[trigger] edges[i]).label_id == label_id implies edge_records(
            edges,
            label_id,
            n,
        ).dom().contains(edges[i].eid) && edge_records(edges, label_id, n)[edges[i].eid]
            == edge_record(edges[i]) by {
            if i < n - 1 {
                assert(edges[i].eid != edges[n - 1].eid);
            }
        }
        assert forall|id: u64| #[trigger]
            edge_records(edges, label_id, n).dom().contains(id) implies exists|i: int|
            0 <= i < n && (#[trigger] edges[i]).eid == id && edges[i].label_id == label_id by {
            if edges[n - 1].label_id == label_id && edges[n - 1].eid == id {
                assert(edges[n - 1].eid == id);
            } else {
                assert(edge_records(edges, label_id, n - 1).dom().contains(id));
            }
        }
    }
}

/// A record that was read back from one that was written.
pub open spec fn is_record_of(record: Seq<FieldModel>, cells: Seq<CellModel>) -> bool {
    record.len() == cells.len() && forall|i: int|
        0 <= i < cells.len() ==> is_read_of(#[trigger] record[i], cells[i])
}

/// A value can be read back: it has the type of its property, is absent only where the property
/// may be, and is no empty text of a property that may be absent.
pub open spec fn can_be_read_back(value: ValueModel, property: PropertyModel) -> bool {
    &&& has_type(value, property.ty)
    &&& is_absent(value) ==> property.nullable
    &&& property.nullable ==> (value matches ValueModel::String(Some(text)) ==> text.len() > 0)
}

/// All values can be read back.
pub open spec fn can_all_be_read_back(
    values: Seq<ValueModel>,
    properties: Seq<PropertyModel>,
) -> bool {
    values.len() == properties.len() && forall|i: int|
        0 <= i < values.len() ==> can_be_read_back(#[trigger] values[i], properties[i])
}

proof fn lemma_properties_read_back(
    values: Seq<ValueModel>,
    properties: Seq<PropertyModel>,
    record: Seq<FieldModel>,
    skip: int,
    n: int,
)
    requires
        can_all_be_read_back(values, properties),
        0 <= n <= values.len(),
        0 <= skip,
        forall|i: int|
            0 <= i < values.len() ==> is_read_of(record[skip + i], value_cell(#[trigger] values[i])),
    ensures
        properties_read(properties, record, skip, n) == Ok::<Seq<ValueModel>, ImportFailure>(
            values.take(n),
        ),
    decreases n,
{
    if n > 0 {
        lemma_properties_read_back(values, properties, record, skip, n - 1);
        let i = n - 1;
        assert(can_be_read_back(values[i], properties[i]));
        assert(is_read_of(record[skip + i], value_cell(values[i])));
        written_values_are_read_back(values[i], properties[i], record[skip + i]);
        assert(values.take(n - 1).push(values[i]) =~= values.take(n));
    } else {
        assert(values.take(0) =~= Seq::<ValueModel>::empty());
    }
}

/// The record of a vertex, read back: it has a label and the properties that the values of the
/// vertex belong to.
pub open spec fn is_vertex_item(item: Item, v: VertexData) -> bool {
    can_all_be_read_back(v.properties, item.properties) && is_record_of(
        item.record,
        vertex_record(v),
    )
}

/// The record of an edge, read back: it has a label and the properties that the values of the
/// edge belong to.
pub open spec fn is_edge_item(item: Item, e: EdgeData) -> bool {
    can_all_be_read_back(e.properties, item.properties) && is_record_of(item.record, edge_record(e))
}

pub open spec fn are_vertex_items(items: Seq<Item>, vertices: Seq<VertexData>) -> bool {
    items.len() == vertices.len() && forall|i: int|
        0 <= i < items.len() ==> is_vertex_item(#[trigger] items[i], vertices[i])
}

pub open spec fn are_edge_items(items: Seq<Item>, edges: Seq<EdgeData>) -> bool {
    items.len() == edges.len() && forall|i: int|
        0 <= i < items.len() ==> is_edge_item(#[trigger] items[i], edges[i])
}

/// No two vertices have the same identifier.
pub open spec fn distinct_vids(vertices: Seq<VertexData>) -> bool {
    forall|i: int, j: int|
        0 <= i < j < vertices.len() ==> (#[trigger] vertices[i]).vid != (#[trigger] vertices[j]).vid
}

/// A vertex with an identifier is there.
pub open spec fn has_vertex(vertices: Seq<VertexData>, vid: u64) -> bool {
    exists|i: int| 0 <= i < vertices.len() && (#[trigger] vertices[i]).vid == vid
}

/// A vertex that is exported is imported with its properties, under the next identifier, which its
/// old one stands for from then on.
pub proof fn exported_vertices_are_imported(m: ImportModel, v: VertexData, item: Item)
    requires
        is_vertex_item(item, v),
    ensures
        m.vertex_imported(item.label_id, item.properties, item.record) == Ok::<
            ImportModel,
            ImportFailure,
        >(m.vertex_added(v.vid, item.label_id, v.properties)),
{
    let cells = vertex_record(v);
    let record = item.record;
    assert(is_read_of(record[0], cells[0]));
    unsigned_text_is_read_back(v.vid as nat, u64::MAX as nat);
    assert forall|i: int| 0 <= i < v.properties.len() implies is_read_of(
        record[1 + i],
        value_cell(#[trigger] v.properties[i]),
    ) by {
        assert(cells[1 + i] == value_cell(v.properties[i]));
        assert(is_read_of(record[1 + i], cells[1 + i]));
    }
    lemma_properties_read_back(
        v.properties,
        item.properties,
        record,
        1,
        v.properties.len() as int,
    );
    assert(v.properties.take(v.properties.len() as int) =~= v.properties);
}

/// An edge that is exported is imported with its properties, between the vertices that its old
/// ends stand for.
pub proof fn exported_edges_are_imported(m: ImportModel, e: EdgeData, item: Item)
    requires
        is_edge_item(item, e),
        m.vid_mapping.dom().contains(e.src_id),
        m.vid_mapping.dom().contains(e.dst_id),
    ensures
        m.ends_read(item.record) == Ok::<(u64, u64), ImportFailure>((e.src_id, e.dst_id)),
        m.edge_imported(item.label_id, item.properties, item.record) == Ok::<
            ImportModel,
            ImportFailure,
        >(m.edge_added(e.src_id, e.dst_id, item.label_id, e.properties)),
{
    let cells = edge_record(e);
    let record = item.record;
    assert(is_read_of(record[1], cells[1]));
    assert(is_read_of(record[2], cells[2]));
    unsigned_text_is_read_back(e.src_id as nat, u64::MAX as nat);
    unsigned_text_is_read_back(e.dst_id as nat, u64::MAX as nat);
    assert forall|i: int| 0 <= i < e.properties.len() implies is_read_of(
        record[3 + i],
        value_cell(#[trigger] e.properties[i]),
    ) by {
        assert(cells[3 + i] == value_cell(e.properties[i]));
        assert(is_read_of(record[3 + i], cells[3 + i]));
    }
    lemma_properties_read_back(
        e.properties,
        item.properties,
        record,
        3,
        e.properties.len() as int,
    );
    assert(e.properties.take(e.properties.len() as int) =~= e.properties);
}

/// Importing one file after another is importing all their records.
pub proof fn files_are_imported_in_turn(
    m: ImportModel,
    first: Seq<Item>,
    second: Seq<Item>,
    n: int,
)
    requires
        0 <= n <= second.len(),
    ensures
        m.vertices_imported(first + second, first.len() + n) == (match m.vertices_imported(
            first,
            first.len() as int,
        ) {
            Err(e) => Err(e),
            Ok(middle) => middle.vertices_imported(second, n),
        }),
        m.edges_imported(first + second, first.len() + n) == (match m.edges_imported(
            first,
            first.len() as int,
        ) {
            Err(e) => Err(e),
            Ok(middle) => middle.edges_imported(second, n),
        }),
    decreases n,
{
    if n > 0 {
        files_are_imported_in_turn(m, first, second, n - 1);
        assert((first + second)[first.len() + n - 1] == second[n - 1]);
    } else {
        lemma_first_files(m, first, second, first.len() as int);
    }
}

proof fn lemma_first_files(m: ImportModel, first: Seq<Item>, second: Seq<Item>, n: int)
    requires
        0 <= n <= first.len(),
    ensures
        m.vertices_imported(first + second, n) == m.vertices_imported(first, n),
        m.edges_imported(first + second, n) == m.edges_imported(first, n),
    decreases n,
{
    if n > 0 {
        lemma_first_files(m, first, second, n - 1);
        assert((first + second)[n - 1] == first[n - 1]);
    }
}

proof fn lemma_vertices_imported(
    graph_type: GraphTypeModel,
    vertices: Seq<VertexData>,
    items: Seq<Item>,
    n: int,
)
    requires
        0 <= n <= vertices.len() < u64::MAX,
        are_vertex_items(items, vertices),
        distinct_vids(vertices),
    ensures
        ImportModel::empty(graph_type).vertices_imported(items, n) matches Ok(after) && {
            &&& after.graph_type == graph_type
            &&& after.next_vid == 1 + n
            &&& after.next_eid == 1
            &&& after.edges == Seq::<EdgeData>::empty()
            &&& after.vertices.len() == n
            &&& forall|i: int|
                0 <= i < n ==> #[trigger] after.vertices[i] == (VertexData {
                    vid: (1 + i) as u64,
                    label_id: items[i].label_id,
                    properties: vertices[i].properties,
                })
            &&& forall|i: int|
                0 <= i < n ==> after.vid_mapping.dom().contains((#[trigger] vertices[i]).vid)
                    && after.vid_mapping[vertices[i].vid] == 1 + i
        },
    decreases n,
{
    if n > 0 {
        lemma_vertices_imported(graph_type, vertices, items, n - 1);
        let before = ImportModel::empty(graph_type).vertices_imported(items, n - 1)->Ok_0;
        let v = vertices[n - 1];
        assert(is_vertex_item(items[n - 1], v));
        exported_vertices_are_imported(before, v, items[n - 1]);
        let after = before.vertex_added(v.vid, items[n - 1].label_id, v.properties);
        assert forall|i: int| 0 <= i < n implies after.vid_mapping.dom().contains(
            (#[trigger] vertices[i]).vid,
        ) && after.vid_mapping[vertices[i].vid] == 1 + i by {
            if i < n - 1 {
                assert(vertices[i].vid != vertices[n - 1].vid);
            }
        }
    }
}

proof fn lemma_edges_imported(
    m: ImportModel,
    edges: Seq<EdgeData>,
    items: Seq<Item>,
    n: int,
)
    requires
        0 <= n <= edges.len() < u64::MAX,
        are_edge_items(items, edges),
        m.next_eid == 1,
        m.edges == Seq::<EdgeData>::empty(),
        forall|j: int|
            0 <= j < edges.len() ==> m.vid_mapping.dom().contains((#[trigger] edges[j]).src_id)
                && m.vid_mapping.dom().contains(edges[j].dst_id),
    ensures
        m.edges_imported(items, n) matches Ok(after) && {
            &&& after.graph_type == m.graph_type
            &&& after.next_eid == 1 + n
            &&& after.vertices == m.vertices
            &&& after.vid_mapping == m.vid_mapping
            &&& after.edges.len() == n
            &&& forall|j: int|
                0 <= j < n ==> #[trigger] after.edges[j] == (EdgeData {
                    eid: (1 + j) as u64,
                    src_id: m.vid_mapping[edges[j].src_id],
                    dst_id: m.vid_mapping[edges[j].dst_id],
                    label_id: items[j].label_id,
                    properties: edges[j].properties,
                })
        },
    decreases n,
{
    if n > 0 {
        lemma_edges_imported(m, edges, items, n - 1);
        let before = m.edges_imported(items, n - 1)->Ok_0;
        assert(is_edge_item(items[n - 1], edges[n - 1]));
        exported_edges_are_imported(before, edges[n - 1], items[n - 1]);
    }
}

/// A graph that is exported is imported whole. Vertices and edges come in the order of the
/// records, numbered from one on, with their properties and the labels of their files, and every
/// edge joins the vertices that it joined.
pub proof fn exported_graphs_are_imported(
    graph_type: GraphTypeModel,
    vertices: Seq<VertexData>,
    vertex_items: Seq<Item>,
    edges: Seq<EdgeData>,
    edge_items: Seq<Item>,
)
    requires
        vertices.len() < u64::MAX,
        edges.len() < u64::MAX,
        are_vertex_items(vertex_items, vertices),
        are_edge_items(edge_items, edges),
        distinct_vids(vertices),
        forall|j: int|
            0 <= j < edges.len() ==> has_vertex(vertices, (#[trigger] edges[j]).src_id)
                && has_vertex(vertices, edges[j].dst_id),
    ensures
        ImportModel::empty(graph_type).vertices_imported(
            vertex_items,
            vertex_items.len() as int,
        ) matches Ok(middle) && (middle.edges_imported(
            edge_items,
            edge_items.len() as int,
        ) matches Ok(after) && {
            &&& after.graph_type == graph_type
            &&& after.vertices.len() == vertices.len()
            &&& forall|i: int|
                0 <= i < vertices.len() ==> #[trigger] after.vertices[i] == (VertexData {
                    vid: (1 + i) as u64,
                    label_id: vertex_items[i].label_id,
                    properties: vertices[i].properties,
                })
            &&& after.edges.len() == edges.len()
            &&& forall|j: int|
                0 <= j < edges.len() ==> {
                    &&& (#[trigger] after.edges[j]).eid == 1 + j
                    &&& after.edges[j].label_id == edge_items[j].label_id
                    &&& after.edges[j].properties == edges[j].properties
                }
            &&& forall|i: int, j: int|
                #![trigger after.edges[j], vertices[i]]
                0 <= j < edges.len() && 0 <= i < vertices.len() ==> {
                    &&& vertices[i].vid == edges[j].src_id ==> after.edges[j].src_id == 1 + i
                    &&& vertices[i].vid == edges[j].dst_id ==> after.edges[j].dst_id == 1 + i
                }
        }),
{
    lemma_vertices_imported(graph_type, vertices, vertex_items, vertices.len() as int);
    let middle = ImportModel::empty(graph_type).vertices_imported(
        vertex_items,
        vertex_items.len() as int,
    )->Ok_0;
    assert forall|j: int| 0 <= j < edges.len() implies middle.vid_mapping.dom().contains(
        (#[trigger] edges[j]).src_id,
    ) && middle.vid_mapping.dom().contains(edges[j].dst_id) by {
        assert(has_vertex(vertices, edges[j].src_id));
        assert(has_vertex(vertices, edges[j].dst_id));
    }
    lemma_edges_imported(middle, edges, edge_items, edges.len() as int);
}

/// A graph whose vertices and edges are numbered from one on, in the order of the records, comes
/// back as it was, where its labels keep their numbers. So what is exported then is what was
/// imported.
pub proof fn numbered_graphs_come_back(
    graph_type: GraphTypeModel,
    vertices: Seq<VertexData>,
    vertex_items: Seq<Item>,
    edges: Seq<EdgeData>,
    edge_items: Seq<Item>,
)
    requires
        vertices.len() < u64::MAX,
        edges.len() < u64::MAX,
        are_vertex_items(vertex_items, vertices),
        are_edge_items(edge_items, edges),
        forall|i: int|
            0 <= i < vertices.len() ==> (#[trigger] vertices[i]).vid == 1 + i
                && vertex_items[i].label_id == vertices[i].label_id,
        forall|j: int|
            0 <= j < edges.len() ==> {
                &&& (#[trigger] edges[j]).eid == 1 + j
                &&& edge_items[j].label_id == edges[j].label_id
                &&& 1 <= edges[j].src_id <= vertices.len()
                &&& 1 <= edges[j].dst_id <= vertices.len()
            },
    ensures
        ImportModel::empty(graph_type).vertices_imported(
            vertex_items,
            vertex_items.len() as int,
        ) matches Ok(middle) && (middle.edges_imported(
            edge_items,
            edge_items.len() as int,
        ) matches Ok(after) && after.graph_type == graph_type && after.vertices == vertices
            && after.edges == edges),
{
    assert forall|j: int| 0 <= j < edges.len() implies has_vertex(
        vertices,
        (#[trigger] edges[j]).src_id,
    ) && has_vertex(vertices, edges[j].dst_id) by {
        assert(vertices[edges[j].src_id - 1].vid == edges[j].src_id);
        assert(vertices[edges[j].dst_id - 1].vid == edges[j].dst_id);
    }
    exported_graphs_are_imported(graph_type, vertices, vertex_items, edges, edge_items);
    let middle = ImportModel::empty(graph_type).vertices_imported(
        vertex_items,
        vertex_items.len() as int,
    )->Ok_0;
    let after = middle.edges_imported(edge_items, edge_items.len() as int)->Ok_0;
    assert(after.vertices =~= vertices);
    assert forall|j: int| 0 <= j < edges.len() implies after.edges[j] == #[trigger] edges[j] by {
        assert(vertices[edges[j].src_id - 1].vid == edges[j].src_id);
        assert(vertices[edges[j].dst_id - 1].vid == edges[j].dst_id);
        assert(after.edges[j].eid == 1 + j);
    }
    assert(after.edges =~= edges);
}

} // verus!
