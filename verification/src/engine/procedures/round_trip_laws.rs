//! A graph that is exported and imported again comes back whole.

use vstd::prelude::*;
use crate::catalog::graph_type::{model_of, GraphTypeModel, PropertyModel};
use crate::common::types::LabelId;
use crate::engine::procedures::export_graph::{
    can_all_be_read_back, distinct_vids, edge_record, edge_records, exported_graphs_are_imported,
    file_map, files_are_imported_in_turn, files_hold_every_edge, files_hold_every_vertex,
    has_vertex, ids_ascend, is_edge_item, is_record_of, is_vertex_item, lemma_file_map,
    vertex_record, vertex_records,
};
use crate::engine::procedures::field::{
    cell_models, field_models, Cell, Field, FieldModel, ImportFailure,
};
use crate::engine::procedures::import_graph::{
    edge_source, file_items, vertex_source, ImportModel, Item,
};
use crate::engine::procedures::manifest::{
    can_export, exported_types_import_again, is_edge_id, is_vertex_id, lemma_imported_label,
    lemma_label_in_manifest, lemma_manifest_label, manifest_of, name_for,
    valid_manifests_do_not_fail, EdgeSpecModel, VertexSpecModel,
};
use crate::storage::model::{EdgeData, VertexData};

verus! {

// ---------------------------------------------------------------------------------------------
// Files in turn
// ---------------------------------------------------------------------------------------------

/// The first `n` lists, one behind the other.
pub open spec fn joined<A>(parts: Seq<Seq<A>>, n: int) -> Seq<A>
    decreases n,
{
    if n <= 0 {
        Seq::empty()
    } else {
        joined(parts, n - 1) + parts[n - 1]
    }
}

/// A list has the same members as another one, each of them once.
pub open spec fn is_listing<A>(list: Seq<A>, all: Seq<A>) -> bool {
    &&& list.len() == all.len()
    &&& list.no_duplicates()
    &&& forall|x: A| #[trigger] list.contains(x) <==> all.contains(x)
}

/// Every member of a list stands in the part that its place says, and nothing else does.
pub open spec fn is_parted<A>(parts: Seq<Seq<A>>, all: Seq<A>, place: spec_fn(A) -> int) -> bool {
    &&& forall|i: int, k: int|
        #![trigger parts[i][k]]
        0 <= i < parts.len() && 0 <= k < parts[i].len() ==> all.contains(parts[i][k]) && place(
            parts[i][k],
        ) == i
    &&& forall|i: int| 0 <= i < parts.len() ==> (#[trigger] parts[i]).no_duplicates()
    &&& forall|x: A| #[trigger]
        all.contains(x) ==> 0 <= place(x) < parts.len() && parts[place(x)].contains(x)
}

proof fn lemma_joined<A>(parts: Seq<Seq<A>>, all: Seq<A>, place: spec_fn(A) -> int, n: int)
    requires
        is_parted(parts, all, place),
        0 <= n <= parts.len(),
    ensures
        joined(parts, n).no_duplicates(),
        forall|x: A| #[trigger]
            joined(parts, n).contains(x) <==> all.contains(x) && place(x) < n,
    decreases n,
{
    if n > 0 {
        lemma_joined(parts, all, place, n - 1);
        let before = joined(parts, n - 1);
        let part = parts[n - 1];
        let list = joined(parts, n);
        assert(list == before + part);
        assert forall|x: A| #[trigger] list.contains(x) <==> all.contains(x) && place(x) < n by {
            if list.contains(x) {
                let k = choose|k: int| 0 <= k < list.len() && list[k] == x;
                if k < before.len() {
                    assert(before[k] == x);
                    assert(before.contains(x));
                } else {
                    assert(parts[n - 1][k - before.len()] == x);
                }
            }
            if all.contains(x) && place(x) < n {
                if place(x) < n - 1 {
                    assert(before.contains(x));
                    let k = choose|k: int| 0 <= k < before.len() && before[k] == x;
                    assert(list[k] == x);
                } else {
                    assert(part.contains(x));
                    let k = choose|k: int| 0 <= k < part.len() && part[k] == x;
                    assert(list[before.len() + k] == x);
                }
            }
        }
        assert(list.no_duplicates()) by {
            assert forall|a: int, b: int| 0 <= a < b < list.len() implies list[a] != list[b] by {
                if b < before.len() {
                    assert(before[a] != before[b]);
                } else if a >= before.len() {
                    assert(part[a - before.len()] != part[b - before.len()]);
                } else {
                    assert(before.contains(before[a]));
                    assert(place(parts[n - 1][b - before.len()]) == n - 1);
                }
            }
        }
    }
}

proof fn lemma_listing<A>(parts: Seq<Seq<A>>, all: Seq<A>, place: spec_fn(A) -> int)
    requires
        is_parted(parts, all, place),
        all.no_duplicates(),
    ensures
        is_listing(joined(parts, parts.len() as int), all),
{
    let list = joined(parts, parts.len() as int);
    lemma_joined(parts, all, place, parts.len() as int);
    assert forall|x: A| #[trigger] list.contains(x) <==> all.contains(x) by {
        if all.contains(x) {
            assert(place(x) < parts.len());
        }
    }
    assert(list.to_set() =~= all.to_set());
    list.unique_seq_to_set();
    all.unique_seq_to_set();
}

/// Records with the label and the properties that they are read by.
pub open spec fn items_of(
    source: (LabelId, Seq<PropertyModel>),
    records: Seq<Seq<FieldModel>>,
) -> Seq<Item> {
    records.map_values(
        |record: Seq<FieldModel>| Item { label_id: source.0, properties: source.1, record },
    )
}

/// The records of a file are read by its label, however they are stored.
pub proof fn items_are_file_items(
    source: (LabelId, Seq<PropertyModel>),
    records: Seq<Vec<Field>>,
)
    ensures
        file_items(source.0, source.1, records) == items_of(
            source,
            records.map_values(|record: Vec<Field>| field_models(record@)),
        ),
{
    assert(file_items(source.0, source.1, records) =~= items_of(
        source,
        records.map_values(|record: Vec<Field>| field_models(record@)),
    ));
}

impl ImportModel {
    /// After the records of the first `n` files of vertices, file by file.
    pub open spec fn vertex_files_imported(
        self,
        graph_type: GraphTypeModel,
        specs: Seq<VertexSpecModel>,
        records: Seq<Seq<Seq<FieldModel>>>,
        n: int,
    ) -> Result<ImportModel, ImportFailure>
        decreases n,
    {
        if n <= 0 {
            Ok(self)
        } else {
            match self.vertex_files_imported(graph_type, specs, records, n - 1) {
                Err(e) => Err(e),
                Ok(before) => match vertex_source(graph_type, specs[n - 1].label) {
                    None => if records[n - 1].len() == 0 {
                        Ok(before)
                    } else {
                        Err(ImportFailure::UnknownLabel(specs[n - 1].label))
                    },
                    Some(source) => before.vertices_imported(
                        items_of(source, records[n - 1]),
                        records[n - 1].len() as int,
                    ),
                },
            }
        }
    }

    /// After the records of the first `n` files of edges, file by file.
    pub open spec fn edge_files_imported(
        self,
        graph_type: GraphTypeModel,
        specs: Seq<EdgeSpecModel>,
        records: Seq<Seq<Seq<FieldModel>>>,
        n: int,
    ) -> Result<ImportModel, ImportFailure>
        decreases n,
    {
        if n <= 0 {
            Ok(self)
        } else {
            match self.edge_files_imported(graph_type, specs, records, n - 1) {
                Err(e) => Err(e),
                Ok(before) => match edge_source(graph_type, specs[n - 1].label) {
                    None => if records[n - 1].len() == 0 {
                        Ok(before)
                    } else {
                        Err(ImportFailure::UnknownLabel(specs[n - 1].label))
                    },
                    Some(source) => before.edges_imported(
                        items_of(source, records[n - 1]),
                        records[n - 1].len() as int,
                    ),
                },
            }
        }
    }
}

// ---------------------------------------------------------------------------------------------
// What the files hold
// ---------------------------------------------------------------------------------------------

/// The vertices with a label, in the order of their identifiers.
pub open spec fn is_vertex_file(
    file: Seq<VertexData>,
    vertices: Seq<VertexData>,
    id: LabelId,
) -> bool {
    &&& forall|k: int|
        0 <= k < file.len() ==> (#[trigger] file[k]).label_id == id && vertices.contains(file[k])
    &&& forall|v: VertexData| #[trigger]
        vertices.contains(v) && v.label_id == id ==> file.contains(v)
    &&& forall|a: int, b: int|
        0 <= a < b < file.len() ==> (#[trigger] file[a]).vid < (#[trigger] file[b]).vid
}

/// The edges with a label, in the order of their identifiers.
pub open spec fn is_edge_file(file: Seq<EdgeData>, edges: Seq<EdgeData>, id: LabelId) -> bool {
    &&& forall|k: int|
        0 <= k < file.len() ==> (#[trigger] file[k]).label_id == id && edges.contains(file[k])
    &&& forall|e: EdgeData| #[trigger]
        edges.contains(e) && e.label_id == id ==> file.contains(e)
    &&& forall|a: int, b: int|
        0 <= a < b < file.len() ==> (#[trigger] file[a]).eid < (#[trigger] file[b]).eid
}

/// No two edges have the same identifier.
pub open spec fn distinct_eids(edges: Seq<EdgeData>) -> bool {
    forall|i: int, j: int|
        0 <= i < j < edges.len() ==> (#[trigger] edges[i]).eid != (#[trigger] edges[j]).eid
}

/// A file that is written for a label has the records of the vertices with that label, in the order
/// of their identifiers: these are the vertices.
pub proof fn written_vertex_files(
    file: Seq<(u64, Vec<Cell>)>,
    vertices: Seq<VertexData>,
    id: LabelId,
) -> (listed: Seq<VertexData>)
    requires
        distinct_vids(vertices),
        ids_ascend(file),
        file_map(file) == vertex_records(vertices, id, vertices.len() as int),
    ensures
        is_vertex_file(listed, vertices, id),
        listed.len() == file.len(),
        forall|k: int|
            0 <= k < file.len() ==> cell_models((#[trigger] file[k]).1@) == vertex_record(
                listed[k],
            ) && file[k].0 == listed[k].vid,
{
    let n = vertices.len() as int;
    files_hold_every_vertex(vertices, id, n);
    lemma_file_map(file);
    let at = |k: int|
        choose|i: int|
            0 <= i < n && (#[trigger] vertices[i]).vid == file[k].0 && vertices[i].label_id == id;
    let listed = Seq::new(file.len(), |k: int| vertices[at(k)]);
    assert forall|k: int| 0 <= k < file.len() implies 0 <= #[trigger] at(k) < n
        && vertices[at(k)].vid == file[k].0 && vertices[at(k)].label_id == id && cell_models(
        file[k].1@,
    ) == vertex_record(vertices[at(k)]) by {
        assert(file_map(file).dom().contains(file[k].0));
        assert(vertex_records(vertices, id, n).dom().contains(file[k].0));
        let i = choose|i: int|
            0 <= i < n && (#[trigger] vertices[i]).vid == file[k].0 && vertices[i].label_id == id;
        assert(at(k) == i);
    }
    assert forall|k: int| 0 <= k < file.len() implies cell_models((#[trigger] file[k]).1@)
        == vertex_record(listed[k]) && file[k].0 == listed[k].vid by {
        assert(0 <= at(k) < n);
    }
    assert forall|k: int| 0 <= k < listed.len() implies (#[trigger] listed[k]).label_id == id
        && vertices.contains(listed[k]) by {
        assert(0 <= at(k) < n);
    }
    assert forall|v: VertexData| #[trigger] vertices.contains(v) && v.label_id == id implies
        listed.contains(v) by {
        let i = choose|i: int| 0 <= i < n && vertices[i] == v;
        assert(vertices[i].label_id == id);
        assert(vertex_records(vertices, id, n).dom().contains(v.vid));
        assert(file_map(file).dom().contains(v.vid));
        let k = choose|k: int| 0 <= k < file.len() && (#[trigger] file[k]).0 == v.vid;
        assert(0 <= at(k) < n);
        assert(vertices[at(k)].vid == vertices[i].vid);
        assert(at(k) == i) by {
            if at(k) < i {
                assert(vertices[at(k)].vid != vertices[i].vid);
            } else if i < at(k) {
                assert(vertices[i].vid != vertices[at(k)].vid);
            }
        }
        assert(listed[k] == v);
    }
    assert forall|a: int, b: int| 0 <= a < b < listed.len() implies (#[trigger] listed[a]).vid < (
    #[trigger] listed[b]).vid by {
        assert(file[a].0 == listed[a].vid && file[b].0 == listed[b].vid);
    }
    listed
}

/// A file that is written for a label has the records of the edges with that label, in the order of
/// their identifiers: these are the edges.
pub proof fn written_edge_files(
    file: Seq<(u64, Vec<Cell>)>,
    edges: Seq<EdgeData>,
    id: LabelId,
) -> (listed: Seq<EdgeData>)
    requires
        distinct_eids(edges),
        ids_ascend(file),
        file_map(file) == edge_records(edges, id, edges.len() as int),
    ensures
        is_edge_file(listed, edges, id),
        listed.len() == file.len(),
        forall|k: int|
            0 <= k < file.len() ==> cell_models((#[trigger] file[k]).1@) == edge_record(listed[k])
                && file[k].0 == listed[k].eid,
{
    let n = edges.len() as int;
    files_hold_every_edge(edges, id, n);
    lemma_file_map(file);
    let at = |k: int|
        choose|i: int|
            0 <= i < n && (#[trigger] edges[i]).eid == file[k].0 && edges[i].label_id == id;
    let listed = Seq::new(file.len(), |k: int| edges[at(k)]);
    assert forall|k: int| 0 <= k < file.len() implies 0 <= #[trigger] at(k) < n && edges[at(k)].eid
        == file[k].0 && edges[at(k)].label_id == id && cell_models(file[k].1@) == edge_record(
        edges[at(k)],
    ) by {
        assert(file_map(file).dom().contains(file[k].0));
        assert(edge_records(edges, id, n).dom().contains(file[k].0));
        let i = choose|i: int|
            0 <= i < n && (#[trigger] edges[i]).eid == file[k].0 && edges[i].label_id == id;
        assert(at(k) == i);
    }
    assert forall|k: int| 0 <= k < file.len() implies cell_models((#[trigger] file[k]).1@)
        == edge_record(listed[k]) && file[k].0 == listed[k].eid by {
        assert(0 <= at(k) < n);
    }
    assert forall|k: int| 0 <= k < listed.len() implies (#[trigger] listed[k]).label_id == id
        && edges.contains(listed[k]) by {
        assert(0 <= at(k) < n);
    }
    assert forall|e: EdgeData| #[trigger] edges.contains(e) && e.label_id == id implies
        listed.contains(e) by {
        let i = choose|i: int| 0 <= i < n && edges[i] == e;
        assert(edges[i].label_id == id);
        assert(edge_records(edges, id, n).dom().contains(e.eid));
        assert(file_map(file).dom().contains(e.eid));
        let k = choose|k: int| 0 <= k < file.len() && (#[trigger] file[k]).0 == e.eid;
        assert(0 <= at(k) < n);
        assert(edges[at(k)].eid == edges[i].eid);
        assert(at(k) == i) by {
            if at(k) < i {
                assert(edges[at(k)].eid != edges[i].eid);
            } else if i < at(k) {
                assert(edges[i].eid != edges[at(k)].eid);
            }
        }
        assert(listed[k] == e);
    }
    assert forall|a: int, b: int| 0 <= a < b < listed.len() implies (#[trigger] listed[a]).eid < (
    #[trigger] listed[b]).eid by {
        assert(file[a].0 == listed[a].eid && file[b].0 == listed[b].eid);
    }
    listed
}

// ---------------------------------------------------------------------------------------------
// The round trip
// ---------------------------------------------------------------------------------------------

/// A graph that can be exported: every vertex and every edge has a label with a type, its values
/// can be read back, no identifier occurs twice, and the ends of the edges are there.
pub open spec fn is_exportable(
    g: GraphTypeModel,
    vertices: Seq<VertexData>,
    edges: Seq<EdgeData>,
) -> bool {
    &&& 1 <= g.next_label_id <= u32::MAX
    &&& forall|name: Seq<char>| #[trigger]
        g.labels.dom().contains(name) ==> 1 <= g.labels[name].raw < g.next_label_id
    &&& can_export(g)
    &&& vertices.len() < u64::MAX
    &&& edges.len() < u64::MAX
    &&& distinct_vids(vertices)
    &&& distinct_eids(edges)
    &&& forall|v: VertexData| #[trigger]
        vertices.contains(v) ==> is_vertex_id(g, v.label_id) && can_all_be_read_back(
            v.properties,
            (model_of(g.vertex_types, seq![v.label_id])->0).properties,
        )
    &&& forall|e: EdgeData| #[trigger]
        edges.contains(e) ==> is_edge_id(g, e.label_id) && can_all_be_read_back(
            e.properties,
            (model_of(g.edge_types, seq![e.label_id])->0).properties,
        ) && has_vertex(vertices, e.src_id) && has_vertex(vertices, e.dst_id)
}

/// For each label of vertices in the manifest, the vertices in its file.
pub open spec fn are_vertex_files(
    g: GraphTypeModel,
    vertices: Seq<VertexData>,
    files: Seq<Seq<VertexData>>,
) -> bool {
    files.len() == manifest_of(g).vertices.len() && forall|i: int|
        0 <= i < files.len() ==> is_vertex_file(
            #[trigger] files[i],
            vertices,
            g.labels[manifest_of(g).vertices[i].label],
        )
}

/// For each label of edges in the manifest, the edges in its file.
pub open spec fn are_edge_files(
    g: GraphTypeModel,
    edges: Seq<EdgeData>,
    files: Seq<Seq<EdgeData>>,
) -> bool {
    files.len() == manifest_of(g).edges.len() && forall|i: int|
        0 <= i < files.len() ==> is_edge_file(
            #[trigger] files[i],
            edges,
            g.labels[manifest_of(g).edges[i].label],
        )
}

/// What is read back from the file of a label.
pub open spec fn is_vertex_file_read(
    records: Seq<Seq<FieldModel>>,
    file: Seq<VertexData>,
) -> bool {
    records.len() == file.len() && forall|k: int|
        0 <= k < file.len() ==> is_record_of(#[trigger] records[k], vertex_record(file[k]))
}

/// What is read back from the file of a label.
pub open spec fn is_edge_file_read(records: Seq<Seq<FieldModel>>, file: Seq<EdgeData>) -> bool {
    records.len() == file.len() && forall|k: int|
        0 <= k < file.len() ==> is_record_of(#[trigger] records[k], edge_record(file[k]))
}

/// The number that the label with a number has after the import: that of the same name.
pub open spec fn relabelled(g: GraphTypeModel, imported: GraphTypeModel, id: LabelId) -> LabelId {
    imported.labels[name_for(g, id)->0]
}

/// Labels at different positions of a manifest have different numbers.
proof fn lemma_one_position(g: GraphTypeModel, i: int, j: int)
    requires
        1 <= g.next_label_id <= u32::MAX,
        manifest_of(g).is_valid(),
        0 <= i < manifest_of(g).size(),
        0 <= j < manifest_of(g).size(),
        g.labels[manifest_of(g).label_at(i)] == g.labels[manifest_of(g).label_at(j)],
    ensures
        i == j,
{
    let m = manifest_of(g);
    lemma_manifest_label(g, i);
    lemma_manifest_label(g, j);
    if i < j {
        assert(m.label_at(i) != m.label_at(j));
    } else if j < i {
        assert(m.label_at(j) != m.label_at(i));
    }
}

/// The position of a label in the manifest of a graph type.
spec fn position_of(g: GraphTypeModel, id: LabelId) -> int {
    choose|i: int|
        0 <= i < manifest_of(g).size() && #[trigger] g.labels[manifest_of(g).label_at(i)] == id
}

proof fn lemma_position_of(g: GraphTypeModel, i: int)
    requires
        1 <= g.next_label_id <= u32::MAX,
        manifest_of(g).is_valid(),
        0 <= i < manifest_of(g).size(),
    ensures
        position_of(g, g.labels[manifest_of(g).label_at(i)]) == i,
{
    let id = g.labels[manifest_of(g).label_at(i)];
    let p = position_of(g, id);
    assert(0 <= p < manifest_of(g).size() && g.labels[manifest_of(g).label_at(p)] == id);
    lemma_one_position(g, i, p);
}

proof fn lemma_vertices_parted(
    g: GraphTypeModel,
    vertices: Seq<VertexData>,
    edges: Seq<EdgeData>,
    files: Seq<Seq<VertexData>>,
)
    requires
        is_exportable(g, vertices, edges),
        manifest_of(g).is_valid(),
        are_vertex_files(g, vertices, files),
    ensures
        is_listing(joined(files, files.len() as int), vertices),
{
    let m = manifest_of(g);
    let place = |v: VertexData| position_of(g, v.label_id);
    assert forall|i: int, k: int|
        #![trigger files[i][k]]
        0 <= i < files.len() && 0 <= k < files[i].len() implies vertices.contains(files[i][k])
        && place(files[i][k]) == i by {
        assert(is_vertex_file(files[i], vertices, g.labels[m.vertices[i].label]));
        assert(m.label_at(i) == m.vertices[i].label);
        lemma_position_of(g, i);
    }
    assert forall|i: int| 0 <= i < files.len() implies (#[trigger] files[i]).no_duplicates() by {
        assert(is_vertex_file(files[i], vertices, g.labels[m.vertices[i].label]));
    }
    assert forall|v: VertexData| #[trigger] vertices.contains(v) implies 0 <= place(v)
        < files.len() && files[place(v)].contains(v) by {
        assert(is_vertex_id(g, v.label_id));
        let i = lemma_label_in_manifest(g, v.label_id);
        lemma_position_of(g, i);
        assert(m.label_at(i) == m.vertices[i].label);
        assert(is_vertex_file(files[i], vertices, g.labels[m.vertices[i].label]));
    }
    assert(vertices.no_duplicates());
    lemma_listing(files, vertices, place);
}

proof fn lemma_edges_parted(
    g: GraphTypeModel,
    vertices: Seq<VertexData>,
    edges: Seq<EdgeData>,
    files: Seq<Seq<EdgeData>>,
)
    requires
        is_exportable(g, vertices, edges),
        manifest_of(g).is_valid(),
        are_edge_files(g, edges, files),
    ensures
        is_listing(joined(files, files.len() as int), edges),
{
    let m = manifest_of(g);
    let nv = m.vertices.len() as int;
    let place = |e: EdgeData| position_of(g, e.label_id) - nv;
    assert forall|i: int, k: int|
        #![trigger files[i][k]]
        0 <= i < files.len() && 0 <= k < files[i].len() implies edges.contains(files[i][k])
        && place(files[i][k]) == i by {
        assert(is_edge_file(files[i], edges, g.labels[m.edges[i].label]));
        assert(m.label_at(nv + i) == m.edges[i].label);
        lemma_position_of(g, nv + i);
    }
    assert forall|i: int| 0 <= i < files.len() implies (#[trigger] files[i]).no_duplicates() by {
        assert(is_edge_file(files[i], edges, g.labels[m.edges[i].label]));
    }
    assert forall|e: EdgeData| #[trigger] edges.contains(e) implies 0 <= place(e) < files.len()
        && files[place(e)].contains(e) by {
        assert(is_edge_id(g, e.label_id));
        let i = lemma_label_in_manifest(g, e.label_id);
        lemma_position_of(g, i);
        assert(m.label_at(i) == m.edges[i - nv].label);
        assert(is_edge_file(files[i - nv], edges, g.labels[m.edges[i - nv].label]));
    }
    assert(edges.no_duplicates());
    lemma_listing(files, edges, place);
}

/// The records of every file of vertices, with the labels and the properties that they are read by.
spec fn vertex_parts(
    imported: GraphTypeModel,
    specs: Seq<VertexSpecModel>,
    records: Seq<Seq<Seq<FieldModel>>>,
) -> Seq<Seq<Item>> {
    Seq::new(
        records.len(),
        |i: int| items_of(vertex_source(imported, specs[i].label)->0, records[i]),
    )
}

/// The records of every file of edges, with the labels and the properties that they are read by.
spec fn edge_parts(
    imported: GraphTypeModel,
    specs: Seq<EdgeSpecModel>,
    records: Seq<Seq<Seq<FieldModel>>>,
) -> Seq<Seq<Item>> {
    Seq::new(
        records.len(),
        |i: int| items_of(edge_source(imported, specs[i].label)->0, records[i]),
    )
}

proof fn lemma_vertex_parts(
    g: GraphTypeModel,
    imported: GraphTypeModel,
    vertices: Seq<VertexData>,
    edges: Seq<EdgeData>,
    files: Seq<Seq<VertexData>>,
    records: Seq<Seq<Seq<FieldModel>>>,
    start: ImportModel,
    n: int,
)
    requires
        is_exportable(g, vertices, edges),
        manifest_of(g).is_valid(),
        manifest_of(g).is_graph_type(imported),
        are_vertex_files(g, vertices, files),
        records.len() == files.len(),
        forall|i: int|
            0 <= i < files.len() ==> is_vertex_file_read(#[trigger] records[i], files[i]),
        0 <= n <= files.len(),
    ensures
        ({
            let specs = manifest_of(g).vertices;
            let items = joined(vertex_parts(imported, specs, records), n);
            let list = joined(files, n);
            &&& items.len() == list.len()
            &&& forall|k: int|
                0 <= k < list.len() ==> is_vertex_item(#[trigger] items[k], list[k])
                    && items[k].label_id == relabelled(g, imported, list[k].label_id)
            &&& start.vertex_files_imported(imported, specs, records, n)
                == start.vertices_imported(items, items.len() as int)
        }),
    decreases n,
{
    let m = manifest_of(g);
    let specs = m.vertices;
    let parts = vertex_parts(imported, specs, records);
    if n > 0 {
        lemma_vertex_parts(g, imported, vertices, edges, files, records, start, n - 1);
        let i = n - 1;
        let first = joined(parts, i);
        let second = parts[i];
        let id = g.labels[m.vertices[i].label];
        assert(m.label_at(i) == m.vertices[i].label);
        lemma_manifest_label(g, i);
        lemma_imported_label(m, imported, i);
        let source = vertex_source(imported, specs[i].label)->0;
        assert(vertex_source(imported, specs[i].label) is Some);
        assert(second == items_of(source, records[i]));
        assert(is_vertex_file(files[i], vertices, id));
        assert(is_vertex_file_read(records[i], files[i]));
        assert forall|k: int| 0 <= k < second.len() implies is_vertex_item(
            #[trigger] second[k],
            files[i][k],
        ) && second[k].label_id == relabelled(g, imported, files[i][k].label_id) by {
            assert(is_record_of(records[i][k], vertex_record(files[i][k])));
            assert(vertices.contains(files[i][k]));
        }
        files_are_imported_in_turn(start, first, second, second.len() as int);
        let items = joined(parts, n);
        let list = joined(files, n);
        assert forall|k: int| 0 <= k < list.len() implies is_vertex_item(
            #[trigger] items[k],
            list[k],
        ) && items[k].label_id == relabelled(g, imported, list[k].label_id) by {
            if k < first.len() {
                assert(items[k] == first[k]);
            } else {
                assert(items[k] == second[k - first.len()]);
            }
        }
    }
}

proof fn lemma_edge_parts(
    g: GraphTypeModel,
    imported: GraphTypeModel,
    vertices: Seq<VertexData>,
    edges: Seq<EdgeData>,
    files: Seq<Seq<EdgeData>>,
    records: Seq<Seq<Seq<FieldModel>>>,
    start: ImportModel,
    n: int,
)
    requires
        is_exportable(g, vertices, edges),
        manifest_of(g).is_valid(),
        manifest_of(g).is_graph_type(imported),
        are_edge_files(g, edges, files),
        records.len() == files.len(),
        forall|i: int|
            0 <= i < files.len() ==> is_edge_file_read(#[trigger] records[i], files[i]),
        0 <= n <= files.len(),
    ensures
        ({
            let specs = manifest_of(g).edges;
            let items = joined(edge_parts(imported, specs, records), n);
            let list = joined(files, n);
            &&& items.len() == list.len()
            &&& forall|k: int|
                0 <= k < list.len() ==> is_edge_item(#[trigger] items[k], list[k])
                    && items[k].label_id == relabelled(g, imported, list[k].label_id)
            &&& start.edge_files_imported(imported, specs, records, n) == start.edges_imported(
                items,
                items.len() as int,
            )
        }),
    decreases n,
{
    let m = manifest_of(g);
    let specs = m.edges;
    let parts = edge_parts(imported, specs, records);
    if n > 0 {
        lemma_edge_parts(g, imported, vertices, edges, files, records, start, n - 1);
        let i = n - 1;
        let at = m.vertices.len() + i;
        let first = joined(parts, i);
        let second = parts[i];
        let id = g.labels[m.edges[i].label];
        assert(m.label_at(at) == m.edges[i].label);
        lemma_manifest_label(g, at);
        lemma_imported_label(m, imported, at);
        let source = edge_source(imported, specs[i].label)->0;
        assert(edge_source(imported, specs[i].label) is Some);
        assert(second == items_of(source, records[i]));
        assert(is_edge_file(files[i], edges, id));
        assert(is_edge_file_read(records[i], files[i]));
        assert forall|k: int| 0 <= k < second.len() implies is_edge_item(
            #[trigger] second[k],
            files[i][k],
        ) && second[k].label_id == relabelled(g, imported, files[i][k].label_id) by {
            assert(is_record_of(records[i][k], edge_record(files[i][k])));
            assert(edges.contains(files[i][k]));
        }
        files_are_imported_in_turn(start, first, second, second.len() as int);
        let items = joined(parts, n);
        let list = joined(files, n);
        assert forall|k: int| 0 <= k < list.len() implies is_edge_item(#[trigger] items[k], list[k])
            && items[k].label_id == relabelled(g, imported, list[k].label_id) by {
            if k < first.len() {
                assert(items[k] == first[k]);
            } else {
                assert(items[k] == second[k - first.len()]);
            }
        }
    }
}

/// Names stay: the label of a new number has the name of the old one.
pub proof fn labels_keep_their_names(g: GraphTypeModel, imported: GraphTypeModel, id: LabelId)
    requires
        1 <= g.next_label_id <= u32::MAX,
        forall|name: Seq<char>| #[trigger]
            g.labels.dom().contains(name) ==> 1 <= g.labels[name].raw < g.next_label_id,
        can_export(g),
        manifest_of(g).is_graph_type(imported),
        name_for(g, id) is Some,
    ensures
        name_for(imported, relabelled(g, imported, id)) == name_for(g, id),
{
    exported_types_import_again(g, imported);
    let i = lemma_label_in_manifest(g, id);
    lemma_manifest_label(g, i);
    lemma_imported_label(manifest_of(g), imported, i);
}

/// A graph that is exported and imported again comes back whole. Its manifest can be imported, and
/// gives a graph type with the same manifest. Importing the files of the manifest in turn succeeds.
/// The vertices come back in the order of the files, numbered from one on, each of them once, with
/// their properties and under labels with the same names; so do the edges, and every edge joins the
/// vertices that it joined.
pub proof fn exported_graph_comes_back(
    g: GraphTypeModel,
    imported: GraphTypeModel,
    vertices: Seq<VertexData>,
    vertex_files: Seq<Seq<VertexData>>,
    vertex_records: Seq<Seq<Seq<FieldModel>>>,
    edges: Seq<EdgeData>,
    edge_files: Seq<Seq<EdgeData>>,
    edge_records: Seq<Seq<Seq<FieldModel>>>,
)
    requires
        is_exportable(g, vertices, edges),
        manifest_of(g).is_graph_type(imported),
        are_vertex_files(g, vertices, vertex_files),
        are_edge_files(g, edges, edge_files),
        vertex_records.len() == vertex_files.len(),
        forall|i: int|
            0 <= i < vertex_files.len() ==> is_vertex_file_read(
                #[trigger] vertex_records[i],
                vertex_files[i],
            ),
        edge_records.len() == edge_files.len(),
        forall|i: int|
            0 <= i < edge_files.len() ==> is_edge_file_read(
                #[trigger] edge_records[i],
                edge_files[i],
            ),
    ensures
        manifest_of(g).failure() is None,
        can_export(imported),
        manifest_of(imported) == manifest_of(g),
        ({
            let m = manifest_of(g);
            let vertex_list = joined(vertex_files, vertex_files.len() as int);
            let edge_list = joined(edge_files, edge_files.len() as int);
            &&& is_listing(vertex_list, vertices)
            &&& is_listing(edge_list, edges)
            &&& ImportModel::empty(imported).vertex_files_imported(
                imported,
                m.vertices,
                vertex_records,
                m.vertices.len() as int,
            ) matches Ok(middle) && (middle.edge_files_imported(
                imported,
                m.edges,
                edge_records,
                m.edges.len() as int,
            ) matches Ok(after) && {
                &&& after.graph_type == imported
                &&& after.vertices.len() == vertices.len()
                &&& forall|i: int|
                    0 <= i < vertex_list.len() ==> #[trigger] after.vertices[i] == (VertexData {
                        vid: (1 + i) as u64,
                        label_id: relabelled(g, imported, vertex_list[i].label_id),
                        properties: vertex_list[i].properties,
                    })
                &&& after.edges.len() == edges.len()
                &&& forall|j: int|
                    0 <= j < edge_list.len() ==> {
                        &&& (#[trigger] after.edges[j]).eid == 1 + j
                        &&& after.edges[j].label_id == relabelled(
                            g,
                            imported,
                            edge_list[j].label_id,
                        )
                        &&& after.edges[j].properties == edge_list[j].properties
                    }
                &&& forall|i: int, j: int|
                    #![trigger after.edges[j], vertex_list[i]]
                    0 <= j < edge_list.len() && 0 <= i < vertex_list.len() ==> {
                        &&& vertex_list[i].vid == edge_list[j].src_id ==> after.edges[j].src_id == 1
                            + i
                        &&& vertex_list[i].vid == edge_list[j].dst_id ==> after.edges[j].dst_id == 1
                            + i
                    }
            })
        }),
{
    let m = manifest_of(g);
    exported_types_import_again(g, imported);
    valid_manifests_do_not_fail(m);
    let nv = vertex_files.len() as int;
    let ne = edge_files.len() as int;
    let vertex_list = joined(vertex_files, nv);
    let edge_list = joined(edge_files, ne);
    lemma_vertices_parted(g, vertices, edges, vertex_files);
    lemma_edges_parted(g, vertices, edges, edge_files);
    let empty = ImportModel::empty(imported);
    lemma_vertex_parts(g, imported, vertices, edges, vertex_files, vertex_records, empty, nv);
    let vertex_items = joined(vertex_parts(imported, m.vertices, vertex_records), nv);
    let edge_items = joined(edge_parts(imported, m.edges, edge_records), ne);
    assert(distinct_vids(vertex_list)) by {
        assert forall|i: int, j: int| 0 <= i < j < vertex_list.len() implies (
        #[trigger] vertex_list[i]).vid != (#[trigger] vertex_list[j]).vid by {
            assert(vertex_list.contains(vertex_list[i]));
            assert(vertex_list.contains(vertex_list[j]));
            let a = choose|a: int| 0 <= a < vertices.len() && vertices[a] == vertex_list[i];
            let b = choose|b: int| 0 <= b < vertices.len() && vertices[b] == vertex_list[j];
            assert(a != b);
            if a < b {
                assert(vertices[a].vid != vertices[b].vid);
            } else {
                assert(vertices[b].vid != vertices[a].vid);
            }
        }
    }
    lemma_edge_parts(
        g,
        imported,
        vertices,
        edges,
        edge_files,
        edge_records,
        empty.vertices_imported(vertex_items, vertex_items.len() as int)->Ok_0,
        ne,
    );
    assert forall|j: int| 0 <= j < edge_list.len() implies has_vertex(
        vertex_list,
        (#[trigger] edge_list[j]).src_id,
    ) && has_vertex(vertex_list, edge_list[j].dst_id) by {
        let e = edge_list[j];
        assert(edge_list.contains(e));
        assert(edges.contains(e));
        lemma_listed_vertex(vertex_list, vertices, e.src_id);
        lemma_listed_vertex(vertex_list, vertices, e.dst_id);
    }
    exported_graphs_are_imported(imported, vertex_list, vertex_items, edge_list, edge_items);
}

proof fn lemma_listed_vertex(list: Seq<VertexData>, vertices: Seq<VertexData>, vid: u64)
    requires
        is_listing(list, vertices),
        has_vertex(vertices, vid),
    ensures
        has_vertex(list, vid),
{
    let i = choose|i: int| 0 <= i < vertices.len() && (#[trigger] vertices[i]).vid == vid;
    assert(vertices.contains(vertices[i]));
    assert(list.contains(vertices[i]));
    let k = choose|k: int| 0 <= k < list.len() && list[k] == vertices[i];
    assert(list[k].vid == vid);
}

} // verus!
