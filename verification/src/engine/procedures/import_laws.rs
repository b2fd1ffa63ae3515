//! Import and export: laws of fields, records, files and manifests.

use vstd::prelude::*;
use crate::catalog::graph_type::{model_of, GraphTypeModel, PropertyModel};
use crate::catalog::schema::MemorySchemaCatalog;
use crate::common::data_type::LogicalType;
use crate::common::parse::{integer_value, unsigned_value};
use crate::common::text::{decimal, integer_decimal};
use crate::common::types::LabelId;
use crate::common::value::ValueModel;
use crate::engine::procedures::export_graph::{
    edge_record, edge_records, file_index, lemma_file_map, vertex_record, vertex_records,
    RecordFiles,
};
use crate::engine::procedures::field::{
    cell_models, value_cell, value_read, Cell, CellModel, FieldModel, ImportFailure,
};
use crate::engine::procedures::import_graph::{
    edge_source, is_registered, properties_read, vertex_source, zipped, GraphImport, ImportModel,
    Item,
};
use crate::engine::procedures::manifest::{
    can_export, can_export_label, is_vertex_set, label_id, lemma_manifest_label, manifest_below,
    manifest_of, name_for, valid_manifests_do_not_fail, ManifestModel,
};
use crate::execution::error::{error_text, ExecutionResult};
use crate::storage::model::{EdgeData, GraphData, VertexData};
use crate::transaction::txn::TxnOptions;

verus! {

// ---------------------------------------------------------------------------------------------
// Fields
// ---------------------------------------------------------------------------------------------

/// What a field gives is a value of the type of its property, and says what the field says. It is
/// absent exactly where the field is empty and the property may be absent.
pub proof fn fields_give_what_they_say(
    property: PropertyModel,
    field: FieldModel,
    value: ValueModel,
)
    requires
        value_read(property, field) == Ok::<ValueModel, ImportFailure>(value),
    ensures
        match value {
            ValueModel::Null => property.ty == LogicalType::Null && property.nullable
                && field.text.len() == 0,
            ValueModel::Boolean(v) => property.ty == LogicalType::Boolean && (match v {
                Some(true) => field.text == "true"@,
                Some(false) => field.text == "false"@,
                None => property.nullable && field.text.len() == 0,
            }),
            ValueModel::Int8(v) => property.ty == LogicalType::Int8 && (match v {
                Some(n) => integer_value(field.text, -0x80, 0x7f) == Some(n as int),
                None => property.nullable && field.text.len() == 0,
            }),
            ValueModel::Int16(v) => property.ty == LogicalType::Int16 && (match v {
                Some(n) => integer_value(field.text, -0x8000, 0x7fff) == Some(n as int),
                None => property.nullable && field.text.len() == 0,
            }),
            ValueModel::Int32(v) => property.ty == LogicalType::Int32 && (match v {
                Some(n) => integer_value(field.text, -0x8000_0000, 0x7fff_ffff) == Some(n as int),
                None => property.nullable && field.text.len() == 0,
            }),
            ValueModel::Int64(v) => property.ty == LogicalType::Int64 && (match v {
                Some(n) => integer_value(
                    field.text,
                    -0x8000_0000_0000_0000,
                    0x7fff_ffff_ffff_ffff,
                ) == Some(n as int),
                None => property.nullable && field.text.len() == 0,
            }),
            ValueModel::UInt8(v) => property.ty == LogicalType::UInt8 && (match v {
                Some(n) => unsigned_value(field.text, 0xff) == Some(n as nat),
                None => property.nullable && field.text.len() == 0,
            }),
            ValueModel::UInt16(v) => property.ty == LogicalType::UInt16 && (match v {
                Some(n) => unsigned_value(field.text, 0xffff) == Some(n as nat),
                None => property.nullable && field.text.len() == 0,
            }),
            ValueModel::UInt32(v) => property.ty == LogicalType::UInt32 && (match v {
                Some(n) => unsigned_value(field.text, 0xffff_ffff) == Some(n as nat),
                None => property.nullable && field.text.len() == 0,
            }),
            ValueModel::UInt64(v) => property.ty == LogicalType::UInt64 && (match v {
                Some(n) => unsigned_value(field.text, 0xffff_ffff_ffff_ffff) == Some(n as nat),
                None => property.nullable && field.text.len() == 0,
            }),
            ValueModel::Float32(v) => property.ty == LogicalType::Float32 && (match v {
                Some(_) => field.float32 == v,
                None => property.nullable && field.text.len() == 0,
            }),
            ValueModel::Float64(v) => property.ty == LogicalType::Float64 && (match v {
                Some(_) => field.float64 == v,
                None => property.nullable && field.text.len() == 0,
            }),
            ValueModel::String(v) => property.ty == LogicalType::String && (match v {
                Some(text) => field.text == text && !(property.nullable && text.len() == 0),
                None => property.nullable && field.text.len() == 0,
            }),
            ValueModel::Vector(_) => false,
        },
{
}

/// A field that stands for no value is reported, with its text, by what was looked for in it. Texts
/// are always read.
pub proof fn fields_that_say_nothing_are_reported(
    property: PropertyModel,
    field: FieldModel,
    e: ImportFailure,
)
    requires
        value_read(property, field) == Err::<ValueModel, ImportFailure>(e),
    ensures
        property.ty != LogicalType::String,
        match e {
            ImportFailure::InvalidInteger(text) => text == field.text && (property.ty
                == LogicalType::Int8 || property.ty == LogicalType::Int16 || property.ty
                == LogicalType::Int32 || property.ty == LogicalType::Int64 || property.ty
                == LogicalType::UInt8 || property.ty == LogicalType::UInt16 || property.ty
                == LogicalType::UInt32 || property.ty == LogicalType::UInt64),
            ImportFailure::InvalidBoolean(text) => property.ty == LogicalType::Boolean && text
                == field.text && text != "true"@ && text != "false"@,
            ImportFailure::InvalidFloat(text) => text == field.text && ((property.ty
                == LogicalType::Float32 && field.float32 is None) || (property.ty
                == LogicalType::Float64 && field.float64 is None)),
            ImportFailure::NotEmpty => property.ty == LogicalType::Null && !(property.nullable
                && field.text.len() == 0),
            ImportFailure::NotImplemented { feature, issue } => {
                &&& feature.len() == 0
                &&& issue is None
                &&& property.ty is Vector || property.ty is Vertex || property.ty is Edge
            },
            _ => false,
        },
        e is InvalidInteger ==> (property.ty == LogicalType::Int8 ==> integer_value(
            field.text,
            -0x80,
            0x7f,
        ) is None) && (property.ty == LogicalType::Int16 ==> integer_value(
            field.text,
            -0x8000,
            0x7fff,
        ) is None) && (property.ty == LogicalType::Int32 ==> integer_value(
            field.text,
            -0x8000_0000,
            0x7fff_ffff,
        ) is None) && (property.ty == LogicalType::Int64 ==> integer_value(
            field.text,
            -0x8000_0000_0000_0000,
            0x7fff_ffff_ffff_ffff,
        ) is None) && (property.ty == LogicalType::UInt8 ==> unsigned_value(field.text, 0xff)
            is None) && (property.ty == LogicalType::UInt16 ==> unsigned_value(field.text, 0xffff)
            is None) && (property.ty == LogicalType::UInt32 ==> unsigned_value(
            field.text,
            0xffff_ffff,
        ) is None) && (property.ty == LogicalType::UInt64 ==> unsigned_value(
            field.text,
            0xffff_ffff_ffff_ffff,
        ) is None),
{
}

/// A cell says what the value says: numbers are written in decimal, texts as they are, truth in
/// words, and what is absent as nothing.
pub proof fn cells_say_what_values_say(value: ValueModel)
    ensures
        match value {
            ValueModel::Boolean(Some(true)) => value_cell(value) == CellModel::Text("true"@),
            ValueModel::Boolean(Some(false)) => value_cell(value) == CellModel::Text("false"@),
            ValueModel::Int8(Some(n)) => value_cell(value) == CellModel::Text(
                integer_decimal(n as int),
            ),
            ValueModel::Int16(Some(n)) => value_cell(value) == CellModel::Text(
                integer_decimal(n as int),
            ),
            ValueModel::Int32(Some(n)) => value_cell(value) == CellModel::Text(
                integer_decimal(n as int),
            ),
            ValueModel::Int64(Some(n)) => value_cell(value) == CellModel::Text(
                integer_decimal(n as int),
            ),
            ValueModel::UInt8(Some(n)) => value_cell(value) == CellModel::Text(decimal(n as nat)),
            ValueModel::UInt16(Some(n)) => value_cell(value) == CellModel::Text(decimal(n as nat)),
            ValueModel::UInt32(Some(n)) => value_cell(value) == CellModel::Text(decimal(n as nat)),
            ValueModel::UInt64(Some(n)) => value_cell(value) == CellModel::Text(decimal(n as nat)),
            ValueModel::Float32(Some(v)) => value_cell(value) == CellModel::Float32(v),
            ValueModel::Float64(Some(v)) => value_cell(value) == CellModel::Float64(v),
            ValueModel::String(Some(text)) => value_cell(value) == CellModel::Text(text),
            _ => value_cell(value) matches CellModel::Text(text) && text.len() == 0,
        },
{
}

// ---------------------------------------------------------------------------------------------
// Records
// ---------------------------------------------------------------------------------------------

/// Properties are read in their order, each from its own field.
pub proof fn properties_are_read_in_order(
    properties: Seq<PropertyModel>,
    record: Seq<FieldModel>,
    skip: int,
    n: int,
    values: Seq<ValueModel>,
)
    requires
        0 <= n,
        properties_read(properties, record, skip, n) == Ok::<Seq<ValueModel>, ImportFailure>(
            values,
        ),
    ensures
        values.len() == n,
        forall|i: int|
            0 <= i < n ==> value_read(properties[i], record[skip + i]) == Ok::<
                ValueModel,
                ImportFailure,
            >(#[trigger] values[i]),
    decreases n,
{
    if n > 0 {
        let before = properties_read(properties, record, skip, n - 1)->Ok_0;
        properties_are_read_in_order(properties, record, skip, n - 1, before);
        assert forall|i: int| 0 <= i < n implies value_read(
            properties[i],
            record[skip + i],
        ) == Ok::<ValueModel, ImportFailure>(#[trigger] values[i]) by {
            if i < n - 1 {
                assert(values[i] == before[i]);
            }
        }
    }
}

/// Reading properties fails with the first of them that cannot be read.
pub proof fn first_property_that_fails_is_reported(
    properties: Seq<PropertyModel>,
    record: Seq<FieldModel>,
    skip: int,
    n: int,
    e: ImportFailure,
) -> (k: int)
    requires
        0 <= n,
        properties_read(properties, record, skip, n) == Err::<Seq<ValueModel>, ImportFailure>(e),
    ensures
        0 <= k < n,
        value_read(properties[k], record[skip + k]) == Err::<ValueModel, ImportFailure>(e),
        forall|i: int| 0 <= i < k ==> value_read(#[trigger] properties[i], record[skip + i]) is Ok,
    decreases n,
{
    match properties_read(properties, record, skip, n - 1) {
        Err(_) => first_property_that_fails_is_reported(properties, record, skip, n - 1, e),
        Ok(before) => {
            properties_are_read_in_order(properties, record, skip, n - 1, before);
            assert forall|i: int| 0 <= i < n - 1 implies value_read(
                #[trigger] properties[i],
                record[skip + i],
            ) is Ok by {
                assert(value_read(properties[i], record[skip + i]) == Ok::<
                    ValueModel,
                    ImportFailure,
                >(before[i]));
            }
            n - 1
        },
    }
}

/// As many properties are read as there are, and as there are fields for.
pub proof fn no_more_properties_are_read_than_there_are(properties: nat, fields: nat, skip: nat)
    ensures
        ({
            let n = zipped(properties as int, fields as int, skip as int);
            &&& 0 <= n <= properties
            &&& skip + n <= fields || n == 0
            &&& n == properties || skip + n >= fields
        }),
{
}

/// A record of a vertex starts with its number, and its properties follow. The vertex gets the next
/// number, which its own number stands for from then on; nothing else changes.
pub proof fn vertices_are_imported_from_their_records(
    m: ImportModel,
    label_id: LabelId,
    properties: Seq<PropertyModel>,
    record: Seq<FieldModel>,
    after: ImportModel,
    i: int,
    other: u64,
)
    requires
        m.next_vid < u64::MAX,
        m.vertex_imported(label_id, properties, record) == Ok::<ImportModel, ImportFailure>(after),
    ensures
        record.len() == 1 + properties.len(),
        after.vertices.len() == m.vertices.len() + 1,
        after.vertices.drop_last() == m.vertices,
        after.vertices.last().vid == m.next_vid,
        after.vertices.last().label_id == label_id,
        after.vertices.last().properties.len() == properties.len(),
        0 <= i < properties.len() ==> value_read(properties[i], record[1 + i]) == Ok::<
            ValueModel,
            ImportFailure,
        >(after.vertices.last().properties[i]),
        after.next_vid == m.next_vid + 1,
        unsigned_value(record[0].text, 0xffff_ffff_ffff_ffff) matches Some(number) && {
            &&& after.vid_mapping.dom().contains(number as u64)
            &&& after.vid_mapping[number as u64] == m.next_vid
            &&& other != number ==> after.vid_mapping.dom().contains(other)
                == m.vid_mapping.dom().contains(other)
            &&& other != number && m.vid_mapping.dom().contains(other) ==> after.vid_mapping[other]
                == m.vid_mapping[other]
        },
        after.graph_type == m.graph_type,
        after.edges == m.edges,
        after.next_eid == m.next_eid,
{
    let n = properties.len() as int;
    let values = properties_read(properties, record, 1, n)->Ok_0;
    properties_are_read_in_order(properties, record, 1, n, values);
    assert(after.vertices.drop_last() =~= m.vertices);
    if 0 <= i < n {
        assert(after.vertices.last().properties[i] == values[i]);
    }
}

/// A record of an edge starts with its number and those of its source and its destination, and its
/// properties follow. The edge gets the next number and joins the vertices that the numbers of its
/// ends stand for, in their order; nothing else changes.
pub proof fn edges_are_imported_from_their_records(
    m: ImportModel,
    label_id: LabelId,
    properties: Seq<PropertyModel>,
    record: Seq<FieldModel>,
    after: ImportModel,
    i: int,
)
    requires
        m.next_eid < u64::MAX,
        m.edge_imported(label_id, properties, record) == Ok::<ImportModel, ImportFailure>(after),
    ensures
        record.len() == 3 + properties.len(),
        after.edges.len() == m.edges.len() + 1,
        after.edges.drop_last() == m.edges,
        after.edges.last().eid == m.next_eid,
        after.edges.last().label_id == label_id,
        unsigned_value(record[1].text, 0xffff_ffff_ffff_ffff) matches Some(src) && (
        m.vid_mapping.dom().contains(src as u64) && after.edges.last().src_id
            == m.vid_mapping[src as u64]),
        unsigned_value(record[2].text, 0xffff_ffff_ffff_ffff) matches Some(dst) && (
        m.vid_mapping.dom().contains(dst as u64) && after.edges.last().dst_id
            == m.vid_mapping[dst as u64]),
        after.edges.last().properties.len() == properties.len(),
        0 <= i < properties.len() ==> value_read(properties[i], record[3 + i]) == Ok::<
            ValueModel,
            ImportFailure,
        >(after.edges.last().properties[i]),
        after.next_eid == m.next_eid + 1,
        after.graph_type == m.graph_type,
        after.vertices == m.vertices,
        after.vid_mapping == m.vid_mapping,
        after.next_vid == m.next_vid,
{
    let n = properties.len() as int;
    let values = properties_read(properties, record, 3, n)->Ok_0;
    properties_are_read_in_order(properties, record, 3, n, values);
    assert(after.edges.drop_last() =~= m.edges);
    if 0 <= i < n {
        assert(after.edges.last().properties[i] == values[i]);
    }
}

/// What is wrong with a record is reported in this order: that it has too few or too many fields,
/// that its numbers are none, that its ends are not there, and that a property cannot be read.
pub proof fn records_fail_in_order(
    m: ImportModel,
    label_id: LabelId,
    properties: Seq<PropertyModel>,
    record: Seq<FieldModel>,
    max: nat,
)
    requires
        max == 0xffff_ffff_ffff_ffff,
    ensures
        ({
            let vertex = m.vertex_imported(label_id, properties, record);
            let edge = m.edge_imported(label_id, properties, record);
            let first = unsigned_value(record[0].text, max);
            let src = unsigned_value(record[1].text, max);
            let dst = unsigned_value(record[2].text, max);
            let known = m.vid_mapping.dom();
            let fits = record.len() == 3 + properties.len();
            let has_ends = fits && src is Some && dst is Some;
            &&& record.len() != 1 + properties.len() ==> vertex == Err::<
                ImportModel,
                ImportFailure,
            >(ImportFailure::RecordLength(record.len()))
            &&& record.len() == 1 + properties.len() && first is None ==> vertex == Err::<
                ImportModel,
                ImportFailure,
            >(ImportFailure::InvalidInteger(record[0].text))
            &&& record.len() == 1 + properties.len() && first is Some && vertex is Err ==> exists|
                k: int,
            |
                0 <= k < properties.len() && value_read(#[trigger] properties[k], record[1 + k])
                    == Err::<ValueModel, ImportFailure>(vertex->Err_0)
            &&& record.len() != 3 + properties.len() ==> edge == Err::<ImportModel, ImportFailure>(
                ImportFailure::RecordLength(record.len()),
            )
            &&& fits && src is None ==> edge == Err::<
                ImportModel,
                ImportFailure,
            >(ImportFailure::InvalidInteger(record[1].text))
            &&& fits && src is Some && dst is None ==> edge == Err::<ImportModel, ImportFailure>(
                ImportFailure::InvalidInteger(record[2].text),
            )
            &&& has_ends && !known.contains((src->0) as u64) ==> edge == Err::<
                ImportModel,
                ImportFailure,
            >(ImportFailure::UnknownVertex((src->0) as u64))
            &&& has_ends && known.contains((src->0) as u64) && !known.contains((dst->0) as u64)
                ==> edge == Err::<ImportModel, ImportFailure>(
                ImportFailure::UnknownVertex((dst->0) as u64),
            )
            &&& has_ends && known.contains((src->0) as u64) && known.contains((dst->0) as u64)
                && edge is Err ==> exists|k: int|
                0 <= k < properties.len() && value_read(#[trigger] properties[k], record[3 + k])
                    == Err::<ValueModel, ImportFailure>(edge->Err_0)
        }),
{
    let n = properties.len() as int;
    if record.len() == 1 + properties.len() {
        if let Err(e) = properties_read(properties, record, 1, n) {
            let k = first_property_that_fails_is_reported(properties, record, 1, n, e);
            assert(value_read(properties[k], record[1 + k]) == Err::<ValueModel, ImportFailure>(e));
        }
    }
    if record.len() == 3 + properties.len() {
        if let Err(e) = properties_read(properties, record, 3, n) {
            let k = first_property_that_fails_is_reported(properties, record, 3, n, e);
            assert(value_read(properties[k], record[3 + k]) == Err::<ValueModel, ImportFailure>(e));
        }
    }
}

/// Records are imported one after the other: each makes one vertex, and the vertices are numbered
/// in the order of their records.
pub proof fn vertices_are_numbered_in_the_order_of_their_records(
    m: ImportModel,
    items: Seq<Item>,
    n: int,
    after: ImportModel,
    k: int,
)
    requires
        0 <= k < n <= items.len(),
        m.next_vid + n <= u64::MAX,
        m.vertices_imported(items, n) == Ok::<ImportModel, ImportFailure>(after),
    ensures
        after.vertices.len() == m.vertices.len() + n,
        after.vertices[m.vertices.len() + k].vid == m.next_vid + k,
        after.vertices[m.vertices.len() + k].label_id == items[k].label_id,
        after.vertices[m.vertices.len() + k].properties.len() == items[k].properties.len(),
        after.next_vid == m.next_vid + n,
        after.edges == m.edges,
        forall|j: int| 0 <= j < m.vertices.len() ==> after.vertices[j] == #[trigger] m.vertices[j],
    decreases n,
{
    let before = m.vertices_imported(items, n - 1)->Ok_0;
    if n > 1 {
        if k < n - 1 {
            vertices_are_numbered_in_the_order_of_their_records(m, items, n - 1, before, k);
        } else {
            vertices_are_numbered_in_the_order_of_their_records(m, items, n - 1, before, 0);
        }
    } else {
        assert(before == m);
    }
    let last = items[n - 1];
    vertices_are_imported_from_their_records(
        before,
        last.label_id,
        last.properties,
        last.record,
        after,
        0,
        0,
    );
    assert forall|j: int| 0 <= j < before.vertices.len() implies after.vertices[j]
        == #[trigger] before.vertices[j] by {
        assert(after.vertices.drop_last()[j] == before.vertices[j]);
    }
}

/// Edges are numbered in the order of their records too.
pub proof fn edges_are_numbered_in_the_order_of_their_records(
    m: ImportModel,
    items: Seq<Item>,
    n: int,
    after: ImportModel,
    k: int,
)
    requires
        0 <= k < n <= items.len(),
        m.next_eid + n <= u64::MAX,
        m.edges_imported(items, n) == Ok::<ImportModel, ImportFailure>(after),
    ensures
        after.edges.len() == m.edges.len() + n,
        after.edges[m.edges.len() + k].eid == m.next_eid + k,
        after.edges[m.edges.len() + k].label_id == items[k].label_id,
        after.edges[m.edges.len() + k].properties.len() == items[k].properties.len(),
        after.next_eid == m.next_eid + n,
        after.vertices == m.vertices,
        after.vid_mapping == m.vid_mapping,
        forall|j: int| 0 <= j < m.edges.len() ==> after.edges[j] == #[trigger] m.edges[j],
    decreases n,
{
    let before = m.edges_imported(items, n - 1)->Ok_0;
    if n > 1 {
        if k < n - 1 {
            edges_are_numbered_in_the_order_of_their_records(m, items, n - 1, before, k);
        } else {
            edges_are_numbered_in_the_order_of_their_records(m, items, n - 1, before, 0);
        }
    } else {
        assert(before == m);
    }
    let last = items[n - 1];
    edges_are_imported_from_their_records(
        before,
        last.label_id,
        last.properties,
        last.record,
        after,
        0,
    );
    assert forall|j: int| 0 <= j < before.edges.len() implies after.edges[j]
        == #[trigger] before.edges[j] by {
        assert(after.edges.drop_last()[j] == before.edges[j]);
    }
}

/// An import of vertices that fails has made the vertices of the records before the first that
/// fails, and no other.
pub proof fn failed_imports_keep_what_came_before(
    m: ImportModel,
    items: Seq<Item>,
    k: int,
    after: ImportModel,
    e: ImportFailure,
    j: int,
)
    requires
        m.next_vid + items.len() <= u64::MAX,
        m.vertices_fail_at(items, k, after, e),
    ensures
        0 <= k < items.len(),
        after.vertex_imported(items[k].label_id, items[k].properties, items[k].record) == Err::<
            ImportModel,
            ImportFailure,
        >(e),
        after.vertices.len() == m.vertices.len() + k,
        0 <= j < k ==> after.vertices[m.vertices.len() + j].vid == m.next_vid + j
            && after.vertices[m.vertices.len() + j].label_id == items[j].label_id,
        after.edges == m.edges,
{
    if k > 0 {
        if 0 <= j < k {
            vertices_are_numbered_in_the_order_of_their_records(m, items, k, after, j);
        } else {
            vertices_are_numbered_in_the_order_of_their_records(m, items, k, after, 0);
        }
    }
}

/// An import of edges that fails has made the edges of the records before the first that fails, and
/// no other.
pub proof fn failed_imports_keep_the_edges_before(
    m: ImportModel,
    items: Seq<Item>,
    k: int,
    after: ImportModel,
    e: ImportFailure,
    j: int,
)
    requires
        m.next_eid + items.len() <= u64::MAX,
        m.edges_fail_at(items, k, after, e),
    ensures
        0 <= k < items.len(),
        after.edge_imported(items[k].label_id, items[k].properties, items[k].record) == Err::<
            ImportModel,
            ImportFailure,
        >(e),
        after.edges.len() == m.edges.len() + k,
        0 <= j < k ==> after.edges[m.edges.len() + j].eid == m.next_eid + j
            && after.edges[m.edges.len() + j].label_id == items[j].label_id,
        after.vertices == m.vertices,
{
    if k > 0 {
        if 0 <= j < k {
            edges_are_numbered_in_the_order_of_their_records(m, items, k, after, j);
        } else {
            edges_are_numbered_in_the_order_of_their_records(m, items, k, after, 0);
        }
    }
}

/// An import starts with nothing, and numbers from one on.
pub proof fn imports_start_with_nothing(graph_type: GraphTypeModel)
    ensures
        ({
            let m = ImportModel::empty(graph_type);
            &&& m.graph_type == graph_type
            &&& m.vertices.len() == 0
            &&& m.edges.len() == 0
            &&& forall|vid: u64| !#[trigger] m.vid_mapping.dom().contains(vid)
            &&& m.next_vid == 1
            &&& m.next_eid == 1
        }),
{
}

/// The records of a file are read by the type that has the label of the file, and no other.
pub proof fn files_are_read_by_the_type_of_their_label(m: GraphTypeModel, label: Seq<char>)
    ensures
        vertex_source(m, label) matches Some(source) ==> {
            &&& m.labels.dom().contains(label)
            &&& m.labels[label] == source.0
            &&& model_of(m.vertex_types, seq![source.0]) matches Some(ty)
            &&& ty.properties == source.1
        },
        edge_source(m, label) matches Some(source) ==> {
            &&& m.labels.dom().contains(label)
            &&& m.labels[label] == source.0
            &&& model_of(m.edge_types, seq![source.0]) matches Some(ty)
            &&& ty.properties == source.1
        },
        m.labels.dom().contains(label) && model_of(m.vertex_types, seq![m.labels[label]]) is Some
            ==> vertex_source(m, label) is Some,
        m.labels.dom().contains(label) && model_of(m.edge_types, seq![m.labels[label]]) is Some
            ==> edge_source(m, label) is Some,
{
}

/// A graph that is imported stands under its name, with the type and the data of the import, where
/// the name was free; where it was not, everything stays as it was. Other graphs stay either way.
pub proof fn imported_graphs_stand_under_their_names(
    import: GraphImport,
    before: MemorySchemaCatalog,
    name: Seq<char>,
    txn_options: TxnOptions,
    r: ExecutionResult<GraphData>,
    after: Option<MemorySchemaCatalog>,
    other: Seq<char>,
)
    requires
        is_registered(import, Some(before), name, txn_options, r, after),
    ensures
        after matches Some(schema) && {
            &&& schema.graph_map@.dom().contains(name)
            &&& before.graph_map@.dom().contains(name) ==> schema.graph_map@ == before.graph_map@
                && (r matches Err(e) && error_text(e) == "graph "@ + name + " already exists"@)
            &&& !before.graph_map@.dom().contains(name) ==> {
                let graph = schema.graph_map@[name];
                &&& r matches Ok(data)
                &&& data.vertices == import.vertices
                &&& data.edges == import.edges
                &&& graph.graph_type@ == import.graph_type@
                &&& graph.txn_options == txn_options
                &&& graph.index_catalog matches Some(catalog)
                &&& catalog.entries@.len() == 0
            }
            &&& other != name ==> schema.graph_map@.dom().contains(other)
                == before.graph_map@.dom().contains(other)
            &&& before.graph_map@.dom().contains(other) && other != name
                ==> schema.graph_map@[other] == before.graph_map@[other]
            &&& schema.parent == before.parent
            &&& schema.graph_type_map == before.graph_type_map
            &&& schema.procedure_map == before.procedure_map
        },
{
}

/// Without a current schema no graph is imported.
pub proof fn imports_need_a_schema(
    import: GraphImport,
    name: Seq<char>,
    txn_options: TxnOptions,
    r: ExecutionResult<GraphData>,
    after: Option<MemorySchemaCatalog>,
)
    requires
        is_registered(import, None, name, txn_options, r, after),
    ensures
        after is None,
        r matches Err(e) && error_text(e) == "current schema not set"@,
{
}

// ---------------------------------------------------------------------------------------------
// Files
// ---------------------------------------------------------------------------------------------

/// The record of a vertex is its number and its properties in their order.
pub proof fn vertex_records_hold_every_property(v: VertexData, i: int)
    ensures
        vertex_record(v).len() == 1 + v.properties.len(),
        vertex_record(v)[0] == CellModel::Text(decimal(v.vid as nat)),
        0 <= i < v.properties.len() ==> vertex_record(v)[1 + i] == value_cell(v.properties[i]),
{
}

/// The record of an edge is its number, that of its source, that of its destination, and its
/// properties in their order.
pub proof fn edge_records_hold_every_property(e: EdgeData, i: int)
    ensures
        edge_record(e).len() == 3 + e.properties.len(),
        edge_record(e)[0] == CellModel::Text(decimal(e.eid as nat)),
        edge_record(e)[1] == CellModel::Text(decimal(e.src_id as nat)),
        edge_record(e)[2] == CellModel::Text(decimal(e.dst_id as nat)),
        0 <= i < e.properties.len() ==> edge_record(e)[3 + i] == value_cell(e.properties[i]),
{
}

/// The last vertex with a label and a number is the one whose record stands in the file of the
/// label under the number; there is no other record.
pub proof fn last_vertex_with_a_number_is_written(
    vertices: Seq<VertexData>,
    label_id: LabelId,
    n: int,
    vid: u64,
)
    requires
        0 <= n <= vertices.len(),
    ensures
        vertex_records(vertices, label_id, n).dom().contains(vid) <==> exists|i: int|
            0 <= i < n && (#[trigger] vertices[i]).vid == vid && vertices[i].label_id == label_id,
        forall|i: int|
            0 <= i < n && (#[trigger] vertices[i]).vid == vid && vertices[i].label_id == label_id
                && (forall|j: int|
                i < j < n ==> !((#[trigger] vertices[j]).vid == vid && vertices[j].label_id
                    == label_id)) ==> vertex_records(vertices, label_id, n)[vid] == vertex_record(
                vertices[i],
            ),
    decreases n,
{
    if n > 0 {
        last_vertex_with_a_number_is_written(vertices, label_id, n - 1, vid);
        let last = vertices[n - 1];
        if !(last.vid == vid && last.label_id == label_id) {
            assert(vertex_records(vertices, label_id, n).dom().contains(vid)
                == vertex_records(vertices, label_id, n - 1).dom().contains(vid));
        }
    }
}

/// The last edge with a label and a number is the one whose record stands in the file of the label
/// under the number; there is no other record.
pub proof fn last_edge_with_a_number_is_written(
    edges: Seq<EdgeData>,
    label_id: LabelId,
    n: int,
    eid: u64,
)
    requires
        0 <= n <= edges.len(),
    ensures
        edge_records(edges, label_id, n).dom().contains(eid) <==> exists|i: int|
            0 <= i < n && (#[trigger] edges[i]).eid == eid && edges[i].label_id == label_id,
        forall|i: int|
            0 <= i < n && (#[trigger] edges[i]).eid == eid && edges[i].label_id == label_id && (
            forall|j: int|
                i < j < n ==> !((#[trigger] edges[j]).eid == eid && edges[j].label_id == label_id))
                ==> edge_records(edges, label_id, n)[eid] == edge_record(edges[i]),
    decreases n,
{
    if n > 0 {
        last_edge_with_a_number_is_written(edges, label_id, n - 1, eid);
        let last = edges[n - 1];
        if !(last.eid == eid && last.label_id == label_id) {
            assert(edge_records(edges, label_id, n).dom().contains(eid)
                == edge_records(edges, label_id, n - 1).dom().contains(eid));
        }
    }
}

/// The file of a label is the first one with the label.
pub proof fn first_file_with_a_label_is_found(
    files: Seq<(LabelId, Vec<(u64, Vec<Cell>)>)>,
    label_id: LabelId,
    from: int,
)
    requires
        0 <= from,
    ensures
        match file_index(files, label_id, from) {
            Some(k) => {
                &&& from <= k < files.len()
                &&& files[k].0 == label_id
                &&& forall|i: int| from <= i < k ==> (#[trigger] files[i]).0 != label_id
            },
            None => forall|i: int| from <= i < files.len() ==> (#[trigger] files[i]).0 != label_id,
        },
    decreases files.len() - from,
{
    if from < files.len() && files[from].0 != label_id {
        first_file_with_a_label_is_found(files, label_id, from + 1);
    }
}

/// The records of a label are those in its file, each under its own number; without a file there is
/// none.
pub proof fn files_hold_the_records_of_their_label(
    files: RecordFiles,
    label_id: LabelId,
    k: int,
    id: u64,
)
    requires
        files.wf(),
        0 <= k <= files.files@.len(),
        k < files.files@.len() ==> files.files@[k].0 == label_id,
        forall|i: int| 0 <= i < k ==> (#[trigger] files.files@[i]).0 != label_id,
    ensures
        k == files.files@.len() ==> !files.records_of(label_id).dom().contains(id),
        k < files.files@.len() ==> {
            let file = files.files@[k].1@;
            &&& files.records_of(label_id).dom().contains(id) <==> exists|i: int|
                0 <= i < file.len() && (#[trigger] file[i]).0 == id
            &&& forall|i: int|
                0 <= i < file.len() && (#[trigger] file[i]).0 == id ==> files.records_of(
                    label_id,
                )[id] == cell_models(file[i].1@)
        },
{
    first_file_with_a_label_is_found(files.files@, label_id, 0);
    if k < files.files@.len() {
        assert(file_index(files.files@, label_id, 0) == Some(k));
        lemma_file_map(files.files@[k].1@);
    }
}

// ---------------------------------------------------------------------------------------------
// Manifests
// ---------------------------------------------------------------------------------------------

/// A manifest is accepted exactly where no label occurs twice, the ends of the edges have labels of
/// vertices, and there are numbers for all the labels.
pub proof fn manifests_are_accepted(m: ManifestModel)
    ensures
        m.failure() is None <==> {
            &&& forall|i: int, j: int|
                0 <= i < j < m.vertices.len() ==> (#[trigger] m.vertices[i]).label
                    != (#[trigger] m.vertices[j]).label
            &&& forall|i: int, j: int|
                0 <= i < m.vertices.len() && 0 <= j < m.edges.len() ==> (
                #[trigger] m.vertices[i]).label != (#[trigger] m.edges[j]).label
            &&& forall|i: int, j: int|
                0 <= i < j < m.edges.len() ==> (#[trigger] m.edges[i]).label
                    != (#[trigger] m.edges[j]).label
            &&& forall|j: int|
                0 <= j < m.edges.len() ==> (exists|i: int|
                    0 <= i < m.vertices.len() && (#[trigger] m.vertices[i]).label
                        == m.edges[j].src_label) && (exists|i: int|
                    0 <= i < m.vertices.len() && (#[trigger] m.vertices[i]).label
                        == (#[trigger] m.edges[j]).dst_label)
            &&& m.vertices.len() + m.edges.len() < 0xffff_ffff
        },
{
    valid_manifests_do_not_fail(m);
    let v = m.vertices.len() as int;
    if m.is_valid() {
        assert forall|i: int, j: int| 0 <= i < j < v implies (#[trigger] m.vertices[i]).label != (
        #[trigger] m.vertices[j]).label by {
            assert(m.label_at(i) != m.label_at(j));
        }
        assert forall|i: int, j: int| 0 <= i < v && 0 <= j < m.edges.len() implies (
        #[trigger] m.vertices[i]).label != (#[trigger] m.edges[j]).label by {
            assert(m.label_at(i) != m.label_at(v + j));
        }
        assert forall|i: int, j: int| 0 <= i < j < m.edges.len() implies (
        #[trigger] m.edges[i]).label != (#[trigger] m.edges[j]).label by {
            assert(m.label_at(v + i) != m.label_at(v + j));
        }
        assert forall|j: int| 0 <= j < m.edges.len() implies (exists|i: int|
            0 <= i < v && (#[trigger] m.vertices[i]).label == m.edges[j].src_label) && (exists|
            i: int,
        |
            0 <= i < v && (#[trigger] m.vertices[i]).label == (
            #[trigger] m.edges[j]).dst_label) by {
            let a = choose|i: int| #[trigger] m.is_vertex_label(i, m.edges[j].src_label);
            let b = choose|i: int| #[trigger] m.is_vertex_label(i, m.edges[j].dst_label);
            assert(m.has_vertices(m.edges[j].src_label) && m.has_vertices(m.edges[j].dst_label));
            assert(m.vertices[a].label == m.edges[j].src_label);
            assert(m.vertices[b].label == m.edges[j].dst_label);
        }
    }
    if {
        &&& forall|i: int, j: int|
            0 <= i < j < m.vertices.len() ==> (#[trigger] m.vertices[i]).label
                != (#[trigger] m.vertices[j]).label
        &&& forall|i: int, j: int|
            0 <= i < m.vertices.len() && 0 <= j < m.edges.len() ==> (#[trigger] m.vertices[i]).label
                != (#[trigger] m.edges[j]).label
        &&& forall|i: int, j: int|
            0 <= i < j < m.edges.len() ==> (#[trigger] m.edges[i]).label
                != (#[trigger] m.edges[j]).label
        &&& forall|j: int|
            0 <= j < m.edges.len() ==> (exists|i: int|
                0 <= i < m.vertices.len() && (#[trigger] m.vertices[i]).label
                    == m.edges[j].src_label) && (exists|i: int|
                0 <= i < m.vertices.len() && (#[trigger] m.vertices[i]).label
                    == (#[trigger] m.edges[j]).dst_label)
        &&& m.vertices.len() + m.edges.len() < 0xffff_ffff
    } {
        assert forall|j: int| 0 <= j < m.edges.len() implies m.has_vertices(
            (#[trigger] m.edges[j]).src_label,
        ) && m.has_vertices(m.edges[j].dst_label) by {
            let a = choose|i: int|
                0 <= i < v && (#[trigger] m.vertices[i]).label == m.edges[j].src_label;
            let b = choose|i: int|
                0 <= i < v && (#[trigger] m.vertices[i]).label == m.edges[j].dst_label;
            assert(m.is_vertex_label(a, m.edges[j].src_label));
            assert(m.is_vertex_label(b, m.edges[j].dst_label));
        }
        assert forall|i: int, j: int| 0 <= i < j < m.size() implies #[trigger] m.label_at(i)
            != #[trigger] m.label_at(j) by {
            if j < v {
                assert(m.vertices[i].label != m.vertices[j].label);
            } else if i < v {
                assert(m.vertices[i].label != m.edges[j - v].label);
            } else {
                assert(m.edges[i - v].label != m.edges[j - v].label);
            }
        }
        assert(m.is_valid());
    }
}

/// What is reported of a manifest is wrong with it.
pub proof fn what_is_reported_is_wrong(m: ManifestModel, n: int, e: ImportFailure) -> (k: int)
    requires
        0 <= n <= m.vertices.len() + m.edges.len(),
        m.failure_below(n) == Some(e),
    ensures
        0 <= k < n,
        m.failure_below(k) is None,
        match e {
            ImportFailure::DuplicateLabel(label) => {
                &&& label == (if k < m.vertices.len() {
                    m.vertices[k].label
                } else {
                    m.edges[k - m.vertices.len()].label
                })
                &&& (exists|i: int|
                    0 <= i < k && i < m.vertices.len() && (#[trigger] m.vertices[i]).label == label)
                    || (exists|j: int|
                    0 <= j < k - m.vertices.len() && (#[trigger] m.edges[j]).label == label)
            },
            ImportFailure::UnknownLabel(label) => {
                &&& k >= m.vertices.len()
                &&& label == m.edges[k - m.vertices.len()].src_label || label == m.edges[k
                    - m.vertices.len()].dst_label
                &&& forall|i: int|
                    0 <= i < m.vertices.len() ==> (#[trigger] m.vertices[i]).label != label
                &&& label != m.edges[k - m.vertices.len()].src_label ==> exists|i: int|
                    0 <= i < m.vertices.len() && (#[trigger] m.vertices[i]).label == m.edges[k
                        - m.vertices.len()].src_label
                &&& forall|i: int|
                    0 <= i < m.vertices.len() ==> (#[trigger] m.vertices[i]).label != m.edges[k
                        - m.vertices.len()].label
                &&& forall|j: int|
                    0 <= j < k - m.vertices.len() ==> (#[trigger] m.edges[j]).label != m.edges[k
                        - m.vertices.len()].label
            },
            _ => false,
        },
    decreases n,
{
    let v = m.vertices.len() as int;
    match m.failure_below(n - 1) {
        Some(_) => what_is_reported_is_wrong(m, n - 1, e),
        None => {
            let k = n - 1;
            if m.repeats(k) {
                let i = choose|i: int| 0 <= i < k && #[trigger] m.label_at(i) == m.label_at(k);
                if i < v {
                    assert(m.vertices[i].label == m.label_at(k));
                } else {
                    assert(m.edges[i - v].label == m.label_at(k));
                }
            } else {
                let label = e->UnknownLabel_0;
                assert forall|i: int| 0 <= i < v implies (#[trigger] m.vertices[i]).label
                    != label by {
                    assert(m.is_vertex_label(i, label) == (m.vertices[i].label == label));
                }
                let spec = m.edges[k - v];
                if label != spec.src_label {
                    let i = choose|i: int| #[trigger] m.is_vertex_label(i, spec.src_label);
                    assert(m.vertices[i].label == spec.src_label);
                }
                assert forall|i: int| 0 <= i < v implies (#[trigger] m.vertices[i]).label
                    != spec.label by {
                    assert(m.label_at(i) != m.label_at(k));
                }
                assert forall|j: int| 0 <= j < k - v implies (#[trigger] m.edges[j]).label
                    != spec.label by {
                    assert(m.label_at(v + j) != m.label_at(k));
                }
            }
            k
        },
    }
}

/// That there are too many labels for their numbers is reported before anything else; else the first
/// label with which something is wrong counts.
pub proof fn too_many_labels_are_reported_first(m: ManifestModel)
    ensures
        m.vertices.len() + m.edges.len() >= 0xffff_ffff <==> m.failure() == Some(
            ImportFailure::TooManyLabels,
        ),
        m.vertices.len() + m.edges.len() < 0xffff_ffff ==> m.failure() == m.failure_below(
            (m.vertices.len() + m.edges.len()) as int,
        ),
{
    if m.vertices.len() + m.edges.len() < 0xffff_ffff {
        let n = (m.vertices.len() + m.edges.len()) as int;
        if let Some(e) = m.failure_below(n) {
            let k = what_is_reported_is_wrong(m, n, e);
        }
    }
}

/// The labels of a manifest are numbered from one on, those of the vertices first. Vertices have
/// the properties that the manifest gives them, and the types of edges join the types of the
/// vertices with the labels of their ends.
pub proof fn types_are_what_the_manifest_says(
    m: ManifestModel,
    g: GraphTypeModel,
    i: int,
    j: int,
    src: int,
    dst: int,
)
    requires
        m.is_valid(),
        m.is_graph_type(g),
        0 <= i < m.vertices.len(),
        0 <= j < m.edges.len(),
        0 <= src < m.vertices.len(),
        0 <= dst < m.vertices.len(),
        m.vertices[src].label == m.edges[j].src_label,
        m.vertices[dst].label == m.edges[j].dst_label,
    ensures
        g.next_label_id == 1 + m.vertices.len() + m.edges.len(),
        g.labels.dom().contains(m.vertices[i].label),
        g.labels[m.vertices[i].label].raw == i + 1,
        g.labels.dom().contains(m.edges[j].label),
        g.labels[m.edges[j].label].raw == m.vertices.len() + j + 1,
        g.vertex_types.len() == m.vertices.len(),
        g.vertex_types[i].0 == seq![g.labels[m.vertices[i].label]],
        g.vertex_types[i].1.labels == seq![g.labels[m.vertices[i].label]],
        g.vertex_types[i].1.properties == m.vertices[i].properties,
        g.edge_types.len() == m.edges.len(),
        g.edge_types[j].0 == seq![g.labels[m.edges[j].label]],
        g.edge_types[j].1.labels == seq![g.labels[m.edges[j].label]],
        g.edge_types[j].1.properties == m.edges[j].properties,
        g.edge_types[j].1.src == g.vertex_types[src].1,
        g.edge_types[j].1.dst == g.vertex_types[dst].1,
{
    let v = m.vertices.len() as int;
    assert(m.label_at(i) == m.vertices[i].label);
    assert(m.label_at(v + j) == m.edges[j].label);
    assert(m.is_vertex_label(src, m.edges[j].src_label));
    assert(m.is_vertex_label(dst, m.edges[j].dst_label));
    let a = m.vertex_position(m.edges[j].src_label);
    let b = m.vertex_position(m.edges[j].dst_label);
    assert(m.is_vertex_label(a, m.edges[j].src_label));
    assert(m.is_vertex_label(b, m.edges[j].dst_label));
    assert(m.label_at(a) == m.label_at(src));
    assert(m.label_at(b) == m.label_at(dst));
    assert(a == src && b == dst);
    assert(g.edge_types[j].1 == m.edge_type(j));
    assert(g.vertex_types[src].1 == m.vertex_type(src));
    assert(g.vertex_types[dst].1 == m.vertex_type(dst));
    assert(g.vertex_types[i].1 == m.vertex_type(i));
}

/// What is exported of vertices: a file named after their label, and the properties of their type.
pub proof fn manifests_describe_the_types_of_vertices(g: GraphTypeModel, i: int)
    requires
        1 <= g.next_label_id <= u32::MAX,
        can_export(g),
        0 <= i < manifest_of(g).vertices.len(),
    ensures
        ({
            let v = manifest_of(g).vertices[i];
            &&& g.labels.dom().contains(v.label)
            &&& model_of(g.edge_types, seq![g.labels[v.label]]) is None
            &&& model_of(g.vertex_types, seq![g.labels[v.label]]) matches Some(ty)
            &&& v.properties == ty.properties
            &&& v.path == v.label + ".csv"@
            &&& v.format == "csv"@
        }),
{
    lemma_manifest_label(g, i);
    lemma_number_below(g, g.next_label_id as int, i);
}

/// What is exported of edges: a file named after their label, the properties of their type, and the
/// labels of the types that they join, the source first.
pub proof fn manifests_describe_the_types_of_edges(g: GraphTypeModel, j: int)
    requires
        1 <= g.next_label_id <= u32::MAX,
        can_export(g),
        0 <= j < manifest_of(g).edges.len(),
    ensures
        ({
            let e = manifest_of(g).edges[j];
            &&& g.labels.dom().contains(e.label)
            &&& model_of(g.edge_types, seq![g.labels[e.label]]) matches Some(ty)
            &&& e.properties == ty.properties
            &&& ty.src.labels == seq![g.labels[e.src_label]]
            &&& ty.dst.labels == seq![g.labels[e.dst_label]]
            &&& e.path == e.label + ".csv"@
            &&& e.format == "csv"@
        }),
{
    let m = manifest_of(g);
    let k = m.vertices.len() + j;
    lemma_manifest_label(g, k);
    let id = g.labels[m.label_at(k)];
    lemma_edge_number_below(g, g.next_label_id as int, j);
    let ty = model_of(g.edge_types, seq![id])->0;
    assert(can_export_label(g, id));
    assert(is_vertex_set(g, ty.src.labels) && is_vertex_set(g, ty.dst.labels));
    let src = name_for(g, ty.src.labels[0])->0;
    let dst = name_for(g, ty.dst.labels[0])->0;
    assert(g.has_label(src, ty.src.labels[0]));
    assert(g.has_label(dst, ty.dst.labels[0]));
    assert(ty.src.labels =~= seq![g.labels[m.edges[j].src_label]]);
    assert(ty.dst.labels =~= seq![g.labels[m.edges[j].dst_label]]);
}

proof fn lemma_number_below(g: GraphTypeModel, n: int, i: int)
    requires
        1 <= n <= g.next_label_id <= u32::MAX,
        can_export(g),
        0 <= i < manifest_below(g, n).vertices.len(),
    ensures
        ({
            let id = g.labels[manifest_below(g, n).vertices[i].label];
            can_export_label(g, id) && 1 <= id.raw < n
        }),
    decreases n,
{
    if n > 1 {
        let before = manifest_below(g, n - 1);
        let id = label_id(n - 1);
        if i < before.vertices.len() {
            lemma_number_below(g, n - 1, i);
            assert(manifest_below(g, n).vertices[i] == before.vertices[i]);
        } else {
            assert(g.has_label(name_for(g, id)->0, id));
            assert(can_export_label(g, id));
        }
    }
}

proof fn lemma_edge_number_below(g: GraphTypeModel, n: int, j: int)
    requires
        1 <= n <= g.next_label_id <= u32::MAX,
        can_export(g),
        0 <= j < manifest_below(g, n).edges.len(),
    ensures
        ({
            let id = g.labels[manifest_below(g, n).edges[j].label];
            can_export_label(g, id) && 1 <= id.raw < n
        }),
    decreases n,
{
    if n > 1 {
        let before = manifest_below(g, n - 1);
        let id = label_id(n - 1);
        if j < before.edges.len() {
            lemma_edge_number_below(g, n - 1, j);
            assert(manifest_below(g, n).edges[j] == before.edges[j]);
        } else {
            assert(g.has_label(name_for(g, id)->0, id));
            assert(can_export_label(g, id));
        }
    }
}

} // verus!
