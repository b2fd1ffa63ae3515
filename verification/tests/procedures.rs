use std::sync::Arc;

use minigu::catalog::graph_type::{
    MemoryEdgeTypeCatalog, MemoryGraphTypeCatalog, MemoryVertexTypeCatalog, Property,
};
use minigu::catalog::label_set::LabelSet;
use minigu::catalog::schema::{MemorySchemaCatalog, Procedure};
use minigu::common::data_type::LogicalType;
use minigu::common::types::LabelId;
use minigu::common::value::{F32, F64, ScalarValue, VectorValue};
use minigu::engine::procedures::build_predefined_procedures;
use minigu::engine::procedures::create_test_graph;
use minigu::engine::procedures::create_test_graph_data;
use minigu::engine::procedures::export_graph;
use minigu::engine::procedures::export_graph::{find_exported, RecordFiles};
use minigu::engine::procedures::field::{
    property_to_scalar_value, scalar_value_to_cell, unsigned, Cell, Field, ImportError,
};
use minigu::engine::procedures::import_graph;
use minigu::engine::procedures::import_graph::{build_properties, check_import, GraphImport};
use minigu::engine::procedures::manifest::{
    get_graph_type_from_manifest, EdgeSpec, FileSpec, Manifest, SchemaMetadata, VertexSpec,
};
use minigu::execution::error::ExecutionError;
use minigu::storage::model::{Edge, PropertyRecord, Vertex};
use minigu::transaction::{IsolationLevel, LockStrategy, TxnOptions};

fn s(text: &str) -> String {
    text.to_string()
}

fn text(value: &str) -> ScalarValue {
    ScalarValue::String(Some(s(value)))
}

fn field(value: &str) -> Field {
    Field {
        text: s(value),
        float32: value.parse::<f32>().ok().map(|x| F32 { bits: x.to_bits() }),
        float64: value.parse::<f64>().ok().map(|x| F64 { bits: x.to_bits() }),
    }
}

fn cell_text(cell: &Cell) -> String {
    match cell {
        Cell::Text(text) => text.clone(),
        Cell::Float32(x) => f32::from_bits(x.bits).to_string(),
        Cell::Float64(x) => f64::from_bits(x.bits).to_string(),
    }
}

fn optimistic() -> TxnOptions {
    TxnOptions { default_lock: LockStrategy::Optimistic, ..Default::default() }
}

fn empty_schema() -> Option<MemorySchemaCatalog> {
    Some(MemorySchemaCatalog::new(None))
}

fn message<T: std::fmt::Debug>(result: Result<T, ExecutionError>) -> String {
    match result {
        Err(ExecutionError::Custom(text)) => text,
        other => panic!("{:?}", other),
    }
}

#[test]
fn create_test_graph_uses_database_txn_options_default_lock() {
    let mut schema = empty_schema();
    create_test_graph::create_test_graph(&vec![text("g_opt")], &mut schema, optimistic()).unwrap();
    let container = schema.unwrap().get_graph("g_opt").expect("graph should exist");
    assert_eq!(container.txn_options.default_lock, LockStrategy::Optimistic);
}

#[test]
fn create_test_graph_reports_what_is_wrong() {
    let options = TxnOptions::default();
    let mut schema = empty_schema();
    let call = |name: ScalarValue, schema: &mut Option<MemorySchemaCatalog>| {
        create_test_graph::create_test_graph(&vec![name], schema, options)
    };
    assert_eq!(
        message(call(ScalarValue::String(None), &mut schema)),
        "graph name cannot be null"
    );
    assert_eq!(message(call(text("g"), &mut None)), "current schema not set");
    call(text("g"), &mut schema).unwrap();
    assert_eq!(message(call(text("g"), &mut schema)), "graph g already exists");
    assert_eq!(create_test_graph::build_procedure().parameters, vec![LogicalType::String]);
}

fn quotients() -> Vec<F32> {
    (0..create_test_graph_data::QUOTIENTS)
        .map(|k| F32 { bits: (k as f32 / 100.0).to_bits() })
        .collect()
}

#[test]
fn test_graph_data_has_persons_companies_and_cities() {
    let mut schema = empty_schema();
    let args = vec![text("g"), ScalarValue::Int8(Some(5))];
    let data = create_test_graph_data::create_test_graph_data(
        &args,
        &mut schema,
        TxnOptions::default(),
        &quotients(),
    )
    .unwrap();
    for (i, v) in data.vertices.iter().enumerate() {
        assert_eq!(v.vid, i as u64);
    }
    assert_eq!(data.vertices.len(), 4);
    let graph = schema.unwrap().get_graph("g").unwrap();
    let person = graph.graph_type.get_label_id("PERSON").unwrap();
    let friend = graph.graph_type.get_label_id("FRIEND").unwrap();
    let persons = data.vertices.iter().filter(|v| v.label_id == person).count();
    let friends = data.edges.iter().filter(|e| e.label_id == friend).count();
    assert_eq!(persons, 2);
    assert_eq!(friends, 4);
    for e in &data.edges {
        assert!(e.src_id < 4 && e.dst_id < 4);
    }
}

#[test]
fn test_graph_data_reports_what_is_wrong() {
    let mut schema = empty_schema();
    let call = |args: Vec<ScalarValue>, schema: &mut Option<MemorySchemaCatalog>| {
        create_test_graph_data::create_test_graph_data(
            &args,
            schema,
            TxnOptions::default(),
            &quotients(),
        )
    };
    let n = |n| ScalarValue::Int8(n);
    assert_eq!(
        message(call(vec![ScalarValue::String(None), n(Some(1))], &mut schema)),
        "graph name cannot be null"
    );
    assert_eq!(
        message(call(vec![text("g"), n(None)], &mut schema)),
        "num_vertices cannot be null"
    );
    assert_eq!(
        message(call(vec![text("g"), n(Some(-1))], &mut schema)),
        "num_vertices must be >= 0"
    );
    assert_eq!(
        message(call(vec![text("g"), n(Some(1))], &mut None)),
        "current schema not set"
    );
    call(vec![text("g"), n(Some(0))], &mut schema).unwrap();
    assert_eq!(
        message(call(vec![text("g"), n(Some(1))], &mut schema)),
        "graph `g` already exists"
    );
}

#[test]
fn embeddings_are_runs_of_quotients() {
    let vector = create_test_graph_data::build_embedding(&quotients(), 7, 3);
    let numbers: Vec<f32> = vector.data.iter().map(|x| f32::from_bits(x.bits)).collect();
    assert_eq!(numbers, vec![0.07, 0.08, 0.09]);
}

fn person_type() -> Arc<MemoryVertexTypeCatalog> {
    Arc::new(MemoryVertexTypeCatalog::new(
        LabelSet::single(LabelId::new(1).unwrap()),
        vec![
            Property::new(s("name"), LogicalType::String, false),
            Property::new(s("age"), LogicalType::Int32, false),
        ],
    ))
}

fn mock_graph_type() -> MemoryGraphTypeCatalog {
    let mut graph_type = MemoryGraphTypeCatalog::new();
    let person_id = graph_type.add_label(s("person")).unwrap();
    let friend_id = graph_type.add_label(s("friend")).unwrap();
    let follow_id = graph_type.add_label(s("follow")).unwrap();
    let vertex_type = person_type();
    graph_type.add_vertex_type(LabelSet::single(person_id), vertex_type.clone());
    for id in [friend_id, follow_id] {
        let date = Property::new(s("date"), LogicalType::String, false);
        let edge_type = MemoryEdgeTypeCatalog::new(
            LabelSet::single(id),
            vertex_type.clone(),
            vertex_type.clone(),
            vec![date],
        );
        graph_type.add_edge_type(LabelSet::single(id), Arc::new(edge_type));
    }
    graph_type
}

fn mock_graph() -> (Vec<Vertex>, Vec<Edge>) {
    let person = LabelId::new(1).unwrap();
    let friend = LabelId::new(2).unwrap();
    let follow = LabelId::new(3).unwrap();
    let vertex = |vid, name, age| {
        let properties = vec![text(name), ScalarValue::Int32(Some(age))];
        Vertex::new(vid, person, PropertyRecord::new(properties))
    };
    let edge = |eid, src, dst, label, date| {
        Edge::new(eid, src, dst, label, PropertyRecord::new(vec![text(date)]))
    };
    (
        vec![
            vertex(1, "Alice", 25),
            vertex(2, "Bob", 28),
            vertex(3, "Carol", 24),
            vertex(4, "David", 27),
        ],
        vec![
            edge(1, 1, 2, friend, "2020-01-01"),
            edge(2, 2, 3, friend, "2021-03-15"),
            edge(3, 1, 3, follow, "2022-06-01"),
            edge(4, 4, 1, follow, "2022-07-15"),
        ],
    )
}

type Files = Vec<(String, Vec<Vec<String>>)>;

fn export(
    vertices: &Vec<Vertex>,
    edges: &Vec<Edge>,
    graph_type: Arc<MemoryGraphTypeCatalog>,
) -> (Manifest, Files) {
    let mut written: Files = Vec::new();
    for files in [RecordFiles::of_vertices(vertices), RecordFiles::of_edges(edges)] {
        for (label, records) in &files.files {
            let rows =
                records.iter().map(|(_, row)| row.iter().map(cell_text).collect()).collect();
            written.push((graph_type.label_name(*label).unwrap(), rows));
            assert!(files.file(*label).is_some());
        }
    }
    written.sort();
    (Manifest::from_schema(SchemaMetadata::from_schema(graph_type)), written)
}

fn records(files: &Files, label: &str) -> Vec<Vec<Field>> {
    files
        .iter()
        .filter(|(name, _)| name == label)
        .flat_map(|(_, rows)| rows.iter())
        .map(|row| row.iter().map(|t| field(t)).collect())
        .collect()
}

fn import(manifest: &Manifest, files: &Files) -> GraphImport {
    let mut graph = GraphImport::new(manifest).unwrap();
    for spec in &manifest.vertices {
        graph.add_vertices(&spec.label, &records(files, &spec.label)).unwrap();
    }
    for spec in &manifest.edges {
        graph.add_edges(&spec.label, &records(files, &spec.label)).unwrap();
    }
    graph
}

fn spec_lines(manifest: &Manifest) -> Vec<String> {
    let mut lines: Vec<String> = manifest
        .vertices
        .iter()
        .map(|v| format!("{} {:?} {:?}", v.label, v.file, v.properties))
        .chain(manifest.edges.iter().map(|e| {
            format!("{} {} {} {:?} {:?}", e.label, e.src_label, e.dst_label, e.file, e.properties)
        }))
        .collect();
    lines.sort();
    lines
}

#[test]
fn test_export_and_import() {
    let (vertices, edges) = mock_graph();
    let (manifest1, files1) = export(&vertices, &edges, Arc::new(mock_graph_type()));
    let graph = import(&manifest1, &files1);
    let (manifest2, files2) = export(&graph.vertices, &graph.edges, Arc::new(graph.graph_type));
    assert_eq!(spec_lines(&manifest1), spec_lines(&manifest2));
    assert_eq!(files1, files2);
}

#[test]
fn exported_files_have_identifiers_first() {
    let (vertices, edges) = mock_graph();
    let (manifest, files) = export(&vertices, &edges, Arc::new(mock_graph_type()));
    assert_eq!(manifest.vertices.len(), 1);
    assert_eq!(manifest.vertices[0].file.path, "person.csv");
    assert_eq!(manifest.vertices[0].file.format, "csv");
    assert_eq!(manifest.edges.len(), 2);
    assert_eq!(files[2].0, "person");
    assert_eq!(files[2].1[0], vec!["1", "Alice", "25"]);
    assert_eq!(files[1].0, "friend");
    assert_eq!(files[1].1[1], vec!["2", "2", "3", "2021-03-15"]);
}

fn person_manifest() -> Manifest {
    Manifest {
        vertices: vec![VertexSpec::new(
            s("PERSON"),
            FileSpec::new(s("person.csv"), s("csv")),
            vec![],
        )],
        edges: vec![],
    }
}

#[test]
fn import_internal_uses_txn_options_default_lock() {
    let manifest = person_manifest();
    let mut graph = GraphImport::new(&manifest).unwrap();
    graph.add_vertex("PERSON", &vec![field("1")]).unwrap();
    let mut schema = empty_schema();
    let data = graph.register(&mut schema, "g", optimistic()).unwrap();
    assert_eq!(data.vertices.len(), 1);
    let container = schema.unwrap().get_graph("g").unwrap();
    assert_eq!(container.txn_options.default_lock, LockStrategy::Optimistic);
    assert_eq!(container.txn_options.default_isolation, IsolationLevel::Snapshot);
}

#[test]
fn imports_need_a_free_name() {
    let mut schema = empty_schema();
    assert_eq!(message(check_import(&None, "g")), "current schema not set");
    check_import(&schema, "g").unwrap();
    let graph = GraphImport::new(&person_manifest()).unwrap();
    graph.register(&mut schema, "g", TxnOptions::default()).unwrap();
    assert_eq!(message(check_import(&schema, "g")), "graph g already exists");
    assert!(find_exported(&schema, "g").is_ok());
    assert_eq!(message(find_exported(&schema, "h")), "graph type named with h not found");
    assert_eq!(message(find_exported(&None, "h")), "current schema not set");
}

#[test]
fn files_are_sorted_by_identifier() {
    let label = LabelId::new(4).unwrap();
    let other = LabelId::new(5).unwrap();
    let vertex = |vid, label, n| {
        Vertex::new(vid, label, PropertyRecord::new(vec![ScalarValue::Int32(Some(n))]))
    };
    let files = RecordFiles::of_vertices(&vec![
        vertex(9, label, 1),
        vertex(3, label, 2),
        vertex(3, other, 3),
        vertex(9, label, 4),
    ]);
    let rows = |label| -> Vec<Vec<String>> {
        files.file(label).unwrap().iter().map(|(_, r)| r.iter().map(cell_text).collect()).collect()
    };
    assert_eq!(rows(label), vec![vec!["3", "2"], vec!["9", "4"]]);
    assert_eq!(rows(other), vec![vec!["3", "3"]]);
    assert!(files.file(LabelId::new(6).unwrap()).is_none());
}

#[test]
fn imports_stop_at_the_first_wrong_record() {
    let mut graph = GraphImport::new(&person_manifest()).unwrap();
    let records = vec![vec![field("5")], vec![field("six")], vec![field("7")]];
    assert!(matches!(
        graph.add_vertices("PERSON", &records),
        Err(ImportError::InvalidInteger(text)) if text == "six"
    ));
    assert_eq!(graph.vertices.len(), 1);
    assert_eq!(graph.next_vid, 2);
}

#[test]
fn import_records_are_checked() {
    let manifest = Manifest {
        vertices: vec![VertexSpec::new(
            s("P"),
            FileSpec::new(s("p.csv"), s("csv")),
            vec![Property::new(s("age"), LogicalType::Int8, true)],
        )],
        edges: vec![EdgeSpec::new(
            s("K"),
            s("P"),
            s("P"),
            FileSpec::new(s("k.csv"), s("csv")),
            vec![],
        )],
    };
    let graph_type = get_graph_type_from_manifest(&manifest).unwrap();
    assert_eq!(graph_type.get_label_id("P"), LabelId::new(1));
    assert_eq!(graph_type.get_label_id("K"), LabelId::new(2));

    let mut graph = GraphImport::new(&manifest).unwrap();
    graph.add_vertex("P", &vec![field("70"), field("5")]).unwrap();
    graph.add_vertex("P", &vec![field("71"), field("")]).unwrap();
    assert!(matches!(
        graph.add_vertex("P", &vec![field("72"), field("300")]),
        Err(ImportError::InvalidInteger(text)) if text == "300"
    ));
    assert!(matches!(
        graph.add_vertex("P", &vec![field("x"), field("3")]),
        Err(ImportError::InvalidInteger(text)) if text == "x"
    ));
    graph.add_edge("K", &vec![field("9"), field("71"), field("70")]).unwrap();
    assert_eq!(graph.vertices[0].properties.get(0), Some(&ScalarValue::Int8(Some(5))));
    assert_eq!(graph.vertices[1].properties.get(0), Some(&ScalarValue::Int8(None)));
    assert_eq!(graph.edges[0].src_id, graph.vertices[1].vid);
    assert_eq!(graph.edges[0].dst_id, graph.vertices[0].vid);
}

#[test]
fn fields_are_read_by_type() {
    let read = |ty: LogicalType, nullable: bool, value: &str| {
        property_to_scalar_value(&Property::new(s("p"), ty, nullable), &field(value))
    };
    assert!(matches!(
        read(LogicalType::Boolean, true, "true"),
        Ok(ScalarValue::Boolean(Some(true)))
    ));
    assert!(matches!(
        read(LogicalType::Boolean, true, "yes"),
        Err(ImportError::InvalidBoolean(_))
    ));
    let Ok(ScalarValue::Float32(Some(x))) = read(LogicalType::Float32, true, "1.5") else {
        panic!("a number");
    };
    assert_eq!(f32::from_bits(x.bits), 1.5);
    assert!(matches!(
        read(LogicalType::Float64, true, "one"),
        Err(ImportError::InvalidFloat(_))
    ));
    assert!(matches!(read(LogicalType::String, true, ""), Ok(ScalarValue::String(None))));
    assert!(matches!(
        read(LogicalType::String, false, ""),
        Ok(ScalarValue::String(Some(t))) if t.is_empty()
    ));
    assert!(matches!(read(LogicalType::Null, true, ""), Ok(ScalarValue::Null)));
    assert!(matches!(read(LogicalType::Null, true, "x"), Err(ImportError::NotEmpty)));
    assert!(matches!(
        read(LogicalType::Vector(3), true, ""),
        Err(ImportError::NotImplemented(e)) if e.feature.is_empty() && e.issue.is_none()
    ));
    assert!(matches!(unsigned(&field("256"), 255), Err(ImportError::InvalidInteger(_))));
    let properties = vec![
        Property::new(s("a"), LogicalType::UInt64, true),
        Property::new(s("b"), LogicalType::Int16, true),
    ];
    let record = vec![field("id"), field("18446744073709551615"), field("-9")];
    assert_eq!(
        build_properties(&properties, &record, 1).unwrap(),
        vec![ScalarValue::UInt64(Some(u64::MAX)), ScalarValue::Int16(Some(-9))]
    );
}

#[test]
fn values_are_written_as_cells() {
    let t = |value: ScalarValue| cell_text(&scalar_value_to_cell(&value));
    assert_eq!(t(ScalarValue::Int64(Some(i64::MIN))), "-9223372036854775808");
    assert_eq!(t(ScalarValue::UInt8(Some(7))), "7");
    assert_eq!(t(ScalarValue::Boolean(Some(false))), "false");
    assert_eq!(t(ScalarValue::Int8(None)), "");
    assert_eq!(t(ScalarValue::Null), "");
    assert_eq!(t(text("a,b")), "a,b");
    let half = F64 { bits: 0.5f64.to_bits() };
    assert_eq!(scalar_value_to_cell(&ScalarValue::Float64(Some(half))), Cell::Float64(half));
    assert_eq!(t(ScalarValue::Vector(None::<VectorValue>)), "");
}

#[test]
fn predefined_procedures_without_files() {
    let none = || Procedure { parameters: vec![], schema: None };
    let procedures = build_predefined_procedures(none(), none(), none(), false);
    let names: Vec<&str> = procedures.iter().map(|(name, _)| name.as_str()).collect();
    assert_eq!(
        names,
        vec!["echo", "show_procedures", "create_test_graph", "create_test_graph_data", "show_graph"]
    );
}

#[test]
fn predefined_procedures_have_names_and_parameters() {
    let none = || Procedure { parameters: vec![], schema: None };
    let procedures = build_predefined_procedures(none(), none(), none(), true);
    let names: Vec<&str> = procedures.iter().map(|(name, _)| name.as_str()).collect();
    let mut sorted = names.clone();
    sorted.sort();
    assert_eq!(
        sorted,
        vec![
            "create_test_graph",
            "create_test_graph_data",
            "echo",
            "export_graph",
            "import_graph",
            "show_graph",
            "show_procedures",
        ]
    );
    assert_eq!(
        create_test_graph_data::build_procedure().parameters,
        vec![LogicalType::String, LogicalType::Int8]
    );
    assert_eq!(
        import_graph::build_procedure().parameters,
        vec![LogicalType::String, LogicalType::String]
    );
    assert_eq!(
        export_graph::build_procedure().parameters,
        vec![LogicalType::String, LogicalType::String, LogicalType::String]
    );
}

#[test]
fn wrong_files_are_refused() {
    let file = || FileSpec::new(s("f.csv"), s("csv"));
    let person = || {
        let age = Property::new(s("age"), LogicalType::Int32, false);
        VertexSpec::new(s("PERSON"), file(), vec![age])
    };
    let knows = |label: &str, dst: &str| {
        EdgeSpec::new(s(label), s("PERSON"), s(dst), file(), vec![])
    };
    let manifest =
        Manifest { vertices: vec![person()], edges: vec![knows("KNOWS", "PERSON")] };

    let mut graph = GraphImport::new(&manifest).unwrap();
    assert!(matches!(
        graph.add_vertex("PERSON", &vec![field("1")]),
        Err(ImportError::RecordLength(1))
    ));
    assert!(matches!(
        graph.add_vertex("PERSON", &vec![field("1"), field("2"), field("3")]),
        Err(ImportError::RecordLength(3))
    ));
    assert!(matches!(graph.add_vertex("PERSON", &vec![]), Err(ImportError::RecordLength(0))));
    assert!(graph.vertices.is_empty());
    graph.add_vertex("PERSON", &vec![field("1"), field("30")]).unwrap();
    assert!(matches!(
        graph.add_edge("KNOWS", &vec![field("1"), field("1")]),
        Err(ImportError::RecordLength(2))
    ));
    assert!(matches!(
        graph.add_edge("KNOWS", &vec![field("1"), field("1"), field("2")]),
        Err(ImportError::UnknownVertex(2))
    ));
    assert!(matches!(
        graph.add_edge("PERSON", &vec![field("1"), field("1"), field("1")]),
        Err(ImportError::UnknownLabel(label)) if label == "PERSON"
    ));
    assert!(matches!(
        graph.add_vertices("CITY", &vec![vec![field("1")]]),
        Err(ImportError::UnknownLabel(label)) if label == "CITY"
    ));
    assert!(graph.edges.is_empty());
    graph.add_edge("KNOWS", &vec![field("1"), field("1"), field("1")]).unwrap();

    let twice = Manifest { vertices: vec![person(), person()], edges: vec![] };
    assert!(matches!(
        GraphImport::new(&twice),
        Err(ImportError::DuplicateLabel(label)) if label == "PERSON"
    ));
    let both = Manifest { vertices: vec![person()], edges: vec![knows("PERSON", "PERSON")] };
    assert!(matches!(
        get_graph_type_from_manifest(&both),
        Err(ImportError::DuplicateLabel(label)) if label == "PERSON"
    ));
    let loose = Manifest { vertices: vec![person()], edges: vec![knows("KNOWS", "CITY")] };
    assert!(matches!(
        get_graph_type_from_manifest(&loose),
        Err(ImportError::UnknownLabel(label)) if label == "CITY"
    ));
}

#[test]
fn imported_graphs_are_numbered_anew() {
    let (mut vertices, mut edges) = mock_graph();
    for vertex in &mut vertices {
        vertex.vid += 70;
    }
    for edge in &mut edges {
        edge.eid += 40;
        edge.src_id += 70;
        edge.dst_id += 70;
    }
    let (manifest, files) = export(&vertices, &edges, Arc::new(mock_graph_type()));
    let graph = import(&manifest, &files);
    assert_eq!(graph.vertices.len(), vertices.len());
    assert_eq!(graph.edges.len(), edges.len());
    for (i, vertex) in graph.vertices.iter().enumerate() {
        assert_eq!(vertex.vid, 1 + i as u64);
        let old = vertices.iter().find(|v| graph.vid_mapping[&v.vid] == vertex.vid).unwrap();
        assert_eq!(vertex.properties, old.properties);
    }
    for old in &edges {
        let src = graph.vid_mapping[&old.src_id];
        let dst = graph.vid_mapping[&old.dst_id];
        let name = mock_graph_type().label_name(old.label_id).unwrap();
        let label = graph.graph_type.get_label_id(&name).unwrap();
        assert!(graph.edges.iter().any(|e| {
            e.label_id == label
                && e.src_id == src
                && e.dst_id == dst
                && e.properties == old.properties
        }));
    }
}
