use std::collections::hash_map::DefaultHasher;
use std::hash::{Hash, Hasher};
use std::sync::Arc;

use minigu::catalog::graph_type::{MemoryGraphTypeCatalog, MemoryVertexTypeCatalog, Property};
use minigu::catalog::label_set::LabelSet;
use minigu::catalog::schema::{
    GraphContainer, GraphRef, Procedure, VectorIndexCatalog, VectorIndexCatalogEntry,
};
use minigu::common::data_type::{LabelSpecs, LogicalType};
use minigu::common::types::{LabelId, VectorIndexKey, VectorMetric};
use minigu::common::value::ScalarValue;
use minigu::planner::ast;
use minigu::planner::ast::{FloatTypeKind, NumericTypeKind, TemporalTypeKind, ValueType};
use minigu::planner::binder::catalog::{Binder, CatalogModifyingStatement};
use minigu::planner::binder::error::BindError;
use minigu::planner::binder::type_element::{
    bind_edge_type, bind_graph_element_type, bind_node_or_edge_filler, bind_node_type,
    bind_value_type, label_from_hash, string_to_label_id,
};
use minigu::planner::bound::{
    BoundCallProcedureStatement, BoundCatalogModifyingStatement, BoundEdgePattern,
    BoundEdgePatternKind, BoundElementPattern, BoundExpr, BoundExprKind, BoundGraphElementType,
    BoundGraphPattern, BoundGraphType, BoundPathPatternExpr, BoundVertexPattern, CreateKind,
    EdgeDirection, NamedGraphRef, NamedProcedureRef, NodeTypeRef,
};
use minigu::planner::error::PlanError;
use minigu::planner::logical_planner::LogicalPlanner;
use minigu::planner::optimizer::{
    extract_path_pattern, extract_path_pattern_from_graph_pattern, Optimizer, PathPatternInfo,
};
use minigu::planner::plan::catalog_modify::{CreateGraph, DropGraph};
use minigu::planner::plan::node::{ExpandDirection, Filter, Limit, Match, Offset, OneRow};
use minigu::planner::plan::{PlanBase, PlanNode};
use minigu::transaction::TxnOptions;

fn s(text: &str) -> String {
    text.to_string()
}

fn labels(raw: u32) -> LabelSpecs {
    Arc::new(vec![vec![LabelId::new(raw).unwrap()]])
}

fn vertex(var: &str, raw: u32) -> BoundPathPatternExpr {
    let pattern = BoundVertexPattern { var: s(var), label: labels(raw) };
    BoundPathPatternExpr::Pattern(BoundElementPattern::Vertex(Arc::new(pattern)))
}

fn edge(var: Option<&str>, kind: BoundEdgePatternKind, raw: u32) -> BoundPathPatternExpr {
    let pattern = BoundEdgePattern { var: var.map(s), kind, label: labels(raw) };
    BoundPathPatternExpr::Pattern(BoundElementPattern::Edge(Arc::new(pattern)))
}

fn constant() -> BoundExpr {
    BoundExpr {
        kind: BoundExprKind::Value(ScalarValue::Boolean(Some(true))),
        logical_type: LogicalType::Boolean,
        nullable: false,
    }
}

fn feature(error: PlanError) -> (String, Option<u32>) {
    match error {
        PlanError::NotImplemented(e) => (e.feature, e.issue),
    }
}

fn pattern(paths: Vec<BoundPathPatternExpr>) -> BoundGraphPattern {
    BoundGraphPattern { paths, predicate: None }
}

fn logical_match(pattern: BoundGraphPattern) -> PlanNode {
    PlanNode::LogicalMatch(Arc::new(Match { base: PlanBase::leaf(None), pattern }))
}

fn two_hops() -> BoundPathPatternExpr {
    BoundPathPatternExpr::Concat(vec![
        vertex("a", 1),
        edge(Some("e"), BoundEdgePatternKind::Right, 5),
        vertex("b", 2),
        edge(None, BoundEdgePatternKind::Left, 6),
        vertex("c", 3),
    ])
}

#[test]
fn paths_are_taken_apart() {
    match extract_path_pattern(&vertex("a", 1)).unwrap() {
        PathPatternInfo::SingleVertex { var, label_specs } => {
            assert_eq!(var, "a");
            assert_eq!(label_specs, labels(1));
        }
        other => panic!("{:?}", other),
    }
    match extract_path_pattern(&two_hops()).unwrap() {
        PathPatternInfo::Path { vertices, edges } => {
            assert_eq!(
                vertices,
                vec![(s("a"), labels(1)), (s("b"), labels(2)), (s("c"), labels(3))]
            );
            assert_eq!(
                edges,
                vec![
                    (Some(s("e")), labels(5), ExpandDirection::Outgoing),
                    (None, labels(6), ExpandDirection::Incoming),
                ]
            );
        }
        other => panic!("{:?}", other),
    }
}

#[test]
fn other_patterns_are_refused() {
    let cases = vec![
        (
            BoundPathPatternExpr::Concat(vec![]),
            "empty concat in path pattern",
        ),
        (
            BoundPathPatternExpr::Union(vec![]),
            "union of path patterns is not supported yet",
        ),
        (
            BoundPathPatternExpr::Alternation(vec![]),
            "alternation (A|B) in path pattern is not supported yet",
        ),
        (
            BoundPathPatternExpr::Quantified {
                path: Box::new(vertex("a", 1)),
                min: 0,
                max: None,
            },
            "quantified path (*, +, {m,n}) is not supported yet",
        ),
        (
            BoundPathPatternExpr::Optional(Box::new(vertex("a", 1))),
            "optional path (?) is not supported yet",
        ),
        (
            BoundPathPatternExpr::Subpath(Box::new(vertex("a", 1))),
            "sub path is not supported",
        ),
        (
            edge(None, BoundEdgePatternKind::Right, 1),
            "top-level single edge without anchors is not supported yet",
        ),
        (
            BoundPathPatternExpr::Concat(vec![BoundPathPatternExpr::Concat(vec![])]),
            "complex nest patterns in concat is not supported yet",
        ),
        (
            BoundPathPatternExpr::Concat(vec![
                vertex("a", 1),
                edge(None, BoundEdgePatternKind::Undirected, 1),
            ]),
            "edge direction Undirected is not supported in path pattern",
        ),
    ];
    for (expr, text) in cases {
        let error = feature(extract_path_pattern(&expr).unwrap_err());
        assert_eq!(error.0, text);
    }

    let two = pattern(vec![vertex("a", 1), vertex("b", 1)]);
    assert_eq!(
        feature(extract_path_pattern_from_graph_pattern(&two).unwrap_err()),
        (s("multiple paths in MATCH are not supported yet"), Some(1))
    );
    let filtered = BoundGraphPattern {
        paths: vec![vertex("a", 1)],
        predicate: Some(Arc::new(constant())),
    };
    assert_eq!(
        feature(extract_path_pattern_from_graph_pattern(&filtered).unwrap_err()).0,
        "MATCH with predicate (WHERE) is not supported yet"
    );
}

#[test]
fn matches_become_scans_and_expansions() {
    let plan = Optimizer::new()
        .create_physical_plan(&logical_match(pattern(vec![two_hops()])))
        .unwrap();
    let PlanNode::PhysicalExpand(second) = &plan else { panic!("{:?}", plan) };
    assert_eq!(second.target_var, Some(s("c")));
    assert_eq!(second.edge_var, None);
    assert_eq!(second.direction, ExpandDirection::Incoming);
    let PlanNode::PhysicalExpand(first) = &plan.children()[0] else { panic!("{:?}", plan) };
    assert_eq!(first.edge_var, Some(s("e")));
    assert_eq!(first.target_vertex_labels, Some(labels(2)));
    let PlanNode::PhysicalNodeScan(scan) = &plan.children()[0].children()[0] else {
        panic!("{:?}", plan)
    };
    assert_eq!(scan.var, "a");
    let names: Vec<String> =
        plan.schema().unwrap().fields.iter().map(|f| f.name.clone()).collect();
    assert_eq!(names, vec!["a", "e", "b", "", "c"]);
}

#[test]
fn logical_operators_are_planned() {
    let scan = logical_match(pattern(vec![vertex("a", 1)]));
    let filter = PlanNode::LogicalFilter(Arc::new(Filter::new(scan, Arc::new(constant()))));
    let offset = PlanNode::LogicalOffset(Arc::new(Offset::new(filter, 2)));
    let limit = PlanNode::LogicalLimit(Arc::new(Limit::new(offset, 7, false)));
    let plan = Optimizer::default().create_physical_plan(&limit).unwrap();
    let PlanNode::PhysicalLimit(top) = &plan else { panic!("{:?}", plan) };
    assert_eq!(top.limit, 7);
    let PlanNode::PhysicalOffset(below) = &plan.children()[0] else { panic!("{:?}", plan) };
    assert_eq!(below.offset, 2);
    assert!(matches!(plan.children()[0].children()[0], PlanNode::PhysicalFilter(_)));
    assert_eq!(plan.schema().unwrap().fields.len(), 1);

    let row = PlanNode::LogicalOneRow(Arc::new(OneRow { base: PlanBase::leaf(None) }));
    let planned = Optimizer::new().create_physical_plan(&row).unwrap();
    assert!(matches!(planned, PlanNode::PhysicalOneRow(_)));

    let bad = PlanNode::LogicalOffset(Arc::new(Offset::new(
        logical_match(pattern(vec![BoundPathPatternExpr::Union(vec![])])),
        1,
    )));
    assert_eq!(
        feature(Optimizer::new().create_physical_plan(&bad).unwrap_err()).0,
        "union of path patterns is not supported yet"
    );
}

#[test]
fn labels_come_from_hashes() {
    for name in ["Person", "", "KNOWS", "城市"] {
        let mut hasher = DefaultHasher::new();
        name.hash(&mut hasher);
        let low = (hasher.finish() % (1 << 32)) as u32;
        assert_eq!(string_to_label_id(name).get(), if low == 0 { 1 } else { low });
    }
    assert_ne!(string_to_label_id("Person"), string_to_label_id("KNOWS"));
    assert_eq!(label_from_hash(0x7_0000_0000).get(), 1);
    assert_eq!(label_from_hash(0x7_0000_0009).get(), 9);
}

fn property(name: &str, value_type: ast::ValueType) -> ast::FieldOrPropertyType {
    ast::FieldOrPropertyType { name: s(name), value_type }
}

#[test]
fn value_types_are_bound() {
    let signed = |kind| bind_value_type(&ValueType::SignedNumeric { kind, not_null: false });
    assert!(matches!(signed(NumericTypeKind::Int8), Ok(LogicalType::Int8)));
    assert!(matches!(signed(NumericTypeKind::Int64), Ok(LogicalType::Int64)));
    assert!(matches!(signed(NumericTypeKind::Int128), Err(_)));
    let unsigned = |kind| bind_value_type(&ValueType::UnsignedNumeric { kind, not_null: true });
    assert!(matches!(unsigned(NumericTypeKind::Int16), Ok(LogicalType::UInt16)));
    let float = |kind| bind_value_type(&ValueType::Float { kind, not_null: true });
    assert!(matches!(float(FloatTypeKind::Float32), Ok(LogicalType::Float32)));
    assert!(matches!(float(FloatTypeKind::Float256), Err(_)));
    let temporal = |kind| bind_value_type(&ValueType::Temporal { kind, not_null: true });
    assert!(matches!(temporal(TemporalTypeKind::Date), Ok(LogicalType::String)));
    assert!(matches!(temporal(TemporalTypeKind::Time), Err(BindError::UnsupportedValueType)));
    let vector = |text: &str| ValueType::Vector { dimension: s(text), not_null: true };
    assert!(matches!(bind_value_type(&vector("104")), Ok(LogicalType::Vector(104))));
    assert!(matches!(
        bind_value_type(&vector("1o4")),
        Err(BindError::InvalidInteger(text)) if text == "1o4"
    ));
    assert!(matches!(bind_value_type(&ValueType::Path), Err(BindError::UnsupportedValueType)));
}

#[test]
fn elements_are_bound() {
    let filler = || ast::NodeOrEdgeTypeFiller {
        label_set: Some(vec![s("Person"), s("Human"), s("Person")]),
        property_types: Some(vec![
            property("name", ast::ValueType::String { not_null: true }),
            property("ok", ast::ValueType::Bool { not_null: false }),
        ]),
    };
    let (set, fields) = bind_node_or_edge_filler(&filler()).unwrap();
    assert_eq!(set.ids.len(), 2);
    assert!(set.ids.contains(&string_to_label_id("Person")));
    assert_eq!(fields.len(), 2);
    assert!(!fields[0].is_nullable());
    assert!(fields[1].is_nullable());

    let node = bind_node_type(&ast::NodeType { name: Some(s("p")), filler: None }).unwrap();
    assert_eq!(node.name, Some(s("p")));
    assert!(node.labels.is_empty());

    let phrase = ast::EdgeType::Phrase(ast::EdgeTypePhrase {
        name: None,
        direction: ast::EdgeDirection::RightToLeft,
        left: s("x"),
        filler: Some(filler()),
        right: s("y"),
    });
    let bound = bind_edge_type(&phrase).unwrap();
    assert_eq!(bound.direction, EdgeDirection::RightToLeft);
    assert!(matches!(bound.left, NodeTypeRef::Alias(ref name) if name == "x"));
    assert!(matches!(bound.right, NodeTypeRef::Alias(ref name) if name == "y"));

    let bad = ast::GraphElementType::Node(ast::NodeType {
        name: None,
        filler: Some(ast::NodeOrEdgeTypeFiller {
            label_set: None,
            property_types: Some(vec![property("l", ast::ValueType::List)]),
        }),
    });
    assert!(matches!(bind_graph_element_type(&bad), Err(BindError::UnsupportedValueType)));
}

fn indexed_graph() -> GraphRef {
    let mut graph_type = MemoryGraphTypeCatalog::new();
    let person = graph_type.add_label(s("Person")).unwrap();
    let key = LabelSet::single(person);
    let properties = vec![
        Property::new(s("name"), LogicalType::String, true),
        Property::new(s("face"), LogicalType::Vector(4), true),
        Property::new(s("voice"), LogicalType::Vector(8), true),
    ];
    let ty = MemoryVertexTypeCatalog::new(key.clone(), properties);
    graph_type.add_vertex_type(key, Arc::new(ty));
    let mut container = GraphContainer::new(Arc::new(graph_type), TxnOptions::default());
    container.index_catalog = Some(Arc::new(VectorIndexCatalog {
        entries: vec![VectorIndexCatalogEntry {
            name: s("faces"),
            key: VectorIndexKey::new(person, 1),
            metric: VectorMetric::L2,
            dimension: 4,
        }],
    }));
    Arc::new(container)
}

fn create_index(name: &str, property: &str, quiet: bool) -> ast::CreateVectorIndexStatement {
    ast::CreateVectorIndexStatement {
        name: s(name),
        if_not_exists: quiet,
        binding: s("n"),
        label: s("Person"),
        property_binding: s("n"),
        property: s(property),
    }
}

#[test]
fn vector_indices_are_bound() {
    let mut lost = Binder { current_graph: None };
    assert!(matches!(
        lost.bind_create_vector_index_statement(&create_index("v", "voice", false)),
        Err(BindError::CurrentGraphNotSpecified)
    ));
    let mut binder = Binder { current_graph: Some(indexed_graph()) };
    let bound =
        binder.bind_create_vector_index_statement(&create_index("v", "voice", false)).unwrap();
    assert_eq!(bound.index_key, VectorIndexKey::new(LabelId::new(1).unwrap(), 2));
    assert_eq!(bound.dimension, 8);
    assert!(!bound.no_op);

    let mut mismatch = create_index("v", "voice", false);
    mismatch.property_binding = s("m");
    assert!(matches!(
        binder.bind_create_vector_index_statement(&mismatch),
        Err(BindError::CreateVectorIndexBindingMismatch { .. })
    ));
    let mut other = create_index("v", "voice", false);
    other.label = s("City");
    assert!(matches!(
        binder.bind_create_vector_index_statement(&other),
        Err(BindError::LabelNotFound(label)) if label == "City"
    ));
    assert!(matches!(
        binder.bind_create_vector_index_statement(&create_index("v", "age", false)),
        Err(BindError::PropertyNotFound { .. })
    ));
    assert!(matches!(
        binder.bind_create_vector_index_statement(&create_index("v", "name", false)),
        Err(BindError::PropertyNotVector { .. })
    ));
    assert!(matches!(
        binder.bind_create_vector_index_statement(&create_index("faces", "voice", false)),
        Err(BindError::VectorIndexNameAlreadyExists { name }) if name == "faces"
    ));
    assert!(matches!(
        binder.bind_create_vector_index_statement(&create_index("v", "face", false)),
        Err(BindError::VectorIndexAlreadyExists { .. })
    ));
    assert!(
        binder
            .bind_create_vector_index_statement(&create_index("faces", "face", true))
            .unwrap()
            .no_op
    );

    let drop = |name: &str, if_exists| ast::DropVectorIndexStatement { name: s(name), if_exists };
    let dropped = binder.bind_drop_vector_index_statement(&drop("faces", false)).unwrap();
    assert_eq!(dropped.metadata.unwrap().dimension, 4);
    assert!(!dropped.no_op);
    assert!(matches!(
        binder.bind_drop_vector_index_statement(&drop("v", false)),
        Err(BindError::VectorIndexNotFound { name }) if name == "v"
    ));
    assert!(binder.bind_drop_vector_index_statement(&drop("v", true)).unwrap().no_op);
    assert_eq!(LabelSet::single(LabelId::new(4).unwrap()).ids.len(), 1);
}

fn not_implemented<T: std::fmt::Debug>(result: Result<T, BindError>) -> String {
    match result {
        Err(BindError::NotImplemented(e)) => e.feature,
        other => panic!("{:?}", other),
    }
}

#[test]
fn catalog_statements_are_bound() {
    let mut binder = Binder { current_graph: None };
    let create = |path: Vec<String>, graph_type| ast::CreateGraphStatement {
        path,
        kind: ast::CreateGraphOrGraphTypeStatementKind::CreateOrReplace,
        graph_type,
    };
    let nested = create(vec![s("g")], ast::OfGraphType::Nested(vec![]));
    let bound = binder
        .bind_catalog_modifying_statement(CatalogModifyingStatement::CreateGraph(nested, None))
        .unwrap();
    let BoundCatalogModifyingStatement::CreateGraph(bound) = bound else { panic!("{:?}", bound) };
    assert_eq!(bound.name, "g");
    assert_eq!(bound.kind, CreateKind::CreateOrReplace);
    assert!(matches!(bound.graph_type, BoundGraphType::Nested(ref v) if v.is_empty()));
    assert!(bound.source.is_none());

    let object = indexed_graph();
    let copied = binder
        .bind_create_graph_statement(
            &create(vec![s("g")], ast::OfGraphType::Nested(vec![])),
            Some(Ok(NamedGraphRef { name: s("h"), object })),
        )
        .unwrap();
    assert_eq!(copied.source.unwrap().name, "h");

    let deep = create(vec![s("a"), s("g")], ast::OfGraphType::Nested(vec![]));
    assert!(matches!(
        binder.bind_create_graph_statement(&deep, None),
        Err(BindError::InvalidObjectReference(path)) if path.len() == 2
    ));
    assert_eq!(
        not_implemented(binder.bind_of_graph_type(&ast::OfGraphType::Any)),
        "ANY graph type"
    );
    assert_eq!(
        not_implemented(binder.bind_of_graph_type(&ast::OfGraphType::Like(vec![s("x")]))),
        "LIKE graph type"
    );
    assert_eq!(
        not_implemented(binder.bind_of_graph_type(&ast::OfGraphType::Ref(vec![s("x")]))),
        "graph type reference"
    );
    assert_eq!(
        not_implemented(binder.bind_create_schema_statement(&ast::CreateSchemaStatement {
            path: vec![],
            if_not_exists: false,
        })),
        "create schema statement"
    );
    assert_eq!(
        not_implemented(binder.bind_drop_schema_statement(&ast::DropSchemaStatement {
            path: vec![],
            if_exists: false,
        })),
        "drop schema statement"
    );
    let dropped = binder
        .bind_drop_graph_statement(&ast::DropGraphStatement { path: vec![s("g")], if_exists: true })
        .unwrap();
    assert_eq!(dropped.name, "g");
    assert!(dropped.if_exists);

    let call = |optional, schema| {
        CatalogModifyingStatement::Call(BoundCallProcedureStatement {
            optional,
            procedure: NamedProcedureRef {
                name: s("p"),
                object: Arc::new(Procedure { parameters: vec![], schema: None }),
            },
            args: Arc::new(vec![]),
            yield_schema: schema,
        })
    };
    assert!(binder.bind_catalog_modifying_statement(call(false, None)).is_ok());
    assert_eq!(
        not_implemented(binder.bind_catalog_modifying_statement(call(true, None))),
        "optional catalog modifying statements"
    );
    let columns = Arc::new(minigu::common::data_type::DataSchema::new(vec![]));
    assert!(matches!(
        binder.bind_catalog_modifying_statement(call(false, Some(columns))),
        Err(BindError::NotCatalogProcedure(name)) if name == "p"
    ));
}

#[test]
fn bound_statements_are_planned() {
    let planner = LogicalPlanner::new();
    let mut binder = Binder { current_graph: Some(indexed_graph()) };
    let statement = CatalogModifyingStatement::CreateVectorIndex(create_index("v", "voice", false));
    let bound = binder.bind_catalog_modifying_statement(statement).unwrap();
    let plan = planner.plan_catalog_modifying_statement(bound).unwrap();
    let PlanNode::LogicalCreateVectorIndex(ref create) = plan else { panic!("{:?}", plan) };
    assert_eq!(create.name, "v");
    assert_eq!(create.dimension, 8);
    let physical = Optimizer::new().create_physical_plan(&plan).unwrap();
    assert!(matches!(physical, PlanNode::PhysicalCreateVectorIndex(_)));

    let statement = CatalogModifyingStatement::DropGraph(ast::DropGraphStatement {
        path: vec![s("g")],
        if_exists: false,
    });
    let bound = binder.bind_catalog_modifying_statement(statement).unwrap();
    let plan = planner.plan_catalog_modifying_statement(bound).unwrap();
    assert!(matches!(plan, PlanNode::PhysicalDropGraph(ref d) if d.name == "g" && !d.if_exists));
}

#[test]
fn catalog_plans_are_explained() {
    let nested = || BoundGraphType::Nested(Vec::<BoundGraphElementType>::new());
    let create = |kind| CreateGraph::new(s("g"), kind, nested());
    assert_eq!(
        create(CreateKind::Create).explain(0),
        Some(s("CreateGraph: CREATE GRAPH g\n"))
    );
    assert_eq!(
        create(CreateKind::CreateIfNotExists).explain(1),
        Some(s("  CreateGraph: CREATE IF NOT EXISTS GRAPH g\n"))
    );
    assert_eq!(
        create(CreateKind::CreateOrReplace).explain(2),
        Some(s("    CreateGraph: CREATE OR REPLACE GRAPH g\n"))
    );
    assert_eq!(
        DropGraph::new(s("g"), true).explain(1),
        Some(s("  DropGraph: DROP GRAPH IF EXISTS g\n"))
    );
    assert_eq!(
        DropGraph::new(s("g"), false).explain(0),
        Some(s("DropGraph: DROP GRAPH g\n"))
    );
    assert!(create(CreateKind::Create).base().schema.is_none());
}
