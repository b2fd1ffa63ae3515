use std::sync::Arc;

use minigu::catalog::graph_type::MemoryGraphTypeCatalog;
use minigu::catalog::label_set::LabelSet;
use minigu::catalog::schema::{GraphContainer, GraphRef, MemorySchemaCatalog};
use minigu::common::data_type::{DataField, DataSchema, LabelSpecs, LogicalType};
use minigu::common::types::{LabelId, VectorMetric};
use minigu::common::value::ScalarValue;
use minigu::execution::builder::{Column, Executor, ExecutorBuilder};
use minigu::execution::catalog_modify::{
    build_graph_container, convert_fields_to_properties, create_graph_impl, drop_graph_impl,
};
use minigu::execution::error::ExecutionError;
use minigu::execution::evaluator::{build_evaluator, qualified_name, Evaluator};
use minigu::execution::lines::text_lines;
use minigu::planner::bound::{
    BoundEdgeType, BoundExpr, BoundExprKind, BoundGraphElementType, BoundGraphType,
    BoundVertexType, CreateKind, EdgeDirection, NodeOrEdgeTypeFiller, NodeTypeRef,
};
use minigu::planner::plan::catalog_modify::{CreateGraph, DropGraph};
use minigu::planner::plan::node::{
    Expand, ExpandDirection, Explain, Filter, Limit, NodeIdScan, Offset, OneRow, Project,
};
use minigu::planner::plan::{PlanBase, PlanNode};
use minigu::transaction::TxnOptions;

fn s(text: &str) -> String {
    text.to_string()
}

fn id(raw: u32) -> LabelId {
    LabelId::new(raw).unwrap()
}

fn labels(raw: u32) -> LabelSpecs {
    Arc::new(vec![vec![id(raw)]])
}

fn graph() -> GraphRef {
    let graph_type = Arc::new(MemoryGraphTypeCatalog::new());
    Arc::new(GraphContainer::new(graph_type, TxnOptions::default()))
}

fn expr(kind: BoundExprKind) -> BoundExpr {
    BoundExpr { kind, logical_type: LogicalType::Int64, nullable: true }
}

fn column(name: &str) -> DataField {
    DataField::new(s(name), LogicalType::Int64, true)
}

#[test]
fn lines_are_split_like_a_file() {
    let lines = |text: &str| text_lines(text);
    assert_eq!(lines(""), Vec::<String>::new());
    assert_eq!(lines("a"), vec!["a"]);
    assert_eq!(lines("a\n"), vec!["a"]);
    assert_eq!(lines("a\r\nb\n\nc"), vec!["a", "b", "", "c"]);
    assert_eq!(lines("\n"), vec![""]);
    assert_eq!(lines("a\r"), vec!["a\r"]);
}

#[test]
fn expressions_become_evaluators() {
    let schema = DataSchema::new(vec![column("x"), column("n_age"), column("y")]);
    assert_eq!(qualified_name("n", "age"), "n_age");
    let value = expr(BoundExprKind::Value(ScalarValue::Int64(Some(3))));
    assert!(matches!(
        build_evaluator(&value, &schema),
        Evaluator::Constant(ScalarValue::Int64(Some(3)))
    ));
    let variable = expr(BoundExprKind::Variable(s("y")));
    assert!(matches!(build_evaluator(&variable, &schema), Evaluator::ColumnRef(2)));
    let property = expr(BoundExprKind::Property { binding: s("n"), property: s("age") });
    assert!(matches!(build_evaluator(&property, &schema), Evaluator::ColumnRef(1)));
    let distance = expr(BoundExprKind::VectorDistance {
        lhs: Arc::new(expr(BoundExprKind::Variable(s("x")))),
        rhs: Arc::new(expr(BoundExprKind::Variable(s("y")))),
        metric: VectorMetric::L2,
        dimension: 4,
    });
    let Evaluator::VectorDistance { lhs, rhs, dimension, .. } =
        build_evaluator(&distance, &schema)
    else {
        panic!("a distance");
    };
    assert!(matches!(*lhs, Evaluator::ColumnRef(0)));
    assert!(matches!(*rhs, Evaluator::ColumnRef(2)));
    assert_eq!(dimension, 4);
}

#[test]
fn vertices_are_put_together_from_columns() {
    let schema = DataSchema::new(vec![column("n_age"), column("n"), column("n_name")]);
    let fields = Arc::new(vec![
        DataField::new(s("name"), LogicalType::String, true),
        DataField::new(s("age"), LogicalType::Int64, true),
    ]);
    let vertex = BoundExpr {
        kind: BoundExprKind::Variable(s("n")),
        logical_type: LogicalType::Vertex(fields),
        nullable: false,
    };
    let Evaluator::VertexConstructor { vid_index, property_column_indices, property_names, .. } =
        build_evaluator(&vertex, &schema)
    else {
        panic!("a vertex");
    };
    assert_eq!(vid_index, 1);
    assert_eq!(property_column_indices, vec![2, 0]);
    assert_eq!(property_names, vec!["name", "age"]);
}

#[test]
fn paths_become_scans_expansions_and_flattenings() {
    let scan = PlanNode::PhysicalNodeScan(Arc::new(NodeIdScan::new("a", labels(1))));
    let expand = PlanNode::PhysicalExpand(Arc::new(Expand::new(
        scan,
        0,
        labels(5),
        Some(labels(2)),
        Some(s("e")),
        Some(s("b")),
        ExpandDirection::Outgoing,
    )));
    let offset = PlanNode::PhysicalOffset(Arc::new(Offset::new(expand, 3)));
    let limit = PlanNode::PhysicalLimit(Arc::new(Limit::new(offset, 9, false)));
    let executor = ExecutorBuilder::new(Some(graph())).build(&limit);
    let Executor::Limit { child, limit } = executor else { panic!("a limit") };
    assert_eq!(limit, 9);
    let Executor::Offset { child, offset } = *child else { panic!("an offset") };
    assert_eq!(offset, 3);
    let Executor::Flatten { child, column_indices } = *child else { panic!("a flattening") };
    assert_eq!(column_indices, vec![1, 2]);
    let Executor::Expand { child, input_column_index, edge_labels, target_vertex_labels, .. } =
        *child
    else {
        panic!("an expansion");
    };
    assert_eq!(input_column_index, 0);
    assert_eq!(edge_labels, labels(5));
    assert_eq!(target_vertex_labels, Some(labels(2)));
    assert!(matches!(*child, Executor::VertexScan { batch_size: 1024, .. }));
}

#[test]
fn rows_are_filtered_and_projected() {
    let zero = DataField::new(s("zero"), LogicalType::Int32, false);
    let schema = Some(Arc::new(DataSchema::new(vec![zero])));
    let one = PlanNode::PhysicalOneRow(Arc::new(OneRow { base: PlanBase::leaf(schema) }));
    let Executor::Values { columns } = ExecutorBuilder::new(None).build(&one) else {
        panic!("values");
    };
    assert!(matches!(&columns[0], Column::Int32(v) if *v == vec![0]));

    let scan = PlanNode::PhysicalNodeScan(Arc::new(NodeIdScan::new("a", labels(1))));
    let predicate = Arc::new(expr(BoundExprKind::Variable(s("a"))));
    let filter = PlanNode::PhysicalFilter(Arc::new(Filter::new(scan, predicate)));
    let project = PlanNode::PhysicalProject(Arc::new(Project::new(
        filter,
        Arc::new(vec![
            expr(BoundExprKind::Variable(s("a"))),
            expr(BoundExprKind::Value(ScalarValue::Int64(Some(1)))),
        ]),
        Arc::new(DataSchema::new(vec![column("a"), column("one")])),
    )));
    let Executor::Project { child, evaluators } = ExecutorBuilder::new(Some(graph())).build(&project)
    else {
        panic!("a projection");
    };
    assert_eq!(evaluators.len(), 2);
    let Executor::Filter { predicate, .. } = *child else { panic!("a filter") };
    assert!(matches!(predicate, Evaluator::ColumnRef(0)));

    let explain = PlanNode::PhysicalExplain(Arc::new(Explain {
        base: PlanBase::leaf(None),
        text: Some(s("Limit\n  Scan\n")),
    }));
    let Executor::Values { columns } = ExecutorBuilder::new(None).build(&explain) else {
        panic!("values");
    };
    assert!(matches!(&columns[0], Column::Text(v) if *v == vec!["Limit", "  Scan"]));
}

fn set(raw: &[u32]) -> LabelSet {
    LabelSet::from_ids(&raw.iter().map(|r| id(*r)).collect())
}

fn vertex_type(name: Option<&str>, raw: &[u32]) -> BoundGraphElementType {
    BoundGraphElementType::Vertex(Box::new(BoundVertexType {
        name: name.map(s),
        key: set(raw),
        labels: set(raw),
        properties: vec![column("age")],
    }))
}

fn edge_type(raw: &[u32], left: NodeTypeRef, right: NodeTypeRef) -> BoundGraphElementType {
    BoundGraphElementType::Edge(Box::new(BoundEdgeType {
        name: None,
        key: set(raw),
        labels: set(raw),
        properties: vec![],
        direction: EdgeDirection::LeftToRight,
        left,
        right,
    }))
}

fn filler(raw: Option<&[u32]>) -> NodeTypeRef {
    NodeTypeRef::Filler(NodeOrEdgeTypeFiller {
        key: raw.map(set),
        label_set: raw.map(set),
        properties: None,
    })
}

fn create(kind: CreateKind, elements: Vec<BoundGraphElementType>) -> CreateGraph {
    CreateGraph::new(s("g"), kind, BoundGraphType::Nested(elements))
}

fn message<T: std::fmt::Debug>(result: Result<T, ExecutionError>) -> String {
    match result {
        Err(ExecutionError::Custom(text)) => text,
        other => panic!("{:?}", other),
    }
}

#[test]
fn graphs_are_created_and_dropped() {
    let mut schema = Some(MemorySchemaCatalog::new(None));
    let plan = create(
        CreateKind::Create,
        vec![
            vertex_type(Some("P"), &[70]),
            edge_type(&[90], filler(Some(&[70])), filler(Some(&[71]))),
        ],
    );
    create_graph_impl(&plan, &mut schema).unwrap();
    let first = schema.as_ref().unwrap().get_graph("g").unwrap();
    assert_eq!(first.graph_type.vertex_types.len(), 2);
    assert_eq!(first.graph_type.edge_types.len(), 1);
    assert_eq!(
        message(create_graph_impl(&plan, &mut schema)),
        "Graph 'g' already exists"
    );
    create_graph_impl(&create(CreateKind::CreateIfNotExists, vec![]), &mut schema).unwrap();
    assert!(Arc::ptr_eq(&first, &schema.as_ref().unwrap().get_graph("g").unwrap()));
    create_graph_impl(&create(CreateKind::CreateOrReplace, vec![]), &mut schema).unwrap();
    assert!(!Arc::ptr_eq(&first, &schema.as_ref().unwrap().get_graph("g").unwrap()));

    drop_graph_impl(&DropGraph::new(s("g"), false), &mut schema).unwrap();
    assert!(schema.as_ref().unwrap().get_graph("g").is_none());
    drop_graph_impl(&DropGraph::new(s("g"), true), &mut schema).unwrap();
    assert_eq!(
        message(drop_graph_impl(&DropGraph::new(s("g"), false), &mut schema)),
        "Graph 'g' does not exist"
    );
    assert_eq!(message(create_graph_impl(&plan, &mut None)), "No current schema set");
    assert_eq!(
        message(drop_graph_impl(&DropGraph::new(s("g"), false), &mut None)),
        "No current schema set"
    );
}

#[test]
fn incomplete_graph_types_are_refused() {
    let refused = |elements| message(build_graph_container(&create(CreateKind::Create, elements)));
    assert_eq!(
        refused(vec![vertex_type(None, &[])]),
        "Vertex type must have at least one label"
    );
    assert_eq!(
        refused(vec![edge_type(&[], filler(Some(&[1])), filler(Some(&[1])))]),
        "Edge type must have at least one label"
    );
    assert_eq!(
        refused(vec![edge_type(&[2], NodeTypeRef::Empty, filler(Some(&[1])))]),
        "Cannot resolve vertex type from empty node reference"
    );
    assert_eq!(
        refused(vec![edge_type(&[2], filler(None), filler(Some(&[1])))]),
        "Filler must have label_set"
    );
    let alias = create(
        CreateKind::Create,
        vec![edge_type(&[2], NodeTypeRef::Alias(s("Q")), filler(Some(&[1])))],
    );
    let named = build_graph_container(&alias).unwrap();
    assert_eq!(named.graph_type.get_label_id("Q"), LabelId::new(1));
    let by_name = CreateGraph::new(s("g"), CreateKind::Create, BoundGraphType::Ref(s("t")));
    assert_eq!(
        message(build_graph_container(&by_name)),
        "Only nested graph type definitions are supported"
    );
    let properties = convert_fields_to_properties(&vec![column("age")]);
    assert_eq!(properties[0].name(), "age");
    assert!(properties[0].nullable());
}

#[test]
fn catalog_plans_run_without_rows() {
    let mut schema = Some(MemorySchemaCatalog::new(None));
    let plan = PlanNode::PhysicalCreateGraph(Arc::new(create(CreateKind::Create, vec![])));
    for expected in [None, Some(ExecutionError::Custom(s("Graph 'g' already exists")))] {
        let Executor::CreateGraph(builder) = ExecutorBuilder::new(None).build(&plan) else {
            panic!("a creation");
        };
        assert_eq!(builder.run(&mut schema), expected);
    }
    let plan = PlanNode::PhysicalDropGraph(Arc::new(DropGraph::new(s("g"), false)));
    for expected in [None, Some(ExecutionError::Custom(s("Graph 'g' does not exist")))] {
        let Executor::DropGraph(builder) = ExecutorBuilder::new(None).build(&plan) else {
            panic!("a removal");
        };
        assert_eq!(builder.run(&mut schema), expected);
    }
}
