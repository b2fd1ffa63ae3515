//! Building executors.

use vstd::prelude::*;
use std::sync::Arc;
use crate::catalog::graph_type::{type_of, MemoryGraphTypeCatalog, Property};
use crate::catalog::label_set::{label_set_of, LabelSet};
use crate::catalog::schema::{GraphRef, ProcedureRef};
use crate::common::data_type::{
    copy_fields, field_index, DataField, DataSchema, LabelSpecs, LogicalType,
};
use crate::common::value::ScalarValue;
use crate::execution::catalog_modify::{CreateGraphBuilder, DropGraphBuilder};
use crate::execution::evaluator::{
    build_evaluator, can_evaluate, evaluates, label_of, names_of, qualified, qualified_name,
    Evaluator,
};
use crate::execution::lines::{lines_from, text_lines};
use crate::planner::bound::{
    BoundCatalogModifyingStatement, BoundExpr, BoundExprKind, NullOrdering, SortOrdering,
};
use crate::planner::logical_planner::catalog::is_catalog_plan;
use crate::planner::optimizer::{is_path_plan, is_physical_of, path_plan_columns};
use crate::planner::plan::node::{
    lemma_inputs_smaller, CreateVectorIndex, DropVectorIndex, ExpandDirection, Project,
    VectorIndexQuery,
};
use crate::planner::plan::PlanNode;

verus! {

/// The number of rows in a chunk that a sort gives out.
pub const DEFAULT_CHUNK_SIZE: usize = 2048;

/// The number of vertices that a scan reads at a time.
pub const SCAN_BATCH_SIZE: usize = 1024;

/// A column of values.
#[derive(Debug)]
pub enum Column {
    Int32(Vec<i32>),
    Text(Vec<String>),
}

#[derive(Debug)]
pub struct SortSpec {
    pub key: Evaluator,
    pub ordering: SortOrdering,
    pub null_ordering: NullOrdering,
}

#[derive(Debug)]
pub struct JoinKeys {
    pub left: Evaluator,
    pub right: Evaluator,
}

/// What runs a plan.
#[derive(Debug)]
pub enum Executor {
    Filter { child: Box<Executor>, predicate: Evaluator },
    VertexScan { graph: GraphRef, labels: LabelSpecs, batch_size: usize },
    /// Adds a list of edges and a list of vertices to every row.
    Expand {
        child: Box<Executor>,
        input_column_index: usize,
        edge_labels: LabelSpecs,
        target_vertex_labels: Option<LabelSpecs>,
        graph: GraphRef,
    },
    /// Gives every element of the lists in columns a row of its own.
    Flatten { child: Box<Executor>, column_indices: Vec<usize> },
    VertexPropertyScan {
        child: Box<Executor>,
        vid_index: usize,
        property_ids: Arc<Vec<u32>>,
        graph: GraphRef,
    },
    Project { child: Box<Executor>, evaluators: Vec<Evaluator> },
    ProcedureCall { procedure: ProcedureRef, args: Arc<Vec<ScalarValue>> },
    /// A single chunk.
    Values { columns: Vec<Column> },
    Sort { child: Box<Executor>, specs: Vec<SortSpec>, chunk_size: usize },
    Limit { child: Box<Executor>, limit: usize },
    Offset { child: Box<Executor>, offset: usize },
    VectorIndexScan {
        child: Box<Executor>,
        query: Arc<VectorIndexQuery>,
        binding_column_index: usize,
    },
    HashJoin { left: Box<Executor>, right: Box<Executor>, conds: Vec<JoinKeys> },
    CreateVectorIndex(Arc<CreateVectorIndex>),
    DropVectorIndex(Arc<DropVectorIndex>),
    CreateGraph(CreateGraphBuilder),
    DropGraph(DropGraphBuilder),
}

// ---------------------------------------------------------------------------------------------
// Projections
// ---------------------------------------------------------------------------------------------

/// The variable whose properties a projection has to read for an expression, if it has to: the
/// expression is a vertex, and the input has its identifier only.
pub open spec fn scanned_var(expr: BoundExpr, child: Seq<DataField>) -> Option<Seq<char>> {
    match (expr.logical_type, expr.kind) {
        (LogicalType::Vertex(_), BoundExprKind::Variable(var)) => match field_index(
            child,
            var@,
            0,
        ) {
            Some(i) => if child[i].ty == LogicalType::Int64 {
                Some(var@)
            } else {
                None
            },
            None => None,
        },
        _ => None,
    }
}

/// The properties of the vertex type with the first combination of labels of a variable.
pub open spec fn properties_of(
    graph_type: MemoryGraphTypeCatalog,
    labels: Map<Seq<char>, LabelSpecs>,
    var: Seq<char>,
) -> Seq<Property> {
    match label_of(labels, var) {
        Some(specs) => if specs@.len() == 0 {
            Seq::empty()
        } else {
            match type_of(graph_type.vertex_types@, label_set_of(specs@[0]@)) {
                Some(vertex_type) => vertex_type.properties@,
                None => Seq::empty(),
            }
        },
        None => Seq::empty(),
    }
}

/// The names of the columns that hold properties of a variable.
pub open spec fn qualified_names(var: Seq<char>, properties: Seq<Property>) -> Seq<Seq<char>> {
    properties.map_values(|p: Property| qualified(var, p.name@))
}

/// The names of the columns that hold properties of a variable, by the names of the properties.
pub open spec fn qualified_texts(var: Seq<char>, names: Seq<String>) -> Seq<Seq<char>> {
    names.map_values(|s: String| qualified(var, s@))
}

/// The identifiers of properties: their positions.
pub open spec fn property_ids(properties: Seq<Property>) -> Seq<u32> {
    Seq::new(properties.len(), |i: int| i as u32)
}

/// The labels of the variables in the result of a projection.
pub open spec fn result_labels(project: Project) -> Map<Seq<char>, LabelSpecs> {
    (project.base.schema->0).var_labels@
}

/// The names of the columns after the properties for the first `n` expressions were read.
pub open spec fn widened_names(
    project: Project,
    child: DataSchema,
    graph: Option<GraphRef>,
    n: int,
) -> Seq<Seq<char>>
    decreases n,
{
    if n <= 0 {
        names_of(child.fields@)
    } else {
        let before = widened_names(project, child, graph, n - 1);
        match scanned_var(project.exprs@[n - 1], child.fields@) {
            Some(var) => before + qualified_names(
                var,
                properties_of(*(graph->0).graph_type, result_labels(project), var),
            ),
            None => before,
        }
    }
}

/// Properties are read for one of the first `n` expressions.
pub open spec fn is_widened(project: Project, child: DataSchema, n: int) -> bool
    decreases n,
{
    n > 0 && (scanned_var(project.exprs@[n - 1], child.fields@) is Some || is_widened(
        project,
        child,
        n - 1,
    ))
}

/// The labels by which the expressions are computed: those of the input, unless properties were
/// read.
pub open spec fn widened_labels(project: Project, child: DataSchema, n: int) -> Map<
    Seq<char>,
    LabelSpecs,
> {
    if is_widened(project, child, n) {
        Map::empty()
    } else {
        child.var_labels@
    }
}

/// An expression of a projection over an input has what it needs.
pub open spec fn can_project(
    expr: BoundExpr,
    child: DataSchema,
    graph: Option<GraphRef>,
) -> bool {
    match (expr.logical_type, expr.kind) {
        (LogicalType::Vertex(_), BoundExprKind::Variable(var)) => field_index(
            child.fields@,
            var@,
            0,
        ) is Some && (scanned_var(expr, child.fields@) is Some ==> graph is Some),
        _ => true,
    }
}

// ---------------------------------------------------------------------------------------------
// Plans
// ---------------------------------------------------------------------------------------------

/// The columns of the first input.
pub open spec fn input_schema(plan: PlanNode) -> Option<Arc<DataSchema>> {
    plan.inputs()[0].spec_schema()
}

/// The only input can be built.
pub open spec fn input_buildable(plan: PlanNode, graph: Option<GraphRef>) -> bool
    decreases plan, 0int,
{
    if plan.inputs().len() == 1 {
        proof {
            lemma_inputs_smaller(plan, 0);
        }
        is_buildable(plan.inputs()[0], graph)
    } else {
        false
    }
}

/// Every operator has the inputs and columns that it needs, and there is a graph where one is
/// read.
pub open spec fn is_buildable(plan: PlanNode, graph: Option<GraphRef>) -> bool
    decreases plan, 1int,
{
    match plan {
        PlanNode::PhysicalFilter(filter) => input_buildable(plan, graph) && (input_schema(
            plan,
        ) matches Some(schema) && can_evaluate(*filter.predicate, names_of(schema.fields@))),
        PlanNode::PhysicalNodeScan(_) => plan.inputs().len() == 0 && graph is Some,
        PlanNode::PhysicalExpand(_) => input_buildable(plan, graph) && graph is Some && (
        input_schema(plan) matches Some(schema) && schema.fields@.len() + 2 <= usize::MAX),
        PlanNode::PhysicalProject(project) => {
            &&& input_buildable(plan, graph)
            &&& project.base.schema is Some
            &&& input_schema(plan) matches Some(schema)
            &&& forall|i: int|
                0 <= i < project.exprs@.len() ==> #[trigger] can_project(
                    project.exprs@[i],
                    *schema,
                    graph,
                )
            &&& forall|i: int|
                0 <= i < project.exprs@.len() ==> can_evaluate(
                    #[trigger] project.exprs@[i],
                    widened_names(*project, *schema, graph, project.exprs@.len() as int),
                )
        },
        PlanNode::PhysicalCall(_) => plan.inputs().len() == 0,
        PlanNode::PhysicalOneRow(_) => plan.inputs().len() == 0 && (plan.spec_schema() matches
            Some(schema) && schema.fields@.len() == 1 && schema.fields@[0].ty == LogicalType::Int32
            && !schema.fields@[0].nullable),
        PlanNode::PhysicalSort(sort) => input_buildable(plan, graph) && (input_schema(
            plan,
        ) matches Some(schema) && forall|i: int|
            0 <= i < sort.specs@.len() ==> can_evaluate(
                *(#[trigger] sort.specs@[i]).key,
                names_of(schema.fields@),
            )),
        PlanNode::PhysicalLimit(_) => input_buildable(plan, graph),
        PlanNode::PhysicalOffset(_) => input_buildable(plan, graph),
        PlanNode::PhysicalVectorIndexScan(scan) => input_buildable(plan, graph) && (input_schema(
            plan,
        ) matches Some(schema) && field_index(schema.fields@, scan.query.binding@, 0) is Some),
        PlanNode::PhysicalHashJoin(join) => if plan.inputs().len() == 2 {
            proof {
                lemma_inputs_smaller(plan, 0);
                lemma_inputs_smaller(plan, 1);
            }
            &&& is_buildable(plan.inputs()[0], graph)
            &&& is_buildable(plan.inputs()[1], graph)
            &&& plan.inputs()[0].spec_schema() matches Some(left)
            &&& plan.inputs()[1].spec_schema() matches Some(right)
            &&& forall|i: int|
                0 <= i < join.conds@.len() ==> can_evaluate(
                    *(#[trigger] join.conds@[i]).left_key,
                    names_of(left.fields@),
                ) && can_evaluate(*join.conds@[i].right_key, names_of(right.fields@))
        } else {
            false
        },
        PlanNode::PhysicalVertexPropertyFetch(fetch) => input_buildable(plan, graph)
            && graph is Some && (input_schema(plan) matches Some(schema) && field_index(
            schema.fields@,
            fetch.binding@,
            0,
        ) is Some),
        PlanNode::PhysicalExplain(_) => true,
        PlanNode::PhysicalCreateVectorIndex(_) => plan.inputs().len() == 0,
        PlanNode::PhysicalDropVectorIndex(_) => plan.inputs().len() == 0,
        PlanNode::PhysicalCreateGraph(_) => plan.inputs().len() == 0,
        PlanNode::PhysicalDropGraph(_) => plan.inputs().len() == 0,
        _ => false,
    }
}

/// An executor runs the first input of a plan.
pub open spec fn runs_input(e: Executor, plan: PlanNode, graph: Option<GraphRef>) -> bool
    decreases plan, 0int,
{
    if plan.inputs().len() > 0 {
        proof {
            lemma_inputs_smaller(plan, 0);
        }
        runs(e, plan.inputs()[0], graph)
    } else {
        false
    }
}

/// An executor runs the input of a projection and reads the properties for its first `n`
/// expressions.
pub open spec fn runs_widened(
    e: Executor,
    plan: PlanNode,
    project: Project,
    graph: Option<GraphRef>,
    n: int,
) -> bool
    decreases plan, n,
{
    if n <= 0 {
        if plan.inputs().len() > 0 {
            proof {
                lemma_inputs_smaller(plan, 0);
            }
            runs(e, plan.inputs()[0], graph)
        } else {
            false
        }
    } else {
        let child = *input_schema(plan)->0;
        match scanned_var(project.exprs@[n - 1], child.fields@) {
            Some(var) => (e matches Executor::VertexPropertyScan {
                child: inner,
                vid_index,
                property_ids: ids,
                graph: g,
            } && runs_widened(*inner, plan, project, graph, n - 1) && field_index(
                child.fields@,
                var,
                0,
            ) == Some(vid_index as int) && ids@ == property_ids(
                properties_of(*(graph->0).graph_type, result_labels(project), var),
            ) && Some(g) == graph),
            None => runs_widened(e, plan, project, graph, n - 1),
        }
    }
}

/// The number of expressions of a projection.
pub open spec fn width(plan: PlanNode) -> int {
    match plan {
        PlanNode::PhysicalProject(project) => project.exprs@.len() as int,
        _ => 0,
    }
}

/// An executor does what a physical plan says.
pub open spec fn runs(e: Executor, plan: PlanNode, graph: Option<GraphRef>) -> bool
    decreases plan, width(plan) + 1,
{
    match plan {
        PlanNode::PhysicalFilter(filter) => (e matches Executor::Filter { child, predicate }
            && runs_input(*child, plan, graph) && evaluates(
            predicate,
            *filter.predicate,
            names_of((input_schema(plan)->0).fields@),
            (input_schema(plan)->0).var_labels@,
        )),
        PlanNode::PhysicalNodeScan(scan) => (e matches Executor::VertexScan {
            graph: g,
            labels,
            batch_size,
        } && Some(g) == graph && labels == scan.labels && batch_size == SCAN_BATCH_SIZE),
        PlanNode::PhysicalExpand(expand) => {
            let n = (input_schema(plan)->0).fields@.len();
            &&& e matches Executor::Flatten { child: expanded, column_indices }
            &&& column_indices@ == seq![n as usize, (n + 1) as usize]
            &&& *expanded matches Executor::Expand {
                child,
                input_column_index,
                edge_labels,
                target_vertex_labels,
                graph: g,
            }
            &&& runs_input(*child, plan, graph)
            &&& input_column_index == expand.input_column_index
            &&& edge_labels == expand.edge_labels
            &&& target_vertex_labels == expand.target_vertex_labels
            &&& Some(g) == graph
        },
        PlanNode::PhysicalProject(project) => {
            let n = project.exprs@.len() as int;
            let schema = *input_schema(plan)->0;
            &&& e matches Executor::Project { child, evaluators }
            &&& runs_widened(*child, plan, *project, graph, n)
            &&& evaluators@.len() == n
            &&& forall|i: int|
                0 <= i < n ==> evaluates(
                    #[trigger] evaluators@[i],
                    project.exprs@[i],
                    widened_names(*project, schema, graph, n),
                    widened_labels(*project, schema, n),
                )
        },
        PlanNode::PhysicalCall(call) => (e matches Executor::ProcedureCall { procedure, args }
            && procedure == call.procedure.object && args == call.args),
        PlanNode::PhysicalOneRow(_) => (e matches Executor::Values { columns } && columns@.len()
            == 1 && (columns@[0] matches Column::Int32(values) && values@ == seq![0i32])),
        PlanNode::PhysicalSort(sort) => {
            &&& e matches Executor::Sort { child, specs, chunk_size }
            &&& runs_input(*child, plan, graph)
            &&& chunk_size == DEFAULT_CHUNK_SIZE
            &&& specs@.len() == sort.specs@.len()
            &&& forall|i: int|
                0 <= i < specs@.len() ==> (#[trigger] specs@[i]).ordering == sort.specs@[i].ordering
                    && specs@[i].null_ordering == sort.specs@[i].null_ordering && evaluates(
                    specs@[i].key,
                    *sort.specs@[i].key,
                    names_of((input_schema(plan)->0).fields@),
                    (input_schema(plan)->0).var_labels@,
                )
        },
        PlanNode::PhysicalLimit(limit) => (e matches Executor::Limit { child, limit: l }
            && runs_input(*child, plan, graph) && l == limit.limit),
        PlanNode::PhysicalOffset(offset) => (e matches Executor::Offset { child, offset: o }
            && runs_input(*child, plan, graph) && o == offset.offset),
        PlanNode::PhysicalVectorIndexScan(scan) => (e matches Executor::VectorIndexScan {
            child,
            query,
            binding_column_index,
        } && runs_input(*child, plan, graph) && query == scan.query && field_index(
            (input_schema(plan)->0).fields@,
            scan.query.binding@,
            0,
        ) == Some(binding_column_index as int)),
        PlanNode::PhysicalHashJoin(join) => if plan.inputs().len() == 2 {
            proof {
                lemma_inputs_smaller(plan, 0);
                lemma_inputs_smaller(plan, 1);
            }
            &&& e matches Executor::HashJoin { left, right, conds }
            &&& runs(*left, plan.inputs()[0], graph)
            &&& runs(*right, plan.inputs()[1], graph)
            &&& conds@.len() == join.conds@.len()
            &&& forall|i: int|
                0 <= i < conds@.len() ==> evaluates(
                    (#[trigger] conds@[i]).left,
                    *join.conds@[i].left_key,
                    names_of((plan.inputs()[0].spec_schema()->0).fields@),
                    (plan.inputs()[0].spec_schema()->0).var_labels@,
                ) && evaluates(
                    conds@[i].right,
                    *join.conds@[i].right_key,
                    names_of((plan.inputs()[1].spec_schema()->0).fields@),
                    (plan.inputs()[1].spec_schema()->0).var_labels@,
                )
        } else {
            false
        },
        PlanNode::PhysicalVertexPropertyFetch(fetch) => (e matches Executor::VertexPropertyScan {
            child,
            vid_index,
            property_ids: ids,
            graph: g,
        } && runs_input(*child, plan, graph) && ids == fetch.property_ids && Some(g) == graph
            && field_index((input_schema(plan)->0).fields@, fetch.binding@, 0) == Some(
            vid_index as int,
        )),
        PlanNode::PhysicalExplain(explain) => (e matches Executor::Values { columns }
            && columns@.len() == 1 && (columns@[0] matches Column::Text(lines)
            && lines@.map_values(|s: String| s@) == (match explain.text {
            Some(text) => lines_from(text@, 0),
            None => Seq::empty(),
        }))),
        PlanNode::PhysicalCreateVectorIndex(p) => e == Executor::CreateVectorIndex(p),
        PlanNode::PhysicalDropVectorIndex(p) => e == Executor::DropVectorIndex(p),
        PlanNode::PhysicalCreateGraph(p) => e == Executor::CreateGraph(
            CreateGraphBuilder { plan: p },
        ),
        PlanNode::PhysicalDropGraph(p) => e == Executor::DropGraph(DropGraphBuilder { plan: p }),
        _ => false,
    }
}

/// Builds executors for the plans of a session.
pub struct ExecutorBuilder {
    /// The graph that plans read.
    pub current_graph: Option<GraphRef>,
}

fn copy_graph(graph: &Option<GraphRef>) -> (r: GraphRef)
    requires
        graph is Some,
    ensures
        Some(r) == *graph,
{
    match graph {
        Some(graph) => graph.clone(),
        None => vstd::pervasive::unreached(),
    }
}

fn copy_specs(labels: &Option<LabelSpecs>) -> (r: Option<LabelSpecs>)
    ensures
        r == *labels,
{
    match labels {
        Some(labels) => Some(labels.clone()),
        None => None,
    }
}

/// The type of the vertices that a variable stands for, by its first combination of labels.
fn properties_by_label(
    graph_type: &MemoryGraphTypeCatalog,
    schema: &DataSchema,
    var: &str,
) -> (r: (Vec<u32>, Vec<String>))
    ensures
        r.0@ == property_ids(properties_of(*graph_type, schema.var_labels@, var@)),
        qualified_texts(var@, r.1@) == qualified_names(
            var@,
            properties_of(*graph_type, schema.var_labels@, var@),
        ),
{
    let mut ids: Vec<u32> = Vec::new();
    let mut names: Vec<String> = Vec::new();
    let ghost properties = properties_of(*graph_type, schema.var_labels@, var@);
    if let Some(label_specs) = schema.get_var_label(var) {
        if label_specs.len() > 0 {
            let label_set = LabelSet::from_ids(&label_specs[0]);
            if let Some(vertex_type) = graph_type.get_vertex_type(&label_set) {
                let mut i: usize = 0;
                while i < vertex_type.properties.len()
                    invariant
                        i <= vertex_type.properties@.len(),
                        properties == vertex_type.properties@,
                        ids@.len() == i,
                        names@.len() == i,
                        forall|k: int| 0 <= k < i ==> ids@[k] == k as u32,
                        forall|k: int| 0 <= k < i ==> (#[trigger] names@[k])@ == properties[k].name@,
                    decreases vertex_type.properties.len() - i,
                {
                    ids.push(i as u32);
                    names.push(vertex_type.properties[i].name().to_owned());
                    i = i + 1;
                }
            }
        }
    }
    assert(ids@ =~= property_ids(properties));
    assert(qualified_texts(var@, names@) =~= qualified_names(var@, properties));
    (ids, names)
}

/// The columns of a schema and one for every property of a variable; the labels are dropped.
fn widen(schema: &DataSchema, var: &str, property_names: &Vec<String>) -> (r: DataSchema)
    ensures
        names_of(r.fields@) == names_of(schema.fields@) + qualified_texts(
            var@,
            property_names@,
        ),
        r.var_labels@ == Map::<Seq<char>, LabelSpecs>::empty(),
{
    let mut fields = copy_fields(&schema.fields);
    let mut i: usize = 0;
    while i < property_names.len()
        invariant
            i <= property_names@.len(),
            fields@.len() == schema.fields@.len() + i,
            forall|k: int|
                0 <= k < schema.fields@.len() ==> #[trigger] fields@[k] == schema.fields@[k],
            forall|k: int|
                0 <= k < i ==> (#[trigger] fields@[schema.fields@.len() + k]).name@ == qualified(
                    var@,
                    property_names@[k]@,
                ),
        decreases property_names.len() - i,
    {
        let name = qualified_name(var, property_names[i].as_str());
        fields.push(DataField::new(name, LogicalType::String, true));
        i = i + 1;
    }
    proof {
        let target = names_of(schema.fields@) + qualified_texts(var@, property_names@);
        assert forall|k: int| 0 <= k < target.len() implies names_of(fields@)[k] == target[k] by {
            if k >= schema.fields@.len() {
                let j = k - schema.fields@.len();
                assert(fields@[schema.fields@.len() + j].name@ == qualified(
                    var@,
                    property_names@[j]@,
                ));
            }
        }
        assert(names_of(fields@) =~= target);
    }
    DataSchema::new(fields)
}

impl ExecutorBuilder {
    pub fn new(current_graph: Option<GraphRef>) -> (r: Self)
        ensures
            r.current_graph == current_graph,
    {
        ExecutorBuilder { current_graph }
    }

    /// The executor that runs a physical plan.
    pub fn build(self, plan: &PlanNode) -> (r: Executor)
        requires
            is_buildable(*plan, self.current_graph),
        ensures
            runs(r, *plan, self.current_graph),
    {
        self.build_executor(plan)
    }

    /// The executor of an operator over the executors of its inputs.
    fn build_executor(&self, physical_plan: &PlanNode) -> (r: Executor)
        requires
            is_buildable(*physical_plan, self.current_graph),
        ensures
            runs(r, *physical_plan, self.current_graph),
        decreases *physical_plan, 1int,
    {
        let children = physical_plan.children();
        proof {
            reveal_with_fuel(is_buildable, 2);
            reveal_with_fuel(input_buildable, 2);
            reveal_with_fuel(runs, 2);
            reveal_with_fuel(runs_input, 2);
            if children@.len() > 0 {
                lemma_inputs_smaller(*physical_plan, 0);
            }
            if children@.len() > 1 {
                lemma_inputs_smaller(*physical_plan, 1);
            }
        }
        match physical_plan {
            PlanNode::PhysicalFilter(filter) => {
                let schema = children[0].schema().unwrap();
                let predicate = build_evaluator(&filter.predicate, &schema);
                let child = Box::new(self.build_executor(&children[0]));
                Executor::Filter { child, predicate }
            },
            PlanNode::PhysicalNodeScan(node_scan) => Executor::VertexScan {
                graph: copy_graph(&self.current_graph),
                labels: node_scan.labels.clone(),
                batch_size: SCAN_BATCH_SIZE,
            },
            PlanNode::PhysicalExpand(expand) => {
                let child = Box::new(self.build_executor(&children[0]));
                let child_schema = children[0].schema().unwrap();
                let num_child_columns: usize = child_schema.fields.len();
                let expanded = Executor::Expand {
                    child,
                    input_column_index: expand.input_column_index,
                    edge_labels: expand.edge_labels.clone(),
                    target_vertex_labels: copy_specs(&expand.target_vertex_labels),
                    graph: copy_graph(&self.current_graph),
                };
                let mut column_indices: Vec<usize> = Vec::new();
                column_indices.push(num_child_columns);
                column_indices.push(num_child_columns + 1);
                assert(column_indices@ =~= seq![
                    num_child_columns,
                    (num_child_columns + 1) as usize,
                ]);
                Executor::Flatten { child: Box::new(expanded), column_indices }
            },
            PlanNode::PhysicalProject(project) => self.build_project(physical_plan, project),
            PlanNode::PhysicalCall(call) => Executor::ProcedureCall {
                procedure: call.procedure.object.clone(),
                args: call.args.clone(),
            },
            PlanNode::PhysicalOneRow(_) => {
                let mut values: Vec<i32> = Vec::new();
                values.push(0);
                assert(values@ =~= seq![0i32]);
                let mut columns: Vec<Column> = Vec::new();
                columns.push(Column::Int32(values));
                Executor::Values { columns }
            },
            PlanNode::PhysicalSort(sort) => {
                let schema = children[0].schema().unwrap();
                let mut specs: Vec<SortSpec> = Vec::new();
                let mut i: usize = 0;
                while i < sort.specs.len()
                    invariant
                        i <= sort.specs@.len(),
                        specs@.len() == i,
                        forall|k: int|
                            0 <= k < sort.specs@.len() ==> can_evaluate(
                                *(#[trigger] sort.specs@[k]).key,
                                names_of(schema.fields@),
                            ),
                        forall|k: int|
                            0 <= k < i ==> (#[trigger] specs@[k]).ordering
                                == sort.specs@[k].ordering && specs@[k].null_ordering
                                == sort.specs@[k].null_ordering && evaluates(
                                specs@[k].key,
                                *sort.specs@[k].key,
                                names_of(schema.fields@),
                                schema.var_labels@,
                            ),
                    decreases sort.specs.len() - i,
                {
                    let key = build_evaluator(&sort.specs[i].key, &schema);
                    specs.push(
                        SortSpec {
                            key,
                            ordering: sort.specs[i].ordering,
                            null_ordering: sort.specs[i].null_ordering,
                        },
                    );
                    i = i + 1;
                }
                let child = Box::new(self.build_executor(&children[0]));
                Executor::Sort { child, specs, chunk_size: DEFAULT_CHUNK_SIZE }
            },
            PlanNode::PhysicalLimit(limit) => {
                let child = Box::new(self.build_executor(&children[0]));
                Executor::Limit { child, limit: limit.limit }
            },
            PlanNode::PhysicalOffset(offset) => {
                let child = Box::new(self.build_executor(&children[0]));
                Executor::Offset { child, offset: offset.offset }
            },
            PlanNode::PhysicalVectorIndexScan(vector_scan) => {
                let child_schema = children[0].schema().unwrap();
                let binding_column_index: usize = child_schema.get_field_index_by_name(
                    vector_scan.query.binding.as_str(),
                ).unwrap();
                let child = Box::new(self.build_executor(&children[0]));
                Executor::VectorIndexScan {
                    child,
                    query: vector_scan.query.clone(),
                    binding_column_index,
                }
            },
            PlanNode::PhysicalHashJoin(join) => {
                let left = Box::new(self.build_executor(&children[0]));
                let right = Box::new(self.build_executor(&children[1]));
                let left_schema = children[0].schema().unwrap();
                let right_schema = children[1].schema().unwrap();
                let mut conds: Vec<JoinKeys> = Vec::new();
                let mut i: usize = 0;
                while i < join.conds.len()
                    invariant
                        i <= join.conds@.len(),
                        conds@.len() == i,
                        forall|k: int|
                            0 <= k < join.conds@.len() ==> can_evaluate(
                                *(#[trigger] join.conds@[k]).left_key,
                                names_of(left_schema.fields@),
                            ) && can_evaluate(
                                *join.conds@[k].right_key,
                                names_of(right_schema.fields@),
                            ),
                        forall|k: int|
                            0 <= k < i ==> evaluates(
                                (#[trigger] conds@[k]).left,
                                *join.conds@[k].left_key,
                                names_of(left_schema.fields@),
                                left_schema.var_labels@,
                            ) && evaluates(
                                conds@[k].right,
                                *join.conds@[k].right_key,
                                names_of(right_schema.fields@),
                                right_schema.var_labels@,
                            ),
                    decreases join.conds.len() - i,
                {
                    let left_key = build_evaluator(&join.conds[i].left_key, &left_schema);
                    let right_key = build_evaluator(&join.conds[i].right_key, &right_schema);
                    conds.push(JoinKeys { left: left_key, right: right_key });
                    i = i + 1;
                }
                Executor::HashJoin { left, right, conds }
            },
            PlanNode::PhysicalVertexPropertyFetch(fetch) => {
                let child = Box::new(self.build_executor(&children[0]));
                let child_schema = children[0].schema().unwrap();
                let vid_index: usize = child_schema.get_field_index_by_name(
                    fetch.binding.as_str(),
                ).unwrap();
                Executor::VertexPropertyScan {
                    child,
                    vid_index,
                    property_ids: fetch.property_ids.clone(),
                    graph: copy_graph(&self.current_graph),
                }
            },
            PlanNode::PhysicalExplain(explain) => {
                let lines = match &explain.text {
                    Some(text) => text_lines(text.as_str()),
                    None => Vec::new(),
                };
                assert(explain.text is None ==> lines@.map_values(|s: String| s@) =~= Seq::<
                    Seq<char>,
                >::empty());
                let mut columns: Vec<Column> = Vec::new();
                columns.push(Column::Text(lines));
                Executor::Values { columns }
            },
            PlanNode::PhysicalCreateVectorIndex(create_index) => Executor::CreateVectorIndex(
                create_index.clone(),
            ),
            PlanNode::PhysicalDropVectorIndex(drop_index) => Executor::DropVectorIndex(
                drop_index.clone(),
            ),
            PlanNode::PhysicalCreateGraph(create_graph) => Executor::CreateGraph(
                CreateGraphBuilder::new(create_graph.clone()),
            ),
            PlanNode::PhysicalDropGraph(drop_graph) => Executor::DropGraph(
                DropGraphBuilder::new(drop_graph.clone()),
            ),
            _ => vstd::pervasive::unreached(),
        }
    }

    /// The executor of a projection: it reads the properties of the vertices that the result
    /// holds, where the input has their identifiers only.
    fn build_project(&self, physical_plan: &PlanNode, project: &Arc<Project>) -> (r: Executor)
        requires
            *physical_plan == PlanNode::PhysicalProject(*project),
            is_buildable(*physical_plan, self.current_graph),
        ensures
            runs(r, *physical_plan, self.current_graph),
        decreases *physical_plan, 0int,
    {
        let children = physical_plan.children();
        proof {
            reveal_with_fuel(is_buildable, 2);
            reveal_with_fuel(input_buildable, 2);
            lemma_inputs_smaller(*physical_plan, 0);
        }
        let child_schema = children[0].schema().unwrap();
        let mut child = self.build_executor(&children[0]);
        let output_schema = physical_plan.schema().unwrap();
        let mut updated = child_schema.clone();
        let exprs = &project.exprs;
        let mut n: usize = 0;
        while n < exprs.len()
            invariant
                n <= exprs@.len(),
                exprs@ == project.exprs@,
                *physical_plan == PlanNode::PhysicalProject(*project),
                project.base.schema == Some(output_schema),
                input_schema(*physical_plan) == Some(child_schema),
                forall|i: int|
                    0 <= i < exprs@.len() ==> #[trigger] can_project(
                        project.exprs@[i],
                        *child_schema,
                        self.current_graph,
                    ),
                runs_widened(child, *physical_plan, **project, self.current_graph, n as int),
                names_of(updated.fields@) == widened_names(
                    **project,
                    *child_schema,
                    self.current_graph,
                    n as int,
                ),
                updated.var_labels@ == widened_labels(**project, *child_schema, n as int),
            decreases exprs.len() - n,
        {
            let expr = &exprs[n];
            assert(can_project(project.exprs@[n as int], *child_schema, self.current_graph));
            if let LogicalType::Vertex(_) = &expr.logical_type {
                if let BoundExprKind::Variable(var_name) = &expr.kind {
                    let child_field = child_schema.get_field_by_name(var_name.as_str()).unwrap();
                    if let LogicalType::Int64 = &child_field.ty {
                        let vid_index: usize = child_schema.get_field_index_by_name(
                            var_name.as_str(),
                        ).unwrap();
                        let graph = copy_graph(&self.current_graph);
                        let (property_list, property_names) = properties_by_label(
                            &graph.graph_type,
                            &output_schema,
                            var_name.as_str(),
                        );
                        let next = widen(&updated, var_name.as_str(), &property_names);
                        child = Executor::VertexPropertyScan {
                            child: Box::new(child),
                            vid_index,
                            property_ids: Arc::new(property_list),
                            graph,
                        };
                        updated = Arc::new(next);
                    }
                }
            }
            n = n + 1;
        }
        let mut evaluators: Vec<Evaluator> = Vec::new();
        let mut i: usize = 0;
        while i < exprs.len()
            invariant
                i <= exprs@.len(),
                evaluators@.len() == i,
                forall|k: int|
                    0 <= k < exprs@.len() ==> can_evaluate(
                        #[trigger] exprs@[k],
                        names_of(updated.fields@),
                    ),
                forall|k: int|
                    0 <= k < i ==> evaluates(
                        #[trigger] evaluators@[k],
                        exprs@[k],
                        names_of(updated.fields@),
                        updated.var_labels@,
                    ),
            decreases exprs.len() - i,
        {
            evaluators.push(build_evaluator(&exprs[i], &updated));
            i = i + 1;
        }
        Executor::Project { child: Box::new(child), evaluators }
    }
}

/// A plan that matches a path of `n` edges can be built over any graph.
pub proof fn path_plans_are_buildable(
    plan: PlanNode,
    vertices: Seq<(String, LabelSpecs)>,
    edges: Seq<(Option<String>, LabelSpecs, ExpandDirection)>,
    n: int,
    graph: GraphRef,
)
    requires
        0 <= n,
        1 + 2 * n <= usize::MAX,
        is_path_plan(plan, vertices, edges, n),
    ensures
        is_buildable(plan, Some(graph)),
    decreases n,
{
    reveal_with_fuel(is_buildable, 2);
    reveal_with_fuel(input_buildable, 2);
    if n > 0 {
        path_plans_are_buildable(plan.inputs()[0], vertices, edges, n - 1, graph);
        path_plan_columns(plan.inputs()[0], vertices, edges, n - 1);
    }
}

/// A plan for a statement that changes the catalog can be built once it is physical, whatever graph
/// is current.
pub proof fn catalog_plans_are_buildable(
    plan: PlanNode,
    statement: BoundCatalogModifyingStatement,
    physical: PlanNode,
    graph: Option<GraphRef>,
)
    requires
        is_catalog_plan(plan, statement),
        is_physical_of(physical, plan),
    ensures
        is_buildable(physical, graph),
{
    reveal_with_fuel(is_physical_of, 2);
}

} // verus!
