//! From patterns and logical operators to the operators of a physical plan: laws.

use vstd::prelude::*;
use std::sync::Arc;
use crate::common::data_type::{LabelSpecs, LogicalType};
use crate::planner::bound::{
    BoundEdgePatternKind, BoundElementPattern, BoundGraphPattern, BoundPathPatternExpr,
};
use crate::planner::error::Missing;
use crate::planner::optimizer::{
    inputs_missing, is_over_physical, is_path_plan, is_physical_of, match_missing, path_edges,
    path_length, path_missing, path_vertices, pattern_missing, parts_missing, plan_missing,
};
use crate::planner::plan::node::{lemma_inputs_smaller, ExpandDirection, Match};
use crate::planner::plan::PlanNode;

verus! {

/// The operator that is reached from a plan by going down `d` times to the first input.
pub open spec fn below(plan: PlanNode, d: nat) -> PlanNode
    decreases d,
{
    if d == 0 {
        plan
    } else {
        below(plan.inputs()[0], (d - 1) as nat)
    }
}

/// The pattern is a vertex, an edge, a vertex and so on, up to a vertex, and every edge points to
/// one side.
pub open spec fn is_alternating(parts: Seq<BoundPathPatternExpr>) -> bool {
    &&& parts.len() % 2 == 1
    &&& forall|i: int|
        0 <= i < parts.len() ==> match #[trigger] parts[i] {
            BoundPathPatternExpr::Pattern(BoundElementPattern::Vertex(_)) => i % 2 == 0,
            BoundPathPatternExpr::Pattern(BoundElementPattern::Edge(e)) => i % 2 == 1 && (e.kind
                is Right || e.kind is Left),
            _ => false,
        }
}

proof fn lemma_alternating(parts: Seq<BoundPathPatternExpr>, m: int)
    requires
        is_alternating(parts),
        0 <= m <= parts.len(),
    ensures
        path_vertices(parts, m).len() == (m + 1) / 2,
        path_edges(parts, m).len() == m / 2,
        forall|j: int|
            0 <= j < (m + 1) / 2 ==> (parts[2 * j] matches BoundPathPatternExpr::Pattern(
                BoundElementPattern::Vertex(v),
            ) && #[trigger] path_vertices(parts, m)[j] == (v.var, v.label)),
        forall|j: int|
            0 <= j < m / 2 ==> (parts[2 * j + 1] matches BoundPathPatternExpr::Pattern(
                BoundElementPattern::Edge(e),
            ) && (#[trigger] path_edges(parts, m)[j]).0 == e.var && path_edges(parts, m)[j].1
                == e.label && path_edges(parts, m)[j].2 == (if e.kind is Right {
                ExpandDirection::Outgoing
            } else {
                ExpandDirection::Incoming
            })),
    decreases m,
{
    if m > 0 {
        lemma_alternating(parts, m - 1);
        let part = parts[m - 1];
        assert(m - 1 == 2 * ((m - 1) / 2) + (m - 1) % 2);
    }
}

proof fn lemma_path_plan_below(
    plan: PlanNode,
    vertices: Seq<(String, LabelSpecs)>,
    edges: Seq<(Option<String>, LabelSpecs, ExpandDirection)>,
    n: int,
    d: nat,
)
    requires
        0 <= d <= n,
        is_path_plan(plan, vertices, edges, n),
    ensures
        is_path_plan(below(plan, d), vertices, edges, n - d),
    decreases d,
{
    if d > 0 {
        lemma_path_plan_below(plan.inputs()[0], vertices, edges, n - 1, (d - 1) as nat);
    }
}

/// A path pattern of `n` edges becomes a scan and `n` operators over it: the `k`-th of them, from
/// the scan up, follows the edge pattern at part `2 * k + 1` in the direction in which it points,
/// under its variable and labels, to the vertex pattern at part `2 * k + 2`, under the variable and
/// labels of that; the scan takes the variable and labels of the first part.
pub proof fn hops_follow_the_parts(
    physical: PlanNode,
    m: Arc<Match>,
    parts: Vec<BoundPathPatternExpr>,
    n: nat,
    k: int,
)
    requires
        is_physical_of(physical, PlanNode::LogicalMatch(m)),
        m.pattern.paths@.len() == 1,
        m.pattern.paths@[0] == BoundPathPatternExpr::Concat(parts),
        parts@.len() == 2 * n + 1,
        is_alternating(parts@),
    ensures
        parts@[0] matches BoundPathPatternExpr::Pattern(BoundElementPattern::Vertex(v)) && (below(
            physical,
            n,
        ) matches PlanNode::PhysicalNodeScan(scan) && scan.var@ == v.var@ && scan.labels == v.label
            && scan.base.children@.len() == 0),
        0 <= k < n ==> (below(physical, (n - 1 - k) as nat) matches PlanNode::PhysicalExpand(expand)
            && {
            &&& expand.base.children@.len() == 1
            &&& expand.input_column_index == 0
            &&& (parts@[2 * k + 1] matches BoundPathPatternExpr::Pattern(
                BoundElementPattern::Edge(e),
            ) && {
                &&& expand.edge_var == e.var
                &&& expand.edge_labels == e.label
                &&& e.kind is Right ==> expand.direction == ExpandDirection::Outgoing
                &&& e.kind is Left ==> expand.direction == ExpandDirection::Incoming
            })
            &&& (parts@[2 * k + 2] matches BoundPathPatternExpr::Pattern(
                BoundElementPattern::Vertex(v),
            ) && {
                &&& expand.target_var == Some(v.var)
                &&& expand.target_vertex_labels == Some(v.label)
            })
        }),
{
    let len = parts@.len() as int;
    lemma_alternating(parts@, len);
    let vertices = path_vertices(parts@, len);
    let edges = path_edges(parts@, len);
    assert(path_length(vertices.len() as int, edges.len() as int) == n);
    lemma_path_plan_below(physical, vertices, edges, n as int, n);
    assert(vertices[0] == vertices[0]);
    if 0 <= k < n {
        lemma_path_plan_below(physical, vertices, edges, n as int, (n - 1 - k) as nat);
        let e = edges[k];
        let v = vertices[k + 1];
        assert(2 * (k + 1) == 2 * k + 2);
    }
}

/// The number of vertices among the first `n` parts.
pub open spec fn vertices_before(parts: Seq<BoundPathPatternExpr>, n: int) -> int
    decreases n,
{
    if n <= 0 {
        0
    } else if parts[n - 1] matches BoundPathPatternExpr::Pattern(BoundElementPattern::Vertex(_)) {
        vertices_before(parts, n - 1) + 1
    } else {
        vertices_before(parts, n - 1)
    }
}

/// The number of edges among the first `n` parts.
pub open spec fn edges_before(parts: Seq<BoundPathPatternExpr>, n: int) -> int
    decreases n,
{
    if n <= 0 {
        0
    } else if parts[n - 1] matches BoundPathPatternExpr::Pattern(BoundElementPattern::Edge(_)) {
        edges_before(parts, n - 1) + 1
    } else {
        edges_before(parts, n - 1)
    }
}

proof fn lemma_parts_counted(parts: Seq<BoundPathPatternExpr>, m: int, i: int)
    requires
        0 <= i,
        0 <= m <= parts.len(),
    ensures
        path_vertices(parts, m).len() == vertices_before(parts, m),
        path_edges(parts, m).len() == edges_before(parts, m),
        i < m ==> (parts[i] matches BoundPathPatternExpr::Pattern(BoundElementPattern::Vertex(v))
            ==> 0 <= vertices_before(parts, i) < vertices_before(parts, m) && path_vertices(
            parts,
            m,
        )[vertices_before(parts, i)] == (v.var, v.label)),
        i < m ==> (parts[i] matches BoundPathPatternExpr::Pattern(BoundElementPattern::Edge(e))
            ==> 0 <= edges_before(parts, i) < edges_before(parts, m) && path_edges(parts, m)[
        edges_before(parts, i)].0 == e.var && path_edges(parts, m)[edges_before(parts, i)].1
            == e.label),
    decreases m,
{
    if m > 0 {
        lemma_parts_counted(parts, m - 1, i);
    }
}

/// Whatever the order of vertices and edges in a path pattern, the first vertex is scanned, and
/// there is a hop for every edge that has a vertex left to go to: the hop of an edge goes to the
/// vertex that has one vertex more before it than the edge has edges. What is left over is left
/// out.
pub proof fn hops_take_edges_and_vertices_in_turn(
    physical: PlanNode,
    m: Arc<Match>,
    parts: Vec<BoundPathPatternExpr>,
    i: int,
    j: int,
    first: int,
)
    requires
        is_physical_of(physical, PlanNode::LogicalMatch(m)),
        m.pattern.paths@.len() == 1,
        m.pattern.paths@[0] == BoundPathPatternExpr::Concat(parts),
        0 <= i < parts@.len(),
        0 <= j < parts@.len(),
        0 <= first < parts@.len(),
        parts@[first] matches BoundPathPatternExpr::Pattern(BoundElementPattern::Vertex(_)),
        vertices_before(parts@, first) == 0,
        parts@[i] matches BoundPathPatternExpr::Pattern(BoundElementPattern::Edge(_)),
        parts@[j] matches BoundPathPatternExpr::Pattern(BoundElementPattern::Vertex(_)),
        vertices_before(parts@, j) == edges_before(parts@, i) + 1,
    ensures
        ({
            let vertices = vertices_before(parts@, parts@.len() as int);
            let edges = edges_before(parts@, parts@.len() as int);
            let hops: int = if edges < vertices {
                edges
            } else {
                vertices - 1
            };
            let k = edges_before(parts@, i);
            &&& 0 <= k < hops
            &&& below(physical, hops as nat) matches PlanNode::PhysicalNodeScan(scan)
            &&& parts@[first] matches BoundPathPatternExpr::Pattern(BoundElementPattern::Vertex(v))
            &&& scan.var@ == v.var@
            &&& scan.labels == v.label
            &&& below(physical, (hops - 1 - k) as nat) matches PlanNode::PhysicalExpand(expand)
            &&& parts@[i] matches BoundPathPatternExpr::Pattern(BoundElementPattern::Edge(e))
            &&& expand.edge_var == e.var
            &&& expand.edge_labels == e.label
            &&& parts@[j] matches BoundPathPatternExpr::Pattern(BoundElementPattern::Vertex(w))
            &&& expand.target_var == Some(w.var)
            &&& expand.target_vertex_labels == Some(w.label)
        }),
{
    let len = parts@.len() as int;
    lemma_parts_counted(parts@, len, i);
    lemma_parts_counted(parts@, len, j);
    lemma_parts_counted(parts@, len, first);
    let vertices = path_vertices(parts@, len);
    let edges = path_edges(parts@, len);
    let hops = path_length(vertices.len() as int, edges.len() as int);
    let k = edges_before(parts@, i);
    lemma_path_plan_below(physical, vertices, edges, hops, hops as nat);
    lemma_path_plan_below(physical, vertices, edges, hops, (hops - 1 - k) as nat);
}

/// Two path patterns of the same length that have a physical plan in common have the same
/// variables, labels and directions.
pub proof fn hops_tell_the_parts(
    physical: PlanNode,
    a: Arc<Match>,
    b: Arc<Match>,
    a_parts: Vec<BoundPathPatternExpr>,
    b_parts: Vec<BoundPathPatternExpr>,
    n: nat,
    k: int,
)
    requires
        is_physical_of(physical, PlanNode::LogicalMatch(a)),
        is_physical_of(physical, PlanNode::LogicalMatch(b)),
        a.pattern.paths@.len() == 1,
        b.pattern.paths@.len() == 1,
        a.pattern.paths@[0] == BoundPathPatternExpr::Concat(a_parts),
        b.pattern.paths@[0] == BoundPathPatternExpr::Concat(b_parts),
        a_parts@.len() == 2 * n + 1,
        b_parts@.len() == 2 * n + 1,
        is_alternating(a_parts@),
        is_alternating(b_parts@),
        0 <= k < n,
    ensures
        a_parts@[2 * k + 1] matches BoundPathPatternExpr::Pattern(BoundElementPattern::Edge(e)) && (
        b_parts@[2 * k + 1] matches BoundPathPatternExpr::Pattern(BoundElementPattern::Edge(f))
            && e.var == f.var && e.label == f.label && e.kind == f.kind),
        a_parts@[2 * k + 2] matches BoundPathPatternExpr::Pattern(BoundElementPattern::Vertex(v))
            && (b_parts@[2 * k + 2] matches BoundPathPatternExpr::Pattern(
            BoundElementPattern::Vertex(w),
        ) && v.var == w.var && v.label == w.label),
{
    hops_follow_the_parts(physical, a, a_parts, n, k);
    hops_follow_the_parts(physical, b, b_parts, n, k);
    let x = a_parts@[2 * k + 1];
    let y = b_parts@[2 * k + 1];
}

/// The columns of the plan of a path: the identifiers of the first vertex, and for every hop those
/// of the edge and of the vertex at its end, named by their variables; an edge without a variable
/// has an empty name. Under the variable of a vertex stand its labels.
pub proof fn hop_columns_are_named(
    physical: PlanNode,
    m: Arc<Match>,
    parts: Vec<BoundPathPatternExpr>,
    n: nat,
    k: int,
)
    requires
        is_physical_of(physical, PlanNode::LogicalMatch(m)),
        m.pattern.paths@.len() == 1,
        m.pattern.paths@[0] == BoundPathPatternExpr::Concat(parts),
        parts@.len() == 2 * n + 1,
        is_alternating(parts@),
        0 <= k <= n,
    ensures
        below(physical, (n - k) as nat).spec_schema() matches Some(schema) && {
            &&& schema.fields@.len() == 2 * k + 1
            &&& forall|i: int|
                0 <= i < 2 * k + 1 ==> (#[trigger] schema.fields@[i]).ty == LogicalType::Int64
                    && !schema.fields@[i].nullable
            &&& forall|i: int|
                0 <= i < 2 * k + 1 ==> match #[trigger] parts@[i] {
                    BoundPathPatternExpr::Pattern(BoundElementPattern::Vertex(v)) =>
                        schema.fields@[i].name@ == v.var@,
                    BoundPathPatternExpr::Pattern(BoundElementPattern::Edge(e)) => {
                        &&& e.var matches Some(name) ==> schema.fields@[i].name@ == name@
                        &&& e.var is None ==> schema.fields@[i].name@.len() == 0
                    },
                    _ => false,
                }
            &&& parts@[2 * k] matches BoundPathPatternExpr::Pattern(
                BoundElementPattern::Vertex(v),
            ) && schema.var_labels@.dom().contains(v.var@) && schema.var_labels@[v.var@] == v.label
        },
    decreases k,
{
    let len = parts@.len() as int;
    lemma_alternating(parts@, len);
    let vertices = path_vertices(parts@, len);
    let edges = path_edges(parts@, len);
    assert(path_length(vertices.len() as int, edges.len() as int) == n);
    let plan = below(physical, (n - k) as nat);
    lemma_path_plan_below(physical, vertices, edges, n as int, (n - k) as nat);
    assert(vertices[k] == vertices[k]);
    let last = parts@[2 * k];
    if k > 0 {
        hop_columns_are_named(physical, m, parts, n, k - 1);
        lemma_below_step(physical, (n - k) as nat);
        let child = plan.inputs()[0];
        assert(child == below(physical, (n - (k - 1)) as nat));
        assert(edges[k - 1] == edges[k - 1]);
        let schema = plan.spec_schema()->0;
        let before = child.spec_schema()->0;
        assert(2 * (k - 1) + 1 == 2 * k - 1);
        let edge = parts@[2 * k - 1];
        assert forall|i: int| 0 <= i < 2 * k - 1 implies schema.fields@[i] == before.fields@[i] by {
            assert(schema.fields@.take(2 * k - 1)[i] == schema.fields@[i]);
        }
    }
}

/// A hop puts the labels of its edge under the variable of the edge, unless the vertex at its end
/// has the same variable; other variables keep their labels.
pub proof fn hops_keep_labels_under_their_variables(
    physical: PlanNode,
    m: Arc<Match>,
    parts: Vec<BoundPathPatternExpr>,
    n: nat,
    k: int,
    other: Seq<char>,
)
    requires
        is_physical_of(physical, PlanNode::LogicalMatch(m)),
        m.pattern.paths@.len() == 1,
        m.pattern.paths@[0] == BoundPathPatternExpr::Concat(parts),
        parts@.len() == 2 * n + 1,
        is_alternating(parts@),
        1 <= k <= n,
    ensures
        parts@[2 * k] matches BoundPathPatternExpr::Pattern(BoundElementPattern::Vertex(v)) && (
        parts@[2 * k - 1] matches BoundPathPatternExpr::Pattern(BoundElementPattern::Edge(e)) && (
        below(physical, (n - k) as nat).spec_schema() matches Some(schema) && (below(
            physical,
            (n - k + 1) as nat,
        ).spec_schema() matches Some(child) && {
            &&& e.var matches Some(name) ==> name@ != v.var@ ==> schema.var_labels@.dom().contains(
                name@,
            ) && schema.var_labels@[name@] == e.label
            &&& other != v.var@ && (e.var matches Some(name) ==> name@ != other) ==> {
                &&& schema.var_labels@.dom().contains(other)
                    == child.var_labels@.dom().contains(other)
                &&& child.var_labels@.dom().contains(other) ==> schema.var_labels@[other]
                    == child.var_labels@[other]
            }
        }))),
{
    let len = parts@.len() as int;
    lemma_alternating(parts@, len);
    let vertices = path_vertices(parts@, len);
    let edges = path_edges(parts@, len);
    assert(path_length(vertices.len() as int, edges.len() as int) == n);
    lemma_path_plan_below(physical, vertices, edges, n as int, (n - k) as nat);
    lemma_below_step(physical, (n - k) as nat);
    assert(vertices[k] == vertices[k]);
    assert(edges[k - 1] == edges[k - 1]);
    let last = parts@[2 * k];
    let edge = parts@[2 * (k - 1) + 1];
}

proof fn lemma_below_step(plan: PlanNode, d: nat)
    ensures
        below(plan, d).inputs()[0] == below(plan, d + 1),
    decreases d,
{
    if d > 0 {
        lemma_below_step(plan.inputs()[0], (d - 1) as nat);
    } else {
        reveal_with_fuel(below, 2);
    }
}

/// A pattern of a single vertex becomes a scan under its variable and labels.
pub proof fn single_vertex_is_scanned(physical: PlanNode, m: Arc<Match>)
    requires
        is_physical_of(physical, PlanNode::LogicalMatch(m)),
        m.pattern.paths@.len() == 1,
        m.pattern.paths@[0] matches BoundPathPatternExpr::Pattern(BoundElementPattern::Vertex(_)),
    ensures
        m.pattern.paths@[0] matches BoundPathPatternExpr::Pattern(BoundElementPattern::Vertex(v))
            && (physical matches PlanNode::PhysicalNodeScan(scan) && scan.var@ == v.var@
            && scan.labels == v.label && scan.base.children@.len() == 0 && (scan.base.schema matches
            Some(schema) && schema.fields@.len() == 1 && schema.fields@[0].name@ == v.var@
            && schema.fields@[0].ty == LogicalType::Int64 && !schema.fields@[0].nullable
            && schema.var_labels@.dom().contains(v.var@) && schema.var_labels@[v.var@] == v.label)),
{
}

/// What a logical operator with one input asks for, the physical one does, over a physical plan of
/// the same input.
pub proof fn operators_keep_what_they_ask_for(physical: PlanNode, logical: PlanNode)
    requires
        is_physical_of(physical, logical),
    ensures
        logical matches PlanNode::LogicalFilter(l) ==> (physical matches PlanNode::PhysicalFilter(p)
            && p.predicate == l.predicate && p.base.children@.len() == 1 && l.base.children@.len()
            == 1 && is_physical_of(p.base.children@[0], l.base.children@[0]) && p.base.schema
            == p.base.children@[0].spec_schema()),
        logical matches PlanNode::LogicalProject(l) ==> (physical matches PlanNode::PhysicalProject(
            p,
        ) && p.exprs == l.exprs && p.base.schema == l.base.schema && p.base.children@.len() == 1
            && l.base.children@.len() == 1 && is_physical_of(
            p.base.children@[0],
            l.base.children@[0],
        )),
        logical matches PlanNode::LogicalSort(l) ==> (physical matches PlanNode::PhysicalSort(p)
            && p.specs == l.specs && p.base.children@.len() == 1 && l.base.children@.len() == 1
            && is_physical_of(p.base.children@[0], l.base.children@[0]) && p.base.schema
            == p.base.children@[0].spec_schema()),
        logical matches PlanNode::LogicalLimit(l) ==> (physical matches PlanNode::PhysicalLimit(p)
            && p.limit == l.limit && p.approximate == l.approximate && p.base.children@.len() == 1
            && l.base.children@.len() == 1 && is_physical_of(
            p.base.children@[0],
            l.base.children@[0],
        ) && p.base.schema == p.base.children@[0].spec_schema()),
        logical matches PlanNode::LogicalOffset(l) ==> (physical matches PlanNode::PhysicalOffset(p)
            && p.offset == l.offset && p.base.children@.len() == 1 && l.base.children@.len() == 1
            && is_physical_of(p.base.children@[0], l.base.children@[0]) && p.base.schema
            == p.base.children@[0].spec_schema()),
        logical matches PlanNode::LogicalVectorIndexScan(l) ==> (physical matches
            PlanNode::PhysicalVectorIndexScan(p) && p.query == l.query && p.base.schema
            == l.base.schema && p.base.children@.len() == 1 && l.base.children@.len() == 1
            && is_physical_of(p.base.children@[0], l.base.children@[0])),
        logical matches PlanNode::LogicalVertexPropertyFetch(l) ==> (physical matches
            PlanNode::PhysicalVertexPropertyFetch(p) && p.binding == l.binding && p.property_ids
            == l.property_ids && p.base.schema == l.base.schema && p.base.children@.len() == 1
            && l.base.children@.len() == 1 && is_physical_of(
            p.base.children@[0],
            l.base.children@[0],
        )),
{
    reveal_with_fuel(is_physical_of, 2);
    reveal_with_fuel(is_over_physical, 2);
}

/// A join keeps its conditions and the order of its inputs.
pub proof fn joins_keep_their_sides(physical: PlanNode, logical: PlanNode)
    requires
        is_physical_of(physical, logical),
        logical is LogicalHashJoin,
    ensures
        logical matches PlanNode::LogicalHashJoin(l) && (physical matches
            PlanNode::PhysicalHashJoin(p) && p.conds == l.conds && p.base.schema == l.base.schema
            && p.base.children@.len() == 2 && l.base.children@.len() == 2 && is_physical_of(
            p.base.children@[0],
            l.base.children@[0],
        ) && is_physical_of(p.base.children@[1], l.base.children@[1])),
{
    reveal_with_fuel(is_physical_of, 2);
}

/// Operators without inputs stay what they are, marked as physical.
pub proof fn leaves_stay_what_they_are(physical: PlanNode, logical: PlanNode)
    requires
        is_physical_of(physical, logical),
    ensures
        logical matches PlanNode::LogicalCall(l) ==> (physical matches PlanNode::PhysicalCall(p)
            && p == l),
        logical matches PlanNode::LogicalOneRow(l) ==> (physical matches PlanNode::PhysicalOneRow(p)
            && p == l),
        logical matches PlanNode::LogicalExplain(l) ==> (physical matches PlanNode::PhysicalExplain(
            p,
        ) && p == l),
        logical matches PlanNode::LogicalCreateVectorIndex(l) ==> (physical matches
            PlanNode::PhysicalCreateVectorIndex(p) && p == l),
        logical matches PlanNode::LogicalDropVectorIndex(l) ==> (physical matches
            PlanNode::PhysicalDropVectorIndex(p) && p == l),
        logical matches PlanNode::PhysicalCreateGraph(l) ==> (physical matches
            PlanNode::PhysicalCreateGraph(p) && p == l),
        logical matches PlanNode::PhysicalDropGraph(l) ==> (physical matches
            PlanNode::PhysicalDropGraph(p) && p == l),
{
}

/// The part is a vertex, or an edge that points to one side.
pub open spec fn is_plain_part(part: BoundPathPatternExpr) -> bool {
    match part {
        BoundPathPatternExpr::Pattern(BoundElementPattern::Vertex(_)) => true,
        BoundPathPatternExpr::Pattern(BoundElementPattern::Edge(e)) => e.kind is Right || e.kind
            is Left,
        _ => false,
    }
}

proof fn lemma_plain_parts(parts: Seq<BoundPathPatternExpr>, from: int, i: int)
    requires
        0 <= from <= i <= parts.len(),
        forall|j: int| from <= j < i ==> is_plain_part(#[trigger] parts[j]),
    ensures
        parts_missing(parts, from) == parts_missing(parts, i),
    decreases i - from,
{
    if from < i {
        assert(is_plain_part(parts[from]));
        lemma_plain_parts(parts, from + 1, i);
    }
}

/// A concatenation can be matched exactly where it has parts and each is a vertex or an edge that
/// points to one side; else the first part that is neither is reported, an edge by its kind.
pub proof fn first_part_that_is_not_plain_is_reported(parts: Vec<BoundPathPatternExpr>, i: int)
    requires
        0 <= i <= parts@.len(),
        forall|j: int| 0 <= j < i ==> is_plain_part(#[trigger] parts@[j]),
        i < parts@.len() ==> !is_plain_part(parts@[i]),
    ensures
        ({
            let r = path_missing(BoundPathPatternExpr::Concat(parts));
            &&& r is None <==> parts@.len() > 0 && i == parts@.len()
            &&& parts@.len() == 0 ==> r == Some(
                Missing { feature: "empty concat in path pattern"@, issue: None },
            )
            &&& i < parts@.len() && !(parts@[i] matches BoundPathPatternExpr::Pattern(_)) ==> r
                == Some(
                Missing {
                    feature: "complex nest patterns in concat is not supported yet"@,
                    issue: None,
                },
            )
            &&& i < parts@.len() ==> (parts@[i] matches BoundPathPatternExpr::Pattern(
                BoundElementPattern::Edge(e),
            ) ==> r == Some(
                Missing {
                    feature: "edge direction "@ + (match e.kind {
                        BoundEdgePatternKind::Left => "Left"@,
                        BoundEdgePatternKind::LeftUndirected => "LeftUndirected"@,
                        BoundEdgePatternKind::LeftRight => "LeftRight"@,
                        BoundEdgePatternKind::Right => "Right"@,
                        BoundEdgePatternKind::RightUndirected => "RightUndirected"@,
                        BoundEdgePatternKind::Undirected => "Undirected"@,
                        BoundEdgePatternKind::Any => "Any"@,
                    }) + " is not supported in path pattern"@,
                    issue: None,
                },
            ))
        }),
{
    if parts@.len() > 0 {
        lemma_plain_parts(parts@, 0, i);
    }
}

/// Which other path patterns can be matched, and what is missing for the rest.
pub proof fn other_patterns_are_reported(expr: BoundPathPatternExpr)
    ensures
        expr matches BoundPathPatternExpr::Pattern(BoundElementPattern::Vertex(_)) ==> path_missing(
            expr,
        ) is None,
        expr matches BoundPathPatternExpr::Pattern(BoundElementPattern::Edge(_)) ==> path_missing(
            expr,
        ) == Some(
            Missing {
                feature: "top-level single edge without anchors is not supported yet"@,
                issue: None,
            },
        ),
        expr is Subpath ==> path_missing(expr) == Some(
            Missing { feature: "sub path is not supported"@, issue: None },
        ),
        expr is Alternation ==> path_missing(expr) == Some(
            Missing {
                feature: "alternation (A|B) in path pattern is not supported yet"@,
                issue: None,
            },
        ),
        expr is Union ==> path_missing(expr) == Some(
            Missing { feature: "union of path patterns is not supported yet"@, issue: None },
        ),
        expr is Quantified ==> path_missing(expr) == Some(
            Missing {
                feature: "quantified path (*, +, {m,n}) is not supported yet"@,
                issue: None,
            },
        ),
        expr is Optional ==> path_missing(expr) == Some(
            Missing { feature: "optional path (?) is not supported yet"@, issue: None },
        ),
{
}

/// A pattern is planned where it has one path, no predicate, a path that can be matched, and a
/// vertex in it; a predicate is reported before the number of paths, and both before the path.
pub proof fn patterns_are_refused_in_order(g: BoundGraphPattern)
    ensures
        g.predicate is Some ==> match_missing(g) == Some(
            Missing {
                feature: "MATCH with predicate (WHERE) is not supported yet"@,
                issue: Some(1),
            },
        ),
        g.predicate is None && g.paths@.len() != 1 ==> match_missing(g) == Some(
            Missing {
                feature: "multiple paths in MATCH are not supported yet"@,
                issue: Some(1),
            },
        ),
        g.predicate is None && g.paths@.len() == 1 && path_missing(g.paths@[0]) is Some
            ==> match_missing(g) == path_missing(g.paths@[0]),
        g.predicate is None && g.paths@.len() == 1 && path_missing(g.paths@[0]) is None
            ==> pattern_missing(g) is None,
        g.predicate is None && g.paths@.len() == 1 ==> (g.paths@[0] matches
            BoundPathPatternExpr::Pattern(BoundElementPattern::Vertex(_)) ==> match_missing(g)
            is None),
{
}

proof fn lemma_vertices_among(parts: Seq<BoundPathPatternExpr>, m: int)
    requires
        0 <= m <= parts.len(),
    ensures
        path_vertices(parts, m).len() > 0 <==> exists|i: int|
            0 <= i < m && (#[trigger] parts[i] matches BoundPathPatternExpr::Pattern(
                BoundElementPattern::Vertex(_),
            )),
    decreases m,
{
    if m > 0 {
        lemma_vertices_among(parts, m - 1);
        let last = parts[m - 1];
    }
}

/// A concatenation of plain parts is planned where one of them is a vertex, and else refused.
pub proof fn paths_need_a_vertex(g: BoundGraphPattern, parts: Vec<BoundPathPatternExpr>)
    requires
        g.predicate is None,
        g.paths@.len() == 1,
        g.paths@[0] == BoundPathPatternExpr::Concat(parts),
        parts@.len() > 0,
        forall|j: int| 0 <= j < parts@.len() ==> is_plain_part(#[trigger] parts@[j]),
    ensures
        (exists|i: int|
            0 <= i < parts@.len() && (#[trigger] parts@[i] matches BoundPathPatternExpr::Pattern(
                BoundElementPattern::Vertex(_),
            ))) ==> match_missing(g) is None,
        (forall|i: int|
            0 <= i < parts@.len() ==> (#[trigger] parts@[i] matches BoundPathPatternExpr::Pattern(
                BoundElementPattern::Edge(_),
            ))) ==> match_missing(g) == Some(
            Missing { feature: "empty path patterns"@, issue: None },
        ),
{
    first_part_that_is_not_plain_is_reported(parts, parts@.len() as int);
    lemma_vertices_among(parts@, parts@.len() as int);
}

proof fn lemma_inputs_without_gap(plan: PlanNode, from: int, i: int)
    requires
        0 <= from <= i <= plan.inputs().len(),
        forall|j: int| from <= j < i ==> plan_missing(#[trigger] plan.inputs()[j]) is None,
    ensures
        inputs_missing(plan, from) == inputs_missing(plan, i),
    decreases i - from,
{
    if from < i {
        assert(plan_missing(plan.inputs()[from]) is None);
        lemma_inputs_without_gap(plan, from + 1, i);
    }
}

/// What is missing for a plan is what is missing for the first of its inputs that lacks something;
/// where none does, what a match of its own lacks, and nothing for every other operator.
pub proof fn first_gap_is_reported(plan: PlanNode, i: int)
    requires
        0 <= i <= plan.inputs().len(),
        forall|j: int| 0 <= j < i ==> plan_missing(#[trigger] plan.inputs()[j]) is None,
        i < plan.inputs().len() ==> plan_missing(plan.inputs()[i]) is Some,
    ensures
        i < plan.inputs().len() ==> plan_missing(plan) == plan_missing(plan.inputs()[i]),
        i == plan.inputs().len() ==> (plan matches PlanNode::LogicalMatch(m) ==> plan_missing(plan)
            == match_missing(m.pattern)),
        i == plan.inputs().len() && !(plan is LogicalMatch) ==> plan_missing(plan) is None,
{
    lemma_inputs_without_gap(plan, 0, i);
    if i < plan.inputs().len() {
        lemma_inputs_smaller(plan, i);
    }
}

} // verus!
