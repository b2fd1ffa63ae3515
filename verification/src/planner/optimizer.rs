//! From logical plans to physical plans.

use vstd::prelude::*;
use std::sync::Arc;
use crate::common::data_type::LabelSpecs;
use crate::planner::bound::{
    BoundEdgePattern, BoundEdgePatternKind, BoundElementPattern, BoundGraphPattern,
    BoundPathPatternExpr,
};
use crate::planner::error::{is_missing, not_implemented, Missing, PlanResult};
use crate::planner::plan::node::{
    is_scan_schema, lemma_inputs_smaller, Expand, ExpandDirection, Filter, Limit, NodeIdScan,
    Offset, Project, Sort,
};
use crate::planner::plan::PlanNode;

verus! {

/// The parts of a path pattern that a plan can match.
#[derive(Debug)]
pub enum PathPatternInfo {
    SingleVertex { var: String, label_specs: LabelSpecs },
    Path {
        vertices: Vec<(String, LabelSpecs)>,
        edges: Vec<(Option<String>, LabelSpecs, ExpandDirection)>,
    },
}

// ---------------------------------------------------------------------------------------------
// Path patterns
// ---------------------------------------------------------------------------------------------

/// How a kind of edge is written.
pub open spec fn edge_kind_text(kind: BoundEdgePatternKind) -> Seq<char> {
    match kind {
        BoundEdgePatternKind::Left => "Left"@,
        BoundEdgePatternKind::LeftUndirected => "LeftUndirected"@,
        BoundEdgePatternKind::LeftRight => "LeftRight"@,
        BoundEdgePatternKind::Right => "Right"@,
        BoundEdgePatternKind::RightUndirected => "RightUndirected"@,
        BoundEdgePatternKind::Undirected => "Undirected"@,
        BoundEdgePatternKind::Any => "Any"@,
    }
}

/// The direction in which an edge is followed, where it can be.
pub open spec fn expand_direction(kind: BoundEdgePatternKind) -> Option<ExpandDirection> {
    match kind {
        BoundEdgePatternKind::Right => Some(ExpandDirection::Outgoing),
        BoundEdgePatternKind::Left => Some(ExpandDirection::Incoming),
        _ => None,
    }
}

pub open spec fn missing(feature: Seq<char>) -> Option<Missing> {
    Some(Missing { feature, issue: None })
}

/// Why a part of a path cannot be matched, if it cannot.
pub open spec fn part_missing(part: BoundPathPatternExpr) -> Option<Missing> {
    match part {
        BoundPathPatternExpr::Pattern(BoundElementPattern::Vertex(_)) => None,
        BoundPathPatternExpr::Pattern(BoundElementPattern::Edge(e)) => if expand_direction(
            e.kind,
        ) is Some {
            None
        } else {
            missing("edge direction "@ + edge_kind_text(e.kind)
                + " is not supported in path pattern"@)
        },
        _ => missing("complex nest patterns in concat is not supported yet"@),
    }
}

/// Why the parts from `from` on cannot be matched, if they cannot: the first reason counts.
pub open spec fn parts_missing(parts: Seq<BoundPathPatternExpr>, from: int) -> Option<Missing>
    decreases parts.len() - from,
{
    if from >= parts.len() {
        None
    } else if part_missing(parts[from]) is Some {
        part_missing(parts[from])
    } else {
        parts_missing(parts, from + 1)
    }
}

/// Why a path cannot be matched, if it cannot.
pub open spec fn path_missing(expr: BoundPathPatternExpr) -> Option<Missing> {
    match expr {
        BoundPathPatternExpr::Pattern(BoundElementPattern::Vertex(_)) => None,
        BoundPathPatternExpr::Pattern(BoundElementPattern::Edge(_)) => missing(
            "top-level single edge without anchors is not supported yet"@,
        ),
        BoundPathPatternExpr::Concat(parts) => if parts@.len() == 0 {
            missing("empty concat in path pattern"@)
        } else {
            parts_missing(parts@, 0)
        },
        BoundPathPatternExpr::Subpath(_) => missing("sub path is not supported"@),
        BoundPathPatternExpr::Alternation(_) => missing(
            "alternation (A|B) in path pattern is not supported yet"@,
        ),
        BoundPathPatternExpr::Union(_) => missing("union of path patterns is not supported yet"@),
        BoundPathPatternExpr::Quantified { .. } => missing(
            "quantified path (*, +, {m,n}) is not supported yet"@,
        ),
        BoundPathPatternExpr::Optional(_) => missing("optional path (?) is not supported yet"@),
    }
}

/// Why a pattern cannot be taken apart, if it cannot.
pub open spec fn pattern_missing(g: BoundGraphPattern) -> Option<Missing> {
    if g.predicate is Some {
        Some(
            Missing {
                feature: "MATCH with predicate (WHERE) is not supported yet"@,
                issue: Some(1),
            },
        )
    } else if g.paths@.len() != 1 {
        Some(
            Missing {
                feature: "multiple paths in MATCH are not supported yet"@,
                issue: Some(1),
            },
        )
    } else {
        path_missing(g.paths@[0])
    }
}

/// The vertices among the first `n` parts.
pub open spec fn path_vertices(parts: Seq<BoundPathPatternExpr>, n: int) -> Seq<
    (String, LabelSpecs),
>
    decreases n,
{
    if n <= 0 {
        Seq::empty()
    } else {
        match parts[n - 1] {
            BoundPathPatternExpr::Pattern(BoundElementPattern::Vertex(v)) => path_vertices(
                parts,
                n - 1,
            ).push((v.var, v.label)),
            _ => path_vertices(parts, n - 1),
        }
    }
}

/// The edges among the first `n` parts, with their directions.
pub open spec fn path_edges(parts: Seq<BoundPathPatternExpr>, n: int) -> Seq<
    (Option<String>, LabelSpecs, ExpandDirection),
>
    decreases n,
{
    if n <= 0 {
        Seq::empty()
    } else {
        match parts[n - 1] {
            BoundPathPatternExpr::Pattern(BoundElementPattern::Edge(e)) => path_edges(
                parts,
                n - 1,
            ).push((e.var, e.label, expand_direction(e.kind)->0)),
            _ => path_edges(parts, n - 1),
        }
    }
}

/// The parts of a path that can be matched.
pub open spec fn is_info_of(info: PathPatternInfo, expr: BoundPathPatternExpr) -> bool {
    match expr {
        BoundPathPatternExpr::Pattern(BoundElementPattern::Vertex(v)) => (info matches
            PathPatternInfo::SingleVertex { var, label_specs } && var == v.var && label_specs
            == v.label),
        BoundPathPatternExpr::Concat(parts) => (info matches PathPatternInfo::Path {
            vertices,
            edges,
        } && vertices@ == path_vertices(parts@, parts@.len() as int) && edges@ == path_edges(
            parts@,
            parts@.len() as int,
        )),
        _ => false,
    }
}

fn direction_of(e: &BoundEdgePattern) -> (r: PlanResult<ExpandDirection>)
    ensures
        match r {
            Ok(direction) => expand_direction(e.kind) == Some(direction),
            Err(err) => expand_direction(e.kind) is None && is_missing(
                err,
                (Missing {
                    feature: "edge direction "@ + edge_kind_text(e.kind)
                        + " is not supported in path pattern"@,
                    issue: None,
                }),
            ),
        },
{
    let kind = match e.kind {
        BoundEdgePatternKind::Right => {
            return Ok(ExpandDirection::Outgoing);
        },
        BoundEdgePatternKind::Left => {
            return Ok(ExpandDirection::Incoming);
        },
        BoundEdgePatternKind::LeftUndirected => "LeftUndirected",
        BoundEdgePatternKind::LeftRight => "LeftRight",
        BoundEdgePatternKind::RightUndirected => "RightUndirected",
        BoundEdgePatternKind::Undirected => "Undirected",
        BoundEdgePatternKind::Any => "Any",
    };
    let mut text = "edge direction ".to_owned();
    text.append(kind);
    text.append(" is not supported in path pattern");
    Err(not_implemented(text.as_str(), None))
}

fn copy_var(var: &Option<String>) -> (r: Option<String>)
    ensures
        r == *var,
{
    match var {
        Some(name) => Some(name.clone()),
        None => None,
    }
}

/// Takes a path pattern apart.
pub fn extract_path_pattern(expr: &BoundPathPatternExpr) -> (r: PlanResult<PathPatternInfo>)
    ensures
        match r {
            Ok(info) => path_missing(*expr) is None && is_info_of(info, *expr),
            Err(e) => path_missing(*expr) matches Some(m) && is_missing(e, m),
        },
{
    match expr {
        BoundPathPatternExpr::Pattern(BoundElementPattern::Vertex(v)) => Ok(
            PathPatternInfo::SingleVertex { var: v.var.clone(), label_specs: v.label.clone() },
        ),
        BoundPathPatternExpr::Concat(parts) => {
            if parts.len() == 0 {
                return Err(not_implemented("empty concat in path pattern", None));
            }
            let mut vertices: Vec<(String, LabelSpecs)> = Vec::new();
            let mut edges: Vec<(Option<String>, LabelSpecs, ExpandDirection)> = Vec::new();
            let mut i: usize = 0;
            while i < parts.len()
                invariant
                    i <= parts.len(),
                    *expr == BoundPathPatternExpr::Concat(*parts),
                    parts@.len() > 0,
                    parts_missing(parts@, 0) == parts_missing(parts@, i as int),
                    vertices@ == path_vertices(parts@, i as int),
                    edges@ == path_edges(parts@, i as int),
                decreases parts.len() - i,
            {
                match &parts[i] {
                    BoundPathPatternExpr::Pattern(BoundElementPattern::Vertex(v)) => {
                        vertices.push((v.var.clone(), v.label.clone()));
                    },
                    BoundPathPatternExpr::Pattern(BoundElementPattern::Edge(e)) => {
                        match direction_of(e) {
                            Ok(direction) => {
                                edges.push((copy_var(&e.var), e.label.clone(), direction));
                            },
                            Err(err) => {
                                return Err(err);
                            },
                        }
                    },
                    _ => {
                        return Err(
                            not_implemented(
                                "complex nest patterns in concat is not supported yet",
                                None,
                            ),
                        );
                    },
                }
                i = i + 1;
            }
            Ok(PathPatternInfo::Path { vertices, edges })
        },
        BoundPathPatternExpr::Subpath(_) => Err(not_implemented("sub path is not supported", None)),
        BoundPathPatternExpr::Alternation(_) => Err(
            not_implemented("alternation (A|B) in path pattern is not supported yet", None),
        ),
        BoundPathPatternExpr::Union(_) => Err(
            not_implemented("union of path patterns is not supported yet", None),
        ),
        BoundPathPatternExpr::Quantified { .. } => Err(
            not_implemented("quantified path (*, +, {m,n}) is not supported yet", None),
        ),
        BoundPathPatternExpr::Optional(_) => Err(
            not_implemented("optional path (?) is not supported yet", None),
        ),
        BoundPathPatternExpr::Pattern(BoundElementPattern::Edge(_)) => Err(
            not_implemented("top-level single edge without anchors is not supported yet", None),
        ),
    }
}

/// Takes a pattern apart that has one path and no predicate.
pub fn extract_path_pattern_from_graph_pattern(g: &BoundGraphPattern) -> (r: PlanResult<
    PathPatternInfo,
>)
    ensures
        match r {
            Ok(info) => pattern_missing(*g) is None && is_info_of(info, g.paths@[0]),
            Err(e) => pattern_missing(*g) matches Some(m) && is_missing(e, m),
        },
{
    if g.predicate.is_some() {
        return Err(
            not_implemented("MATCH with predicate (WHERE) is not supported yet", Some(1)),
        );
    }
    if g.paths.len() != 1 {
        return Err(not_implemented("multiple paths in MATCH are not supported yet", Some(1)));
    }
    extract_path_pattern(&g.paths[0])
}

// ---------------------------------------------------------------------------------------------
// Plans
// ---------------------------------------------------------------------------------------------

/// Why a pattern cannot be matched, if it cannot.
pub open spec fn match_missing(g: BoundGraphPattern) -> Option<Missing> {
    if pattern_missing(g) is Some {
        pattern_missing(g)
    } else {
        match g.paths@[0] {
            BoundPathPatternExpr::Concat(parts) => if path_vertices(
                parts@,
                parts@.len() as int,
            ).len() == 0 {
                missing("empty path patterns"@)
            } else {
                None
            },
            _ => None,
        }
    }
}

/// Why a plan cannot be made physical, if it cannot: the reasons of the inputs come first.
pub open spec fn plan_missing(plan: PlanNode) -> Option<Missing>
    decreases plan, plan.inputs().len() + 1,
{
    if inputs_missing(plan, 0) is Some {
        inputs_missing(plan, 0)
    } else {
        match plan {
            PlanNode::LogicalMatch(m) => match_missing(m.pattern),
            _ => None,
        }
    }
}

/// Why the inputs from `from` on cannot be made physical, if they cannot: the first reason
/// counts.
pub open spec fn inputs_missing(plan: PlanNode, from: int) -> Option<Missing>
    decreases plan, plan.inputs().len() - from,
{
    if from < 0 || from >= plan.inputs().len() {
        None
    } else {
        proof {
            lemma_inputs_smaller(plan, from);
        }
        if plan_missing(plan.inputs()[from]) is Some {
            plan_missing(plan.inputs()[from])
        } else {
            inputs_missing(plan, from + 1)
        }
    }
}

/// The operator has as many inputs as it needs, and a projection has columns.
pub open spec fn has_planned_shape(plan: PlanNode) -> bool {
    match plan {
        PlanNode::LogicalMatch(_) => true,
        PlanNode::LogicalOneRow(_) => true,
        PlanNode::LogicalExplain(_) => true,
        PlanNode::LogicalFilter(_) => plan.inputs().len() == 1,
        PlanNode::LogicalProject(_) => plan.inputs().len() == 1 && plan.spec_schema() is Some,
        PlanNode::LogicalSort(_) => plan.inputs().len() == 1,
        PlanNode::LogicalLimit(_) => plan.inputs().len() == 1,
        PlanNode::LogicalOffset(_) => plan.inputs().len() == 1,
        PlanNode::LogicalVectorIndexScan(_) => plan.inputs().len() == 1,
        PlanNode::LogicalVertexPropertyFetch(_) => plan.inputs().len() == 1,
        PlanNode::LogicalHashJoin(_) => plan.inputs().len() == 2,
        PlanNode::LogicalCall(_) => plan.inputs().len() == 0,
        PlanNode::LogicalCreateVectorIndex(_) => plan.inputs().len() == 0,
        PlanNode::LogicalDropVectorIndex(_) => plan.inputs().len() == 0,
        PlanNode::PhysicalCreateGraph(_) => plan.inputs().len() == 0,
        PlanNode::PhysicalDropGraph(_) => plan.inputs().len() == 0,
        _ => false,
    }
}

/// Every operator that is reached before something is missing has the shape that it needs.
pub open spec fn is_plannable(plan: PlanNode) -> bool
    decreases plan, plan.inputs().len() + 1,
{
    inputs_plannable(plan, 0) && (inputs_missing(plan, 0) is None ==> has_planned_shape(plan))
}

/// The inputs from `from` on can be planned, up to the first for which something is missing.
pub open spec fn inputs_plannable(plan: PlanNode, from: int) -> bool
    decreases plan, plan.inputs().len() - from,
{
    if from < 0 || from >= plan.inputs().len() {
        true
    } else {
        proof {
            lemma_inputs_smaller(plan, from);
        }
        is_plannable(plan.inputs()[from]) && (plan_missing(plan.inputs()[from]) is None
            ==> inputs_plannable(plan, from + 1))
    }
}

/// A scan of the vertices that a variable and its labels stand for.
pub open spec fn is_vertex_scan(plan: PlanNode, var: Seq<char>, labels: LabelSpecs) -> bool {
    match plan {
        PlanNode::PhysicalNodeScan(scan) => scan.var@ == var && scan.labels == labels
            && plan.inputs().len() == 0 && (plan.spec_schema() matches Some(schema)
            && is_scan_schema(*schema, var, labels)),
        _ => false,
    }
}

/// A plan that scans the first vertex of a path and follows its first `n` edges.
pub open spec fn is_path_plan(
    plan: PlanNode,
    vertices: Seq<(String, LabelSpecs)>,
    edges: Seq<(Option<String>, LabelSpecs, ExpandDirection)>,
    n: int,
) -> bool
    decreases n,
{
    if n <= 0 {
        is_vertex_scan(plan, vertices[0].0@, vertices[0].1)
    } else {
        match plan {
            PlanNode::PhysicalExpand(expand) => {
                &&& plan.inputs().len() == 1
                &&& is_path_plan(plan.inputs()[0], vertices, edges, n - 1)
                &&& expand.input_column_index == 0
                &&& expand.edge_var == edges[n - 1].0
                &&& expand.edge_labels == edges[n - 1].1
                &&& expand.direction == edges[n - 1].2
                &&& expand.target_var == Some(vertices[n].0)
                &&& expand.target_vertex_labels == Some(vertices[n].1)
                &&& plan.spec_schema() matches Some(schema)
                &&& plan.inputs()[0].spec_schema() matches Some(child)
                &&& expand.is_schema_over(*schema, *child)
            },
            _ => false,
        }
    }
}

/// The number of edges that can be followed: each needs a vertex at its end.
pub open spec fn path_length(vertices: int, edges: int) -> int {
    if edges < vertices - 1 {
        edges
    } else {
        vertices - 1
    }
}

/// A plan that matches a path.
pub open spec fn is_match_plan(plan: PlanNode, expr: BoundPathPatternExpr) -> bool {
    match expr {
        BoundPathPatternExpr::Pattern(BoundElementPattern::Vertex(v)) => is_vertex_scan(
            plan,
            v.var@,
            v.label,
        ),
        BoundPathPatternExpr::Concat(parts) => {
            let vertices = path_vertices(parts@, parts@.len() as int);
            let edges = path_edges(parts@, parts@.len() as int);
            is_path_plan(
                plan,
                vertices,
                edges,
                path_length(vertices.len() as int, edges.len() as int),
            )
        },
        _ => false,
    }
}

/// The input of an operator with one input is a physical plan of the input of another.
pub open spec fn is_over_physical(physical: PlanNode, logical: PlanNode) -> bool
    decreases logical, 0int,
{
    if logical.inputs().len() == 1 {
        proof {
            lemma_inputs_smaller(logical, 0);
        }
        physical.inputs().len() == 1 && is_physical_of(
            physical.inputs()[0],
            logical.inputs()[0],
        )
    } else {
        false
    }
}

/// A physical plan that does what a logical plan says.
pub open spec fn is_physical_of(physical: PlanNode, logical: PlanNode) -> bool
    decreases logical, 1int,
{
    match logical {
        PlanNode::LogicalMatch(m) => is_match_plan(physical, m.pattern.paths@[0]),
        PlanNode::LogicalFilter(l) => (physical matches PlanNode::PhysicalFilter(p) && p.predicate
            == l.predicate && p.base.schema == physical.inputs()[0].spec_schema())
            && is_over_physical(physical, logical),
        PlanNode::LogicalProject(l) => (physical matches PlanNode::PhysicalProject(p) && p.exprs
            == l.exprs && p.base.schema == l.base.schema) && is_over_physical(physical, logical),
        PlanNode::LogicalSort(l) => (physical matches PlanNode::PhysicalSort(p) && p.specs
            == l.specs && p.base.schema == physical.inputs()[0].spec_schema()) && is_over_physical(
            physical,
            logical,
        ),
        PlanNode::LogicalLimit(l) => (physical matches PlanNode::PhysicalLimit(p) && p.limit
            == l.limit && p.approximate == l.approximate && p.base.schema
            == physical.inputs()[0].spec_schema()) && is_over_physical(physical, logical),
        PlanNode::LogicalOffset(l) => (physical matches PlanNode::PhysicalOffset(p) && p.offset
            == l.offset && p.base.schema == physical.inputs()[0].spec_schema())
            && is_over_physical(physical, logical),
        PlanNode::LogicalVectorIndexScan(l) => (physical matches PlanNode::PhysicalVectorIndexScan(
            p,
        ) && p.query == l.query && p.base.schema == l.base.schema) && is_over_physical(
            physical,
            logical,
        ),
        PlanNode::LogicalVertexPropertyFetch(l) => (physical matches
            PlanNode::PhysicalVertexPropertyFetch(p) && p.binding == l.binding && p.property_ids
            == l.property_ids && p.base.schema == l.base.schema) && is_over_physical(
            physical,
            logical,
        ),
        PlanNode::LogicalHashJoin(l) => if logical.inputs().len() == 2 {
            proof {
                lemma_inputs_smaller(logical, 0);
                lemma_inputs_smaller(logical, 1);
            }
            (physical matches PlanNode::PhysicalHashJoin(p) && p.conds == l.conds && p.base.schema
                == l.base.schema) && physical.inputs().len() == 2 && is_physical_of(
                physical.inputs()[0],
                logical.inputs()[0],
            ) && is_physical_of(physical.inputs()[1], logical.inputs()[1])
        } else {
            false
        },
        PlanNode::LogicalCall(l) => physical == PlanNode::PhysicalCall(l),
        PlanNode::LogicalOneRow(l) => physical == PlanNode::PhysicalOneRow(l),
        PlanNode::LogicalExplain(l) => physical == PlanNode::PhysicalExplain(l),
        PlanNode::LogicalCreateVectorIndex(l) => physical == PlanNode::PhysicalCreateVectorIndex(
            l,
        ),
        PlanNode::LogicalDropVectorIndex(l) => physical == PlanNode::PhysicalDropVectorIndex(l),
        PlanNode::PhysicalCreateGraph(_) => physical == logical,
        PlanNode::PhysicalDropGraph(_) => physical == logical,
        _ => false,
    }
}

/// A plan for a path: a scan, and an operator for every edge that has a vertex at its end.
fn plan_path(
    vertices: &Vec<(String, LabelSpecs)>,
    edges: &Vec<(Option<String>, LabelSpecs, ExpandDirection)>,
) -> (r: PlanNode)
    requires
        vertices@.len() > 0,
    ensures
        is_path_plan(
            r,
            vertices@,
            edges@,
            path_length(vertices@.len() as int, edges@.len() as int),
        ),
{
    let mut plan = PlanNode::PhysicalNodeScan(
        Arc::new(NodeIdScan::new(vertices[0].0.as_str(), vertices[0].1.clone())),
    );
    let mut n: usize = 0;
    while n < edges.len() && n + 1 < vertices.len()
        invariant
            n <= edges@.len(),
            n < vertices@.len(),
            is_path_plan(plan, vertices@, edges@, n as int),
            plan.spec_schema() matches Some(schema) && schema.var_labels.wf(),
        decreases edges.len() - n,
    {
        let child = plan.clone();
        let expand = Expand::new(
            child,
            0,
            edges[n].1.clone(),
            Some(vertices[n + 1].1.clone()),
            copy_var(&edges[n].0),
            Some(vertices[n + 1].0.clone()),
            edges[n].2,
        );
        plan = PlanNode::PhysicalExpand(Arc::new(expand));
        n = n + 1;
        assert(plan.inputs()[0] == child);
    }
    plan
}

/// A physical plan for a logical one.
fn create_physical_plan_impl(logical_plan: &PlanNode) -> (r: PlanResult<PlanNode>)
    requires
        is_plannable(*logical_plan),
    ensures
        match r {
            Ok(plan) => plan_missing(*logical_plan) is None && is_physical_of(plan, *logical_plan),
            Err(e) => plan_missing(*logical_plan) matches Some(m) && is_missing(e, m),
        },
    decreases *logical_plan,
{
    let inputs = logical_plan.children();
    let mut children: Vec<PlanNode> = Vec::new();
    let mut i: usize = 0;
    while i < inputs.len()
        invariant
            i <= inputs@.len(),
            inputs@ == logical_plan.inputs(),
            children@.len() == i,
            inputs_plannable(*logical_plan, i as int),
            inputs_missing(*logical_plan, 0) == inputs_missing(*logical_plan, i as int),
            forall|k: int|
                0 <= k < i ==> is_physical_of(#[trigger] children@[k], logical_plan.inputs()[k]),
        decreases inputs.len() - i,
    {
        proof {
            lemma_inputs_smaller(*logical_plan, i as int);
        }
        match create_physical_plan_impl(&inputs[i]) {
            Ok(child) => {
                children.push(child);
            },
            Err(e) => {
                return Err(e);
            },
        }
        i = i + 1;
    }
    proof {
        reveal_with_fuel(is_physical_of, 2);
        reveal_with_fuel(is_over_physical, 2);
        assert(inputs_missing(*logical_plan, i as int) is None);
        if children@.len() >= 1 {
            assert(is_physical_of(children@[0], logical_plan.inputs()[0]));
        }
        if children@.len() == 2 {
            assert(is_physical_of(children@[1], logical_plan.inputs()[1]));
        }
    }
    match logical_plan {
        PlanNode::LogicalMatch(m) => match extract_path_pattern_from_graph_pattern(&m.pattern) {
            Ok(PathPatternInfo::SingleVertex { var, label_specs }) => Ok(
                PlanNode::PhysicalNodeScan(Arc::new(NodeIdScan::new(var.as_str(), label_specs))),
            ),
            Ok(PathPatternInfo::Path { vertices, edges }) => {
                if vertices.len() == 0 {
                    return Err(not_implemented("empty path patterns", None));
                }
                Ok(plan_path(&vertices, &edges))
            },
            Err(e) => Err(e),
        },
        PlanNode::LogicalFilter(filter) => {
            let child = take_child(children);
            let filter = Filter::new(child, filter.predicate.clone());
            Ok(PlanNode::PhysicalFilter(Arc::new(filter)))
        },
        PlanNode::LogicalProject(project) => {
            let child = take_child(children);
            let exprs = project.exprs.clone();
            match &project.base.schema {
                Some(schema) => Ok(
                    PlanNode::PhysicalProject(
                        Arc::new(Project::new(child, exprs, schema.clone())),
                    ),
                ),
                None => vstd::pervasive::unreached(),
            }
        },
        PlanNode::LogicalCall(call) => Ok(PlanNode::PhysicalCall(call.clone())),
        PlanNode::LogicalOneRow(one_row) => Ok(PlanNode::PhysicalOneRow(one_row.clone())),
        PlanNode::LogicalSort(sort) => {
            let child = take_child(children);
            let sort = Sort::new(child, sort.specs.clone());
            Ok(PlanNode::PhysicalSort(Arc::new(sort)))
        },
        PlanNode::LogicalLimit(limit) => {
            let child = take_child(children);
            let limit = Limit::new(child, limit.limit, limit.approximate);
            Ok(PlanNode::PhysicalLimit(Arc::new(limit)))
        },
        PlanNode::LogicalOffset(offset) => {
            let child = take_child(children);
            let offset = Offset::new(child, offset.offset);
            Ok(PlanNode::PhysicalOffset(Arc::new(offset)))
        },
        PlanNode::LogicalVectorIndexScan(vector_scan) => {
            let child = take_child(children);
            let scan = vector_scan.clone_with_child(child);
            Ok(PlanNode::PhysicalVectorIndexScan(Arc::new(scan)))
        },
        PlanNode::LogicalHashJoin(join) => {
            let right = children.pop().unwrap();
            let left = children.pop().unwrap();
            let join = join.clone_with_children(left, right);
            Ok(PlanNode::PhysicalHashJoin(Arc::new(join)))
        },
        PlanNode::LogicalVertexPropertyFetch(fetch) => {
            let child = take_child(children);
            let fetch = fetch.clone_with_child(child);
            Ok(PlanNode::PhysicalVertexPropertyFetch(Arc::new(fetch)))
        },
        PlanNode::LogicalExplain(explain) => Ok(PlanNode::PhysicalExplain(explain.clone())),
        PlanNode::LogicalCreateVectorIndex(create_index) => Ok(
            PlanNode::PhysicalCreateVectorIndex(create_index.clone()),
        ),
        PlanNode::LogicalDropVectorIndex(drop_index) => Ok(
            PlanNode::PhysicalDropVectorIndex(drop_index.clone()),
        ),
        PlanNode::PhysicalCreateGraph(create_graph) => Ok(
            PlanNode::PhysicalCreateGraph(create_graph.clone()),
        ),
        PlanNode::PhysicalDropGraph(drop_graph) => Ok(
            PlanNode::PhysicalDropGraph(drop_graph.clone()),
        ),
        _ => vstd::pervasive::unreached(),
    }
}

/// The only child.
fn take_child(children: Vec<PlanNode>) -> (r: PlanNode)
    requires
        children@.len() == 1,
    ensures
        r == children@[0],
{
    let mut children = children;
    children.pop().unwrap()
}

/// Makes physical plans.
#[derive(Debug)]
pub struct Optimizer {}

impl Default for Optimizer {
    fn default() -> (r: Self)
        ensures
            r == (Optimizer {  }),
    {
        Optimizer {  }
    }
}

impl Optimizer {
    pub fn new() -> (r: Self)
        ensures
            r == (Optimizer {  }),
    {
        Optimizer {  }
    }

    /// A physical plan for a logical one, or what is missing for it. The logical plan is the one
    /// that the passes which rewrite logical plans have left, such as the one that turns a sorted
    /// and limited scan by vector distance into a scan of a vector index.
    pub fn create_physical_plan(self, logical_plan: &PlanNode) -> (r: PlanResult<PlanNode>)
        requires
            is_plannable(*logical_plan),
        ensures
            match r {
                Ok(plan) => plan_missing(*logical_plan) is None && is_physical_of(
                    plan,
                    *logical_plan,
                ),
                Err(e) => plan_missing(*logical_plan) matches Some(m) && is_missing(e, m),
            },
    {
        create_physical_plan_impl(logical_plan)
    }
}

// ---------------------------------------------------------------------------------------------
// Laws
// ---------------------------------------------------------------------------------------------

/// Every operator is physical; what an explanation or a single row holds is not run.
pub open spec fn all_physical(plan: PlanNode) -> bool
    decreases plan,
{
    !plan.is_logical() && (plan is PhysicalExplain || plan is PhysicalOneRow || forall|i: int|
        0 <= i < plan.inputs().len() ==> {
            &&& decreases_to!(plan => plan.inputs()[i])
            &&& #[trigger] all_physical(plan.inputs()[i])
        })
}

/// A plan for a path has only physical operators.
proof fn lemma_path_plan_is_physical(
    plan: PlanNode,
    vertices: Seq<(String, LabelSpecs)>,
    edges: Seq<(Option<String>, LabelSpecs, ExpandDirection)>,
    n: int,
)
    requires
        is_path_plan(plan, vertices, edges, n),
    ensures
        all_physical(plan),
    decreases n,
{
    if n > 0 {
        lemma_path_plan_is_physical(plan.inputs()[0], vertices, edges, n - 1);
        lemma_inputs_smaller(plan, 0);
    }
}

/// A plan made physical has no logical operator left in it.
pub proof fn physical_plan_has_no_logical_operator(physical: PlanNode, logical: PlanNode)
    requires
        is_plannable(logical),
        plan_missing(logical) is None,
        is_physical_of(physical, logical),
    ensures
        all_physical(physical),
    decreases logical,
{
    assert(has_planned_shape(logical));
    reveal_with_fuel(is_physical_of, 2);
    reveal_with_fuel(is_over_physical, 2);
    reveal_with_fuel(inputs_missing, 3);
    match logical {
        PlanNode::LogicalMatch(m) => {
            match m.pattern.paths@[0] {
                BoundPathPatternExpr::Concat(parts) => {
                    let vertices = path_vertices(parts@, parts@.len() as int);
                    let edges = path_edges(parts@, parts@.len() as int);
                    lemma_path_plan_is_physical(
                        physical,
                        vertices,
                        edges,
                        path_length(vertices.len() as int, edges.len() as int),
                    );
                },
                _ => {},
            }
        },
        _ => {
            if logical.inputs().len() >= 1 && physical.inputs().len() == logical.inputs().len()
                && !(logical is LogicalOneRow) && !(logical is LogicalExplain) {
                lemma_inputs_smaller(logical, 0);
                lemma_inputs_smaller(physical, 0);
                assert(inputs_plannable(logical, 0));
                physical_plan_has_no_logical_operator(physical.inputs()[0], logical.inputs()[0]);
                if logical.inputs().len() == 2 {
                    lemma_inputs_smaller(logical, 1);
                    lemma_inputs_smaller(physical, 1);
                    assert(inputs_plannable(logical, 1));
                    physical_plan_has_no_logical_operator(
                        physical.inputs()[1],
                        logical.inputs()[1],
                    );
                }
            }
        },
    }
}

/// A plan that follows `n` edges has a column for the first vertex and two for every edge.
pub proof fn path_plan_columns(
    plan: PlanNode,
    vertices: Seq<(String, LabelSpecs)>,
    edges: Seq<(Option<String>, LabelSpecs, ExpandDirection)>,
    n: int,
)
    requires
        n >= 0,
        is_path_plan(plan, vertices, edges, n),
    ensures
        plan.spec_schema() matches Some(schema) && schema.fields@.len() == 1 + 2 * n,
    decreases n,
{
    if n > 0 {
        path_plan_columns(plan.inputs()[0], vertices, edges, n - 1);
    }
}

/// A limit, an offset, a sort or a filter gives the columns that its input gives.
pub proof fn row_operators_keep_columns(physical: PlanNode, logical: PlanNode)
    requires
        is_physical_of(physical, logical),
        logical is LogicalFilter || logical is LogicalSort || logical is LogicalLimit
            || logical is LogicalOffset,
    ensures
        physical.inputs().len() == 1,
        physical.spec_schema() == physical.inputs()[0].spec_schema(),
{
    reveal_with_fuel(is_physical_of, 2);
    reveal_with_fuel(is_over_physical, 2);
}

} // verus!
