//! From plans to what runs them, from expressions to what computes them: laws.

use vstd::prelude::*;
use std::sync::Arc;
use crate::catalog::graph_type::MemoryGraphTypeCatalog;
use crate::catalog::label_set::label_set_of;
use crate::catalog::lookup_laws::first_entry_with_labels_is_found;
use crate::catalog::schema::GraphRef;
use crate::common::data_type::{field_index, DataField, DataSchema, LabelSpecs, LogicalType};
use crate::execution::builder::{
    is_widened, properties_of, runs, runs_input, runs_widened, scanned_var, widened_labels,
    widened_names, Column, Executor,
};
use crate::execution::evaluator::{
    evaluates, name_index, names_of, property_columns, property_names, Evaluator,
};
use crate::execution::lines::{lemma_line_end, line_end, lines_from};
use crate::planner::bound::{BoundExpr, BoundExprKind};
use crate::planner::plan::node::{Explain, HashJoin, Limit, Offset, Project, Sort};
use crate::planner::plan::PlanNode;

verus! {

// ---------------------------------------------------------------------------------------------
// Columns by name
// ---------------------------------------------------------------------------------------------

/// A column is found at the first position that has its name.
pub proof fn first_column_with_a_name_is_found(
    fields: Seq<DataField>,
    name: Seq<char>,
    from: int,
    i: int,
)
    requires
        0 <= from <= i <= fields.len(),
        i < fields.len() ==> fields[i].name@ == name,
        forall|j: int| from <= j < i ==> (#[trigger] fields[j]).name@ != name,
    ensures
        i < fields.len() ==> field_index(fields, name, from) == Some(i),
        i == fields.len() ==> field_index(fields, name, from) is None,
    decreases i - from,
{
    if from < i {
        assert(fields[from].name@ != name);
        first_column_with_a_name_is_found(fields, name, from + 1, i);
    }
}

proof fn lemma_found_field(fields: Seq<DataField>, name: Seq<char>, from: int)
    requires
        from >= 0,
    ensures
        match field_index(fields, name, from) {
            Some(i) => from <= i < fields.len() && fields[i].name@ == name && forall|j: int|
                from <= j < i ==> (#[trigger] fields[j]).name@ != name,
            None => forall|j: int| from <= j < fields.len() ==> (#[trigger] fields[j]).name@ != name,
        },
    decreases fields.len() - from,
{
    if from < fields.len() && fields[from].name@ != name {
        lemma_found_field(fields, name, from + 1);
    }
}

proof fn lemma_found_name(names: Seq<Seq<char>>, name: Seq<char>, from: int)
    requires
        from >= 0,
    ensures
        match name_index(names, name, from) {
            Some(i) => from <= i < names.len() && names[i] == name && forall|j: int|
                from <= j < i ==> #[trigger] names[j] != name,
            None => forall|j: int| from <= j < names.len() ==> #[trigger] names[j] != name,
        },
    decreases names.len() - from,
{
    if from < names.len() && names[from] != name {
        lemma_found_name(names, name, from + 1);
    }
}

// ---------------------------------------------------------------------------------------------
// Evaluators
// ---------------------------------------------------------------------------------------------

/// The evaluator of a value gives the value, that of a variable reads the first column with the
/// name of the variable, and that of a property the first column named by the variable, an
/// underscore and the property.
pub proof fn evaluators_read_the_named_column(
    e: Evaluator,
    expr: BoundExpr,
    fields: Seq<DataField>,
    labels: Map<Seq<char>, LabelSpecs>,
)
    requires
        evaluates(e, expr, names_of(fields), labels),
    ensures
        expr.kind matches BoundExprKind::Value(value) ==> (e matches Evaluator::Constant(v) && v
            == value),
        expr.kind matches BoundExprKind::Variable(var) ==> !(expr.logical_type is Vertex) ==> (
        e matches Evaluator::ColumnRef(i) && i < fields.len() && fields[i as int].name@ == var@
            && forall|j: int| 0 <= j < i ==> (#[trigger] fields[j]).name@ != var@),
        expr.kind matches BoundExprKind::Property { binding, property } ==> (e matches
            Evaluator::ColumnRef(i) && i < fields.len() && fields[i as int].name@ == binding@
            + "_"@ + property@ && forall|j: int|
            0 <= j < i ==> (#[trigger] fields[j]).name@ != binding@ + "_"@ + property@),
{
    let names = names_of(fields);
    match expr.kind {
        BoundExprKind::Variable(var) => {
            lemma_found_name(names, var@, 0);
            if let Evaluator::ColumnRef(i) = e {
                assert forall|j: int| 0 <= j < i implies (#[trigger] fields[j]).name@ != var@ by {
                    assert(names[j] == fields[j].name@);
                }
            }
        },
        BoundExprKind::Property { binding, property } => {
            let name = binding@ + "_"@ + property@;
            lemma_found_name(names, name, 0);
            if let Evaluator::ColumnRef(i) = e {
                assert forall|j: int| 0 <= j < i implies (#[trigger] fields[j]).name@ != name by {
                    assert(names[j] == fields[j].name@);
                }
            }
        },
        _ => {},
    }
}

/// The evaluator of a distance computes its left side from the left expression and its right side
/// from the right one, by the metric and the dimension of the expression.
pub proof fn distances_keep_their_sides(
    e: Evaluator,
    expr: BoundExpr,
    names: Seq<Seq<char>>,
    labels: Map<Seq<char>, LabelSpecs>,
)
    requires
        evaluates(e, expr, names, labels),
        expr.kind is VectorDistance,
    ensures
        expr.kind matches BoundExprKind::VectorDistance { lhs, rhs, metric, dimension } && (
        e matches Evaluator::VectorDistance { lhs: l, rhs: r, metric: m, dimension: d } && evaluates(
            *l,
            *lhs,
            names,
            labels,
        ) && evaluates(*r, *rhs, names, labels) && m == metric && d == dimension),
{
}

proof fn lemma_property_columns(
    names: Seq<Seq<char>>,
    var: Seq<char>,
    properties: Seq<DataField>,
    n: int,
)
    requires
        0 <= n <= properties.len(),
    ensures
        ({
            let columns = property_columns(names, var, properties, n);
            let found = property_names(names, var, properties, n);
            &&& columns.len() == found.len() <= n
            &&& forall|k: int|
                0 <= k < columns.len() ==> 0 <= #[trigger] columns[k] < names.len()
                    && names[columns[k]] == var + "_"@ + found[k] && forall|j: int|
                    0 <= j < columns[k] ==> #[trigger] names[j] != var + "_"@ + found[k]
            &&& (forall|p: int|
                0 <= p < n ==> names.contains(var + "_"@ + (#[trigger] properties[p]).name@)) ==> {
                &&& found.len() == n
                &&& forall|p: int| 0 <= p < n ==> found[p] == (#[trigger] properties[p]).name@
            }
            &&& forall|p: int|
                0 <= p < n && names.contains(var + "_"@ + (#[trigger] properties[p]).name@)
                    ==> found.contains(properties[p].name@)
        }),
    decreases n,
{
    if n > 0 {
        lemma_property_columns(names, var, properties, n - 1);
        let name = var + "_"@ + properties[n - 1].name@;
        lemma_found_name(names, name, 0);
        let before = property_names(names, var, properties, n - 1);
        let found = property_names(names, var, properties, n);
        let columns = property_columns(names, var, properties, n);
        let old_columns = property_columns(names, var, properties, n - 1);
        assert forall|p: int|
            0 <= p < n && names.contains(var + "_"@ + (#[trigger] properties[p]).name@) implies
            found.contains(properties[p].name@) by {
            if p < n - 1 {
                let k = choose|k: int| 0 <= k < before.len() && before[k] == properties[p].name@;
                assert(found[k] == before[k]);
            } else {
                let i = choose|i: int| 0 <= i < names.len() && names[i] == name;
                assert(found[before.len() as int] == properties[p].name@);
            }
        }
        if forall|p: int|
            0 <= p < n ==> names.contains(var + "_"@ + (#[trigger] properties[p]).name@) {
            assert(names.contains(var + "_"@ + properties[n - 1].name@));
            let i = choose|i: int| 0 <= i < names.len() && names[i] == name;
            assert(names[i] == name);
            assert forall|p: int| 0 <= p < n implies found[p] == (#[trigger] properties[p]).name@ by {
                if p < n - 1 {
                    assert(found[p] == before[p]);
                }
            }
        }
        assert forall|k: int| 0 <= k < columns.len() implies 0 <= #[trigger] columns[k]
            < names.len() && names[columns[k]] == var + "_"@ + found[k] && forall|j: int|
            0 <= j < columns[k] ==> #[trigger] names[j] != var + "_"@ + found[k] by {
            if k < old_columns.len() {
                assert(columns[k] == old_columns[k]);
            }
        }
    }
}

/// The evaluator of a vertex reads its identifier from the first column with the name of the
/// variable, and each of its properties from the first column named by the variable, an underscore
/// and the property. Where every property has a column, the properties are those of the type, in
/// order; one that has a column is never left out. The labels are those of the variable.
pub proof fn vertices_are_put_together_from_their_columns(
    e: Evaluator,
    expr: BoundExpr,
    names: Seq<Seq<char>>,
    labels: Map<Seq<char>, LabelSpecs>,
)
    requires
        evaluates(e, expr, names, labels),
        expr.kind is Variable,
        expr.logical_type is Vertex,
    ensures
        expr.kind matches BoundExprKind::Variable(var) && (expr.logical_type matches
            LogicalType::Vertex(properties) && (e matches Evaluator::VertexConstructor {
            vid_index,
            property_column_indices,
            property_names: found,
            label_specs,
        } && {
            &&& vid_index < names.len() && names[vid_index as int] == var@
            &&& forall|j: int| 0 <= j < vid_index ==> #[trigger] names[j] != var@
            &&& property_column_indices@.len() == found@.len()
            &&& forall|k: int|
                0 <= k < found@.len() ==> #[trigger] property_column_indices@[k] < names.len()
            &&& forall|k: int|
                0 <= k < found@.len() ==> names[property_column_indices@[k] as int] == var@ + "_"@
                    + (#[trigger] found@[k])@
            &&& (forall|p: int|
                0 <= p < properties@.len() ==> names.contains(
                    var@ + "_"@ + (#[trigger] properties@[p]).name@,
                )) ==> {
                &&& found@.len() == properties@.len()
                &&& forall|p: int|
                    0 <= p < found@.len() ==> (#[trigger] found@[p])@ == properties@[p].name@
            }
            &&& labels.dom().contains(var@) ==> label_specs == Some(labels[var@])
            &&& !labels.dom().contains(var@) ==> label_specs is None
        })),
{
    if let BoundExprKind::Variable(var) = expr.kind {
        if let LogicalType::Vertex(properties) = expr.logical_type {
            let n = properties@.len() as int;
            lemma_found_name(names, var@, 0);
            lemma_property_columns(names, var@, properties@, n);
            if let Evaluator::VertexConstructor {
                vid_index,
                property_column_indices,
                property_names: found,
                label_specs,
            } = e {
                let columns = property_columns(names, var@, properties@, n);
                let texts = property_names(names, var@, properties@, n);
                assert(property_column_indices@.map_values(|i: usize| i as int).len()
                    == columns.len());
                assert(found@.map_values(|s: String| s@).len() == texts.len());
                assert forall|k: int| 0 <= k < found@.len() implies
                    #[trigger] property_column_indices@[k] < names.len() by {
                    assert(property_column_indices@.map_values(|i: usize| i as int)[k]
                        == columns[k]);
                }
                assert forall|k: int| 0 <= k < found@.len() implies
                    names[property_column_indices@[k] as int] == var@ + "_"@ + (
                #[trigger] found@[k])@ by {
                    assert(found@.map_values(|s: String| s@)[k] == texts[k]);
                    assert(property_column_indices@.map_values(|i: usize| i as int)[k]
                        == columns[k]);
                }
                if forall|p: int|
                    0 <= p < n ==> names.contains(var@ + "_"@ + (#[trigger] properties@[p]).name@) {
                    assert forall|p: int| 0 <= p < found@.len() implies (#[trigger] found@[p])@
                        == properties@[p].name@ by {
                        assert(found@.map_values(|s: String| s@)[p] == texts[p]);
                        let name = properties@[p].name@;
                    }
                }
            }
        }
    }
}

// ---------------------------------------------------------------------------------------------
// Executors
// ---------------------------------------------------------------------------------------------

/// The executor of a sort sorts by the keys of the plan, each in the direction that the plan gives
/// it and with nulls where the plan puts them, and runs the input.
pub proof fn sorts_keep_their_keys(
    e: Executor,
    sort: Arc<Sort>,
    graph: Option<GraphRef>,
    schema: Arc<DataSchema>,
)
    requires
        runs(e, PlanNode::PhysicalSort(sort), graph),
        sort.base.children@.len() == 1,
        sort.base.children@[0].spec_schema() == Some(schema),
    ensures
        e matches Executor::Sort { child, specs, chunk_size } && {
            &&& runs(*child, sort.base.children@[0], graph)
            &&& specs@.len() == sort.specs@.len()
            &&& forall|i: int|
                0 <= i < specs@.len() ==> {
                    &&& sort.specs@[i].ordering is Ascending ==> (#[trigger] specs@[i]).ordering
                        is Ascending
                    &&& sort.specs@[i].ordering is Descending ==> specs@[i].ordering is Descending
                    &&& sort.specs@[i].null_ordering is First ==> specs@[i].null_ordering is First
                    &&& sort.specs@[i].null_ordering is Last ==> specs@[i].null_ordering is Last
                    &&& evaluates(
                        specs@[i].key,
                        *sort.specs@[i].key,
                        names_of(schema.fields@),
                        schema.var_labels@,
                    )
                }
        },
{
    reveal_with_fuel(runs, 2);
    reveal_with_fuel(runs_input, 2);
}

/// Two sorts that have an executor in common sort by as many keys, in the same directions and with
/// nulls in the same places: sorts that differ in one of these share no executor.
pub proof fn sorts_that_differ_share_no_executor(
    e: Executor,
    a: Arc<Sort>,
    b: Arc<Sort>,
    graph: Option<GraphRef>,
    i: int,
)
    requires
        runs(e, PlanNode::PhysicalSort(a), graph),
        runs(e, PlanNode::PhysicalSort(b), graph),
    ensures
        a.specs@.len() == b.specs@.len(),
        0 <= i < a.specs@.len() ==> a.specs@[i].ordering == b.specs@[i].ordering
            && a.specs@[i].null_ordering == b.specs@[i].null_ordering,
{
    if let Executor::Sort { child, specs, chunk_size } = e {
        assert(specs@.len() == a.specs@.len());
        if 0 <= i < specs@.len() {
            let spec = specs@[i];
        }
    }
}

/// Limits and offsets that have an executor in common let through, or pass over, as many rows, and
/// run the same input.
pub proof fn limits_and_offsets_keep_their_numbers(
    e: Executor,
    limit: Arc<Limit>,
    offset: Arc<Offset>,
    graph: Option<GraphRef>,
)
    ensures
        runs(e, PlanNode::PhysicalLimit(limit), graph) ==> (e matches Executor::Limit {
            child,
            limit: n,
        } && n == limit.limit && limit.base.children@.len() > 0 && runs(
            *child,
            limit.base.children@[0],
            graph,
        )),
        runs(e, PlanNode::PhysicalOffset(offset), graph) ==> (e matches Executor::Offset {
            child,
            offset: n,
        } && n == offset.offset && offset.base.children@.len() > 0 && runs(
            *child,
            offset.base.children@[0],
            graph,
        )),
{
    reveal_with_fuel(runs, 2);
    reveal_with_fuel(runs_input, 2);
}

/// The executor of a join runs the left input on the left and the right one on the right, and
/// computes the left keys from the left columns and the right keys from the right ones.
pub proof fn joins_run_their_sides(
    e: Executor,
    join: Arc<HashJoin>,
    graph: Option<GraphRef>,
    left_schema: Arc<DataSchema>,
    right_schema: Arc<DataSchema>,
)
    requires
        runs(e, PlanNode::PhysicalHashJoin(join), graph),
        join.base.children@.len() == 2,
        join.base.children@[0].spec_schema() == Some(left_schema),
        join.base.children@[1].spec_schema() == Some(right_schema),
    ensures
        e matches Executor::HashJoin { left, right, conds } && {
            &&& runs(*left, join.base.children@[0], graph)
            &&& runs(*right, join.base.children@[1], graph)
            &&& conds@.len() == join.conds@.len()
            &&& forall|i: int|
                0 <= i < conds@.len() ==> evaluates(
                    (#[trigger] conds@[i]).left,
                    *join.conds@[i].left_key,
                    names_of(left_schema.fields@),
                    left_schema.var_labels@,
                ) && evaluates(
                    conds@[i].right,
                    *join.conds@[i].right_key,
                    names_of(right_schema.fields@),
                    right_schema.var_labels@,
                )
        },
{
    reveal_with_fuel(runs, 2);
}

/// What the executors of the other operators over one input do.
pub proof fn executors_run_their_inputs(
    e: Executor,
    plan: PlanNode,
    graph: Option<GraphRef>,
    schema: Arc<DataSchema>,
)
    requires
        runs(e, plan, graph),
        plan.inputs().len() == 1,
        plan.inputs()[0].spec_schema() == Some(schema),
    ensures
        plan matches PlanNode::PhysicalFilter(filter) ==> (e matches Executor::Filter {
            child,
            predicate,
        } && runs(*child, plan.inputs()[0], graph) && evaluates(
            predicate,
            *filter.predicate,
            names_of(schema.fields@),
            schema.var_labels@,
        )),
        plan matches PlanNode::PhysicalExpand(expand) ==> (e matches Executor::Flatten {
            child: expanded,
            column_indices,
        } && column_indices@.len() == 2 && (schema.fields@.len() + 1 <= usize::MAX ==> (
        column_indices@[0] == schema.fields@.len() && column_indices@[1] == schema.fields@.len()
            + 1)) && (*expanded matches Executor::Expand {
            child,
            input_column_index,
            edge_labels,
            target_vertex_labels,
            graph: g,
        } && runs(*child, plan.inputs()[0], graph) && input_column_index
            == expand.input_column_index && edge_labels == expand.edge_labels
            && target_vertex_labels == expand.target_vertex_labels && Some(g) == graph)),
        plan matches PlanNode::PhysicalVectorIndexScan(scan) ==> (e matches
            Executor::VectorIndexScan { child, query, binding_column_index } && runs(
            *child,
            plan.inputs()[0],
            graph,
        ) && query == scan.query && binding_column_index < schema.fields@.len()
            && schema.fields@[binding_column_index as int].name@ == scan.query.binding@ && forall|
            j: int,
        |
            0 <= j < binding_column_index ==> (#[trigger] schema.fields@[j]).name@
                != scan.query.binding@),
        plan matches PlanNode::PhysicalVertexPropertyFetch(fetch) ==> (e matches
            Executor::VertexPropertyScan { child, vid_index, property_ids, graph: g } && runs(
            *child,
            plan.inputs()[0],
            graph,
        ) && property_ids == fetch.property_ids && Some(g) == graph && vid_index
            < schema.fields@.len() && schema.fields@[vid_index as int].name@ == fetch.binding@
            && forall|j: int|
            0 <= j < vid_index ==> (#[trigger] schema.fields@[j]).name@ != fetch.binding@),
{
    reveal_with_fuel(runs, 2);
    reveal_with_fuel(runs_input, 2);
    if let PlanNode::PhysicalVectorIndexScan(scan) = plan {
        lemma_found_field(schema.fields@, scan.query.binding@, 0);
    }
    if let PlanNode::PhysicalVertexPropertyFetch(fetch) = plan {
        lemma_found_field(schema.fields@, fetch.binding@, 0);
    }
}

/// What the executors of operators without inputs do: a scan reads the current graph under its
/// labels, a call runs its procedure with its arguments, a single row has one number, zero, and
/// changes of the catalog hold their plans.
pub proof fn leaf_executors_hold_their_plans(e: Executor, plan: PlanNode, graph: Option<GraphRef>)
    requires
        runs(e, plan, graph),
    ensures
        plan matches PlanNode::PhysicalNodeScan(scan) ==> (e matches Executor::VertexScan {
            graph: g,
            labels,
            batch_size,
        } && Some(g) == graph && labels == scan.labels && batch_size == 1024),
        plan matches PlanNode::PhysicalCall(call) ==> (e matches Executor::ProcedureCall {
            procedure,
            args,
        } && procedure == call.procedure.object && args == call.args),
        plan is PhysicalOneRow ==> (e matches Executor::Values { columns } && columns@.len() == 1
            && (columns@[0] matches Column::Int32(values) && values@.len() == 1 && values@[0] == 0)),
        plan matches PlanNode::PhysicalCreateVectorIndex(p) ==> (e matches
            Executor::CreateVectorIndex(q) && q == p),
        plan matches PlanNode::PhysicalDropVectorIndex(p) ==> (e matches Executor::DropVectorIndex(
            q,
        ) && q == p),
        plan matches PlanNode::PhysicalCreateGraph(p) ==> (e matches Executor::CreateGraph(b)
            && b.plan == p),
        plan matches PlanNode::PhysicalDropGraph(p) ==> (e matches Executor::DropGraph(b) && b.plan
            == p),
        plan matches PlanNode::PhysicalSort(_) ==> (e matches Executor::Sort {
            child,
            specs,
            chunk_size,
        } && chunk_size == 2048),
{
}

/// An explanation gives its lines, in order, in a column of text: the first line of the text and
/// what the rest of it gives.
pub proof fn explanations_give_their_lines(
    e: Executor,
    explain: Arc<Explain>,
    graph: Option<GraphRef>,
)
    requires
        runs(e, PlanNode::PhysicalExplain(explain), graph),
    ensures
        e matches Executor::Values { columns } && columns@.len() == 1 && (columns@[0] matches
            Column::Text(lines) && {
            &&& explain.text is None ==> lines@.len() == 0
            &&& explain.text matches Some(text) ==> {
                &&& lines@.len() == lines_from(text@, 0).len()
                &&& forall|i: int|
                    0 <= i < lines@.len() ==> (#[trigger] lines@[i])@ == lines_from(text@, 0)[i]
            }
        }),
{
    if let Executor::Values { columns } = e {
        if let Column::Text(lines) = columns@[0] {
            let texts = lines@.map_values(|s: String| s@);
            assert(texts.len() == lines@.len());
            assert forall|i: int| 0 <= i < lines@.len() implies (#[trigger] lines@[i])@
                == texts[i] by {}
        }
    }
}

proof fn lemma_line_end_at(text: Seq<char>, from: int, k: int)
    requires
        0 <= from <= k <= text.len(),
        k < text.len() ==> text[k] == '\n',
        forall|j: int| from <= j < k ==> text[j] != '\n',
    ensures
        line_end(text, from) == k,
    decreases k - from,
{
    if from < k {
        lemma_line_end_at(text, from + 1, k);
    }
}

proof fn lemma_lines_shift(text: Seq<char>, d: int, from: int)
    requires
        0 <= d,
        0 <= from,
        d + from <= text.len() + 1,
        d <= text.len(),
    ensures
        lines_from(text.skip(d), from) == lines_from(text, d + from),
    decreases text.len() + 1 - from,
{
    let tail = text.skip(d);
    if from < tail.len() {
        lemma_line_end(tail, from);
        let end = line_end(tail, from);
        assert forall|j: int| d + from <= j < d + end implies text[j] != '\n' by {
            assert(tail[j - d] == text[j]);
        }
        lemma_line_end_at(text, d + from, d + end);
        assert(tail.subrange(from, end) =~= text.subrange(d + from, d + end));
        if end > from {
            assert(tail[end - 1] == text[d + end - 1]);
            assert(tail.subrange(from, end - 1) =~= text.subrange(d + from, d + end - 1));
        }
        lemma_lines_shift(text, d, end + 1);
    } else {
        assert(lines_from(text, d + from) =~= Seq::empty());
    }
}

/// A text without a newline is one line, and no line where it is empty; a newline at `k` ends the
/// first line, a carriage return before it included, and what follows gives the other lines.
pub proof fn newlines_end_lines(text: Seq<char>, k: int)
    requires
        0 <= k <= text.len(),
        k < text.len() ==> text[k] == '\n',
        forall|j: int| 0 <= j < k ==> text[j] != '\n',
    ensures
        text.len() == 0 ==> lines_from(text, 0).len() == 0,
        text.len() > 0 && k == text.len() ==> lines_from(text, 0) == seq![text],
        k < text.len() ==> lines_from(text, 0).len() > 0 && lines_from(text, 0).drop_first()
            == lines_from(text.subrange(k + 1, text.len() as int), 0),
        k < text.len() && (k == 0 || text[k - 1] != '\r') ==> lines_from(text, 0)[0]
            == text.subrange(0, k),
        0 < k < text.len() && text[k - 1] == '\r' ==> lines_from(text, 0)[0] == text.subrange(
            0,
            k - 1,
        ),
{
    lemma_line_end_at(text, 0, k);
    if text.len() > 0 {
        let lines = lines_from(text, 0);
        if k == text.len() {
            assert(text.subrange(0, k) =~= text);
            assert(lines_from(text, k + 1) =~= Seq::empty());
            assert(lines =~= seq![text]);
        } else {
            lemma_lines_shift(text, k + 1, 0);
            assert(text.skip(k + 1) =~= text.subrange(k + 1, text.len() as int));
            assert(lines.drop_first() =~= lines_from(text, k + 1));
        }
    }
}

// ---------------------------------------------------------------------------------------------
// Projections
// ---------------------------------------------------------------------------------------------

/// The expression is a vertex of which the input has the identifier only.
pub open spec fn needs_properties(expr: BoundExpr, fields: Seq<DataField>) -> bool {
    expr.logical_type is Vertex && (expr.kind matches BoundExprKind::Variable(var) && exists|i: int|
        {
            &&& 0 <= i < fields.len()
            &&& (#[trigger] fields[i]).name@ == var@
            &&& fields[i].ty == LogicalType::Int64
            &&& forall|j: int| 0 <= j < i ==> (#[trigger] fields[j]).name@ != var@
        })
}

proof fn lemma_scanned(expr: BoundExpr, fields: Seq<DataField>)
    ensures
        scanned_var(expr, fields) is Some <==> needs_properties(expr, fields),
        needs_properties(expr, fields) ==> (expr.kind matches BoundExprKind::Variable(var)
            && scanned_var(expr, fields) == Some(var@)),
{
    if let BoundExprKind::Variable(var) = expr.kind {
        lemma_found_field(fields, var@, 0);
        if needs_properties(expr, fields) {
            let i = choose|i: int|
                {
                    &&& 0 <= i < fields.len()
                    &&& (#[trigger] fields[i]).name@ == var@
                    &&& fields[i].ty == LogicalType::Int64
                    &&& forall|j: int| 0 <= j < i ==> (#[trigger] fields[j]).name@ != var@
                };
            first_column_with_a_name_is_found(fields, var@, 0, i);
        }
    }
}

proof fn lemma_not_widened(
    e: Executor,
    plan: PlanNode,
    project: Arc<Project>,
    graph: Option<GraphRef>,
    schema: Arc<DataSchema>,
    n: int,
)
    requires
        0 <= n <= project.exprs@.len(),
        plan.inputs().len() == 1,
        plan.inputs()[0].spec_schema() == Some(schema),
        forall|i: int|
            0 <= i < project.exprs@.len() ==> !needs_properties(
                #[trigger] project.exprs@[i],
                schema.fields@,
            ),
        runs_widened(e, plan, *project, graph, n),
    ensures
        runs(e, plan.inputs()[0], graph),
        widened_names(*project, *schema, graph, n) == names_of(schema.fields@),
        !is_widened(*project, *schema, n),
    decreases n,
{
    if n > 0 {
        lemma_scanned(project.exprs@[n - 1], schema.fields@);
        lemma_not_widened(e, plan, project, graph, schema, n - 1);
    }
}

/// A projection that needs no properties computes its expressions, in order, from the columns and
/// labels of its input, which its executor runs.
pub proof fn projections_compute_their_expressions(
    e: Executor,
    project: Arc<Project>,
    graph: Option<GraphRef>,
    schema: Arc<DataSchema>,
)
    requires
        runs(e, PlanNode::PhysicalProject(project), graph),
        project.base.children@.len() == 1,
        project.base.children@[0].spec_schema() == Some(schema),
        forall|i: int|
            0 <= i < project.exprs@.len() ==> !needs_properties(
                #[trigger] project.exprs@[i],
                schema.fields@,
            ),
    ensures
        e matches Executor::Project { child, evaluators } && {
            &&& runs(*child, project.base.children@[0], graph)
            &&& evaluators@.len() == project.exprs@.len()
            &&& forall|i: int|
                0 <= i < evaluators@.len() ==> evaluates(
                    #[trigger] evaluators@[i],
                    project.exprs@[i],
                    names_of(schema.fields@),
                    schema.var_labels@,
                )
        },
{
    reveal_with_fuel(runs, 2);
    if let Executor::Project { child, evaluators } = e {
        lemma_not_widened(
            *child,
            PlanNode::PhysicalProject(project),
            project,
            graph,
            schema,
            project.exprs@.len() as int,
        );
    }
}

/// For a vertex of which the input has the identifier only, a projection reads all properties of
/// its type, by the column with the identifier, into further columns named by the variable, an
/// underscore and the property.
pub proof fn projections_read_the_properties_they_need(
    e: Executor,
    plan: PlanNode,
    project: Project,
    graph: GraphRef,
    schema: Arc<DataSchema>,
    n: int,
)
    requires
        0 < n <= project.exprs@.len(),
        plan.inputs().len() == 1,
        plan.inputs()[0].spec_schema() == Some(schema),
        runs_widened(e, plan, project, Some(graph), n),
        needs_properties(project.exprs@[n - 1], schema.fields@),
    ensures
        project.exprs@[n - 1].kind matches BoundExprKind::Variable(var) && (e matches
            Executor::VertexPropertyScan { child, vid_index, property_ids, graph: g } && {
            let properties = properties_of(
                *graph.graph_type,
                (project.base.schema->0).var_labels@,
                var@,
            );
            let before = widened_names(project, *schema, Some(graph), n - 1);
            let after = widened_names(project, *schema, Some(graph), n);
            &&& runs_widened(*child, plan, project, Some(graph), n - 1)
            &&& g == graph
            &&& vid_index < schema.fields@.len() && schema.fields@[vid_index as int].name@ == var@
            &&& property_ids@.len() == properties.len()
            &&& properties.len() <= u32::MAX ==> forall|k: int|
                0 <= k < property_ids@.len() ==> #[trigger] property_ids@[k] == k
            &&& after.len() == before.len() + properties.len()
            &&& forall|k: int| 0 <= k < before.len() ==> #[trigger] after[k] == before[k]
            &&& forall|k: int|
                0 <= k < properties.len() ==> after[before.len() + k] == var@ + "_"@ + (
                #[trigger] properties[k]).name@
        }),
{
    lemma_scanned(project.exprs@[n - 1], schema.fields@);
    if let BoundExprKind::Variable(var) = project.exprs@[n - 1].kind {
        lemma_found_field(schema.fields@, var@, 0);
    }
}

/// Once a projection reads properties, it knows the labels of no variable: the vertices that it
/// puts together come without labels.
pub proof fn reading_properties_hides_labels(
    e: Executor,
    project: Arc<Project>,
    graph: Option<GraphRef>,
    schema: Arc<DataSchema>,
    k: int,
    i: int,
)
    requires
        runs(e, PlanNode::PhysicalProject(project), graph),
        project.base.children@.len() == 1,
        project.base.children@[0].spec_schema() == Some(schema),
        0 <= k < project.exprs@.len(),
        needs_properties(project.exprs@[k], schema.fields@),
        0 <= i < project.exprs@.len(),
        project.exprs@[i].logical_type is Vertex,
        project.exprs@[i].kind is Variable,
    ensures
        e matches Executor::Project { child, evaluators } && evaluators@.len()
            == project.exprs@.len() && (evaluators@[i] matches Evaluator::VertexConstructor {
            label_specs,
            ..
        } && label_specs is None),
{
    lemma_scanned(project.exprs@[k], schema.fields@);
    lemma_widened(project, schema, k, project.exprs@.len() as int);
    if let Executor::Project { child, evaluators } = e {
        assert(evaluates(
            evaluators@[i],
            project.exprs@[i],
            widened_names(*project, *schema, graph, project.exprs@.len() as int),
            widened_labels(*project, *schema, project.exprs@.len() as int),
        ));
    }
}

proof fn lemma_widened(project: Arc<Project>, schema: Arc<DataSchema>, k: int, n: int)
    requires
        0 <= k < n,
        scanned_var(project.exprs@[k], schema.fields@) is Some,
    ensures
        is_widened(*project, *schema, n),
    decreases n,
{
    if k < n - 1 {
        lemma_widened(project, schema, k, n - 1);
    }
}

/// The properties of a variable are those of the first type that has the labels that are written
/// first for it. A variable without labels, and labels that no type has, have none.
pub proof fn properties_are_those_of_the_first_labels(
    graph_type: MemoryGraphTypeCatalog,
    labels: Map<Seq<char>, LabelSpecs>,
    var: Seq<char>,
    i: int,
)
    requires
        0 <= i <= graph_type.vertex_types@.len(),
        labels.dom().contains(var) && labels[var]@.len() > 0 ==> {
            &&& i < graph_type.vertex_types@.len() ==> graph_type.vertex_types@[i].0@
                == label_set_of(labels[var]@[0]@)
            &&& forall|j: int|
                0 <= j < i ==> (#[trigger] graph_type.vertex_types@[j]).0@ != label_set_of(
                    labels[var]@[0]@,
                )
        },
    ensures
        !labels.dom().contains(var) ==> properties_of(graph_type, labels, var).len() == 0,
        labels.dom().contains(var) && labels[var]@.len() == 0 ==> properties_of(
            graph_type,
            labels,
            var,
        ).len() == 0,
        labels.dom().contains(var) && labels[var]@.len() > 0 ==> properties_of(
            graph_type,
            labels,
            var,
        ) == (if i < graph_type.vertex_types@.len() {
            graph_type.vertex_types@[i].1.properties@
        } else {
            Seq::empty()
        }),
{
    if labels.dom().contains(var) && labels[var]@.len() > 0 {
        first_entry_with_labels_is_found(
            graph_type.vertex_types@,
            label_set_of(labels[var]@[0]@),
            0,
            i,
        );
    }
}

} // verus!
