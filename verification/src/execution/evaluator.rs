//! How expressions are computed from the columns of a chunk.

use vstd::prelude::*;
use crate::common::data_type::{
    field_index, lemma_field_index, DataField, DataSchema, LabelSpecs, LogicalType,
};
use crate::common::types::VectorMetric;
use crate::common::value::ScalarValue;
use crate::planner::bound::{BoundExpr, BoundExprKind};

verus! {

/// What computes an expression.
#[derive(Debug)]
pub enum Evaluator {
    Constant(ScalarValue),
    /// The value of a column.
    ColumnRef(usize),
    /// A vertex put together from the column with its identifier and those with its properties.
    VertexConstructor {
        vid_index: usize,
        property_column_indices: Vec<usize>,
        property_names: Vec<String>,
        label_specs: Option<LabelSpecs>,
    },
    VectorDistance {
        lhs: Box<Evaluator>,
        rhs: Box<Evaluator>,
        metric: VectorMetric,
        dimension: usize,
    },
}

/// The names of columns.
pub open spec fn names_of(fields: Seq<DataField>) -> Seq<Seq<char>> {
    fields.map_values(|f: DataField| f.name@)
}

/// The position of the first of the columns with a name, from `from` on.
pub open spec fn name_index(names: Seq<Seq<char>>, name: Seq<char>, from: int) -> Option<int>
    decreases names.len() - from,
{
    if from >= names.len() {
        None
    } else if names[from] == name {
        Some(from)
    } else {
        name_index(names, name, from + 1)
    }
}

/// The position of a column depends on the names alone.
pub proof fn lemma_name_index(fields: Seq<DataField>, name: Seq<char>, from: int)
    requires
        from >= 0,
    ensures
        name_index(names_of(fields), name, from) == field_index(fields, name, from),
    decreases fields.len() - from,
{
    if from < fields.len() && fields[from].name@ != name {
        lemma_name_index(fields, name, from + 1);
    }
}

/// The name of the column that holds a property of a variable.
pub open spec fn qualified(var: Seq<char>, property: Seq<char>) -> Seq<char> {
    var + "_"@ + property
}

/// The name of the column that holds a property of a variable.
pub fn qualified_name(var: &str, property: &str) -> (r: String)
    ensures
        r@ == qualified(var@, property@),
{
    let mut name = var.to_owned();
    name.append("_");
    name.append(property);
    name
}

/// The columns that hold the first `n` properties of a variable, as far as there are any.
pub open spec fn property_columns(
    names: Seq<Seq<char>>,
    var: Seq<char>,
    properties: Seq<DataField>,
    n: int,
) -> Seq<int>
    decreases n,
{
    if n <= 0 {
        Seq::empty()
    } else {
        match name_index(names, qualified(var, properties[n - 1].name@), 0) {
            Some(i) => property_columns(names, var, properties, n - 1).push(i),
            None => property_columns(names, var, properties, n - 1),
        }
    }
}

/// Those of the first `n` properties of a variable that have a column.
pub open spec fn property_names(
    names: Seq<Seq<char>>,
    var: Seq<char>,
    properties: Seq<DataField>,
    n: int,
) -> Seq<Seq<char>>
    decreases n,
{
    if n <= 0 {
        Seq::empty()
    } else {
        match name_index(names, qualified(var, properties[n - 1].name@), 0) {
            Some(_) => property_names(names, var, properties, n - 1).push(properties[n - 1].name@),
            None => property_names(names, var, properties, n - 1),
        }
    }
}

/// Every variable and property of an expression has a column.
pub open spec fn can_evaluate(expr: BoundExpr, names: Seq<Seq<char>>) -> bool
    decreases expr,
{
    match expr.kind {
        BoundExprKind::Value(_) => true,
        BoundExprKind::Variable(var) => name_index(names, var@, 0) is Some,
        BoundExprKind::Property { binding, property } => name_index(
            names,
            qualified(binding@, property@),
            0,
        ) is Some,
        BoundExprKind::VectorDistance { lhs, rhs, .. } => can_evaluate(*lhs, names)
            && can_evaluate(*rhs, names),
    }
}

/// The labels of a variable.
pub open spec fn label_of(labels: Map<Seq<char>, LabelSpecs>, var: Seq<char>) -> Option<
    LabelSpecs,
> {
    if labels.dom().contains(var) {
        Some(labels[var])
    } else {
        None
    }
}

/// An evaluator computes an expression over columns with names and over labelled variables.
pub open spec fn evaluates(
    e: Evaluator,
    expr: BoundExpr,
    names: Seq<Seq<char>>,
    labels: Map<Seq<char>, LabelSpecs>,
) -> bool
    decreases expr,
{
    match expr.kind {
        BoundExprKind::Value(value) => e == Evaluator::Constant(value),
        BoundExprKind::Variable(var) => match expr.logical_type {
            LogicalType::Vertex(properties) => (e matches Evaluator::VertexConstructor {
                vid_index,
                property_column_indices,
                property_names: found,
                label_specs,
            } && name_index(names, var@, 0) == Some(vid_index as int)
                && property_column_indices@.map_values(|i: usize| i as int) == property_columns(
                names,
                var@,
                properties@,
                properties@.len() as int,
            ) && found@.map_values(|s: String| s@) == property_names(
                names,
                var@,
                properties@,
                properties@.len() as int,
            ) && label_specs == label_of(labels, var@)),
            _ => (e matches Evaluator::ColumnRef(i) && name_index(names, var@, 0) == Some(
                i as int,
            )),
        },
        BoundExprKind::Property { binding, property } => (e matches Evaluator::ColumnRef(i)
            && name_index(names, qualified(binding@, property@), 0) == Some(i as int)),
        BoundExprKind::VectorDistance { lhs, rhs, metric, dimension } => (e matches
            Evaluator::VectorDistance { lhs: l, rhs: r, metric: m, dimension: d } && m == metric
            && d == dimension && evaluates(*l, *lhs, names, labels) && evaluates(
            *r,
            *rhs,
            names,
            labels,
        )),
    }
}

fn column_of(schema: &DataSchema, name: &str) -> (r: usize)
    requires
        name_index(names_of(schema.fields@), name@, 0) is Some,
    ensures
        name_index(names_of(schema.fields@), name@, 0) == Some(r as int),
        r < schema.fields@.len(),
{
    proof {
        lemma_name_index(schema.fields@, name@, 0);
        lemma_field_index(schema.fields@, name@, 0);
    }
    schema.get_field_index_by_name(name).unwrap()
}

/// The evaluator of an expression over the columns of a schema.
pub fn build_evaluator(expr: &BoundExpr, schema: &DataSchema) -> (r: Evaluator)
    requires
        can_evaluate(*expr, names_of(schema.fields@)),
    ensures
        evaluates(r, *expr, names_of(schema.fields@), schema.var_labels@),
    decreases *expr,
{
    let ghost names = names_of(schema.fields@);
    match &expr.kind {
        BoundExprKind::Value(value) => Evaluator::Constant(value.clone()),
        BoundExprKind::Variable(variable) => {
            if let LogicalType::Vertex(vertex_fields) = &expr.logical_type {
                let vid_index: usize = column_of(schema, variable.as_str());
                let label_specs = schema.get_var_label(variable.as_str());
                let mut property_column_indices: Vec<usize> = Vec::new();
                let mut property_names: Vec<String> = Vec::new();
                let mut n: usize = 0;
                assert(property_column_indices@.map_values(|i: usize| i as int)
                    =~= Seq::<int>::empty());
                assert(property_names@.map_values(|s: String| s@) =~= Seq::<Seq<char>>::empty());
                while n < vertex_fields.len()
                    invariant
                        n <= vertex_fields@.len(),
                        names == names_of(schema.fields@),
                        property_column_indices@.map_values(|i: usize| i as int)
                            == property_columns(names, variable@, vertex_fields@, n as int),
                        property_names@.map_values(|s: String| s@) == self::property_names(
                            names,
                            variable@,
                            vertex_fields@,
                            n as int,
                        ),
                    decreases vertex_fields.len() - n,
                {
                    let prop_name = vertex_fields[n].name();
                    let qualified = qualified_name(variable.as_str(), prop_name);
                    proof {
                        lemma_name_index(schema.fields@, qualified@, 0);
                    }
                    if let Some(prop_idx) = schema.get_field_index_by_name(qualified.as_str()) {
                        let ghost indices = property_column_indices@;
                        let ghost found = property_names@;
                        property_column_indices.push(prop_idx);
                        property_names.push(prop_name.to_owned());
                        proof {
                            assert(indices.push(prop_idx).map_values(|i: usize| i as int)
                                =~= indices.map_values(|i: usize| i as int).push(
                                prop_idx as int,
                            ));
                            assert(property_names@.map_values(|s: String| s@)
                                =~= found.map_values(|s: String| s@).push(prop_name@));
                        }
                    }
                    n = n + 1;
                }
                return Evaluator::VertexConstructor {
                    vid_index,
                    property_column_indices,
                    property_names,
                    label_specs,
                };
            }
            Evaluator::ColumnRef(column_of(schema, variable.as_str()))
        },
        BoundExprKind::Property { binding, property } => {
            let qualified = qualified_name(binding.as_str(), property.as_str());
            Evaluator::ColumnRef(column_of(schema, qualified.as_str()))
        },
        BoundExprKind::VectorDistance { lhs, rhs, metric, dimension } => {
            let lhs = build_evaluator(lhs, schema);
            let rhs = build_evaluator(rhs, schema);
            Evaluator::VectorDistance {
                lhs: Box::new(lhs),
                rhs: Box::new(rhs),
                metric: *metric,
                dimension: *dimension,
            }
        },
    }
}

/// The evaluator reads only columns below `n`.
pub open spec fn reads_below(e: Evaluator, n: int) -> bool
    decreases e,
{
    match e {
        Evaluator::Constant(_) => true,
        Evaluator::ColumnRef(i) => i < n,
        Evaluator::VertexConstructor { vid_index, property_column_indices, .. } => vid_index < n
            && forall|k: int|
            0 <= k < property_column_indices@.len() ==> #[trigger] property_column_indices@[k] < n,
        Evaluator::VectorDistance { lhs, rhs, .. } => reads_below(*lhs, n) && reads_below(
            *rhs,
            n,
        ),
    }
}

proof fn lemma_name_in_range(names: Seq<Seq<char>>, name: Seq<char>, from: int)
    requires
        from >= 0,
    ensures
        name_index(names, name, from) matches Some(i) ==> from <= i < names.len(),
    decreases names.len() - from,
{
    if from < names.len() && names[from] != name {
        lemma_name_in_range(names, name, from + 1);
    }
}

proof fn lemma_properties_in_range(
    names: Seq<Seq<char>>,
    var: Seq<char>,
    properties: Seq<DataField>,
    n: int,
)
    ensures
        forall|k: int|
            0 <= k < property_columns(names, var, properties, n).len() ==> 0
                <= #[trigger] property_columns(names, var, properties, n)[k] < names.len(),
    decreases n,
{
    if n > 0 {
        lemma_properties_in_range(names, var, properties, n - 1);
        lemma_name_in_range(names, qualified(var, properties[n - 1].name@), 0);
        let before = property_columns(names, var, properties, n - 1);
        let after = property_columns(names, var, properties, n);
        assert forall|k: int| 0 <= k < after.len() implies 0 <= #[trigger] after[k]
            < names.len() by {
            if k < before.len() {
                assert(0 <= before[k] < names.len());
            }
        }
    }
}

/// An evaluator of an expression reads only columns that there are.
pub proof fn evaluators_stay_in_range(
    e: &Evaluator,
    expr: &BoundExpr,
    names: Seq<Seq<char>>,
    labels: Map<Seq<char>, LabelSpecs>,
)
    requires
        evaluates(*e, *expr, names, labels),
    ensures
        reads_below(*e, names.len() as int),
    decreases *expr,
{
    match &expr.kind {
        BoundExprKind::Value(_) => {},
        BoundExprKind::Variable(var) => {
            lemma_name_in_range(names, var@, 0);
            match (&expr.logical_type, e) {
                (
                    LogicalType::Vertex(properties),
                    Evaluator::VertexConstructor { property_column_indices, .. },
                ) => {
                    let n = properties@.len() as int;
                    let columns = property_columns(names, var@, properties@, n);
                    lemma_properties_in_range(names, var@, properties@, n);
                    assert forall|k: int| 0 <= k < property_column_indices@.len() implies
                        #[trigger] property_column_indices@[k] < names.len() by {
                        assert(property_column_indices@.map_values(|i: usize| i as int)[k]
                            == columns[k]);
                    }
                },
                _ => {},
            }
        },
        BoundExprKind::Property { binding, property } => {
            lemma_name_in_range(names, qualified(binding@, property@), 0);
        },
        BoundExprKind::VectorDistance { lhs, rhs, .. } => {
            match e {
                Evaluator::VectorDistance { lhs: l, rhs: r, .. } => {
                    evaluators_stay_in_range(l, lhs, names, labels);
                    evaluators_stay_in_range(r, rhs, names, labels);
                },
                _ => {},
            }
        },
    }
}

} // verus!
