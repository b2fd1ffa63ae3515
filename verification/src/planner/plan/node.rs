//! The operators of a plan.

use vstd::prelude::*;
use std::sync::Arc;
use crate::catalog::schema::VectorIndexCatalogEntry;
use crate::common::data_type::{copy_fields, DataField, DataSchema, LabelSpecs, LogicalType};
use crate::common::name_map::NameMap;
use crate::common::types::{VectorIndexKey, VectorMetric};
use crate::common::value::ScalarValue;
use crate::planner::bound::{
    BoundExpr, BoundGraphPattern, BoundSortSpec, NamedProcedureRef,
};
use crate::planner::plan::catalog_modify::{CreateGraph, DropGraph};

verus! {

/// What every operator has: the columns of its result, where it has one, and its inputs.
#[derive(Debug)]
pub struct PlanBase {
    pub schema: Option<Arc<DataSchema>>,
    pub children: Vec<PlanNode>,
}

impl PlanBase {
    pub fn new(schema: Option<Arc<DataSchema>>, children: Vec<PlanNode>) -> (r: Self)
        ensures
            r == (PlanBase { schema, children }),
    {
        PlanBase { schema, children }
    }

    /// An operator without inputs.
    pub fn leaf(schema: Option<Arc<DataSchema>>) -> (r: Self)
        ensures
            r.schema == schema,
            r.children@.len() == 0,
    {
        PlanBase { schema, children: Vec::new() }
    }

    /// An operator with one input, whose columns it keeps.
    pub fn over(child: PlanNode) -> (r: Self)
        ensures
            r.schema == child.spec_schema(),
            r.children@ == seq![child],
    {
        let schema = child.schema();
        let mut children: Vec<PlanNode> = Vec::new();
        children.push(child);
        assert(children@ =~= seq![child]);
        PlanBase { schema, children }
    }
}

/// Matches a pattern against the current graph.
#[derive(Debug)]
pub struct Match {
    pub base: PlanBase,
    pub pattern: BoundGraphPattern,
}

#[derive(Debug)]
pub struct Filter {
    pub base: PlanBase,
    pub predicate: Arc<BoundExpr>,
}

#[derive(Debug)]
pub struct Project {
    pub base: PlanBase,
    pub exprs: Arc<Vec<BoundExpr>>,
}

#[derive(Debug)]
pub struct Call {
    pub base: PlanBase,
    pub procedure: Arc<NamedProcedureRef>,
    pub args: Arc<Vec<ScalarValue>>,
}

/// A single row with one column.
#[derive(Debug)]
pub struct OneRow {
    pub base: PlanBase,
}

#[derive(Debug)]
pub struct Sort {
    pub base: PlanBase,
    pub specs: Arc<Vec<BoundSortSpec>>,
}

#[derive(Debug)]
pub struct Limit {
    pub base: PlanBase,
    pub limit: usize,
    pub approximate: bool,
}

#[derive(Debug)]
pub struct Offset {
    pub base: PlanBase,
    pub offset: usize,
}

/// What a vector index scan looks for.
#[derive(Debug)]
pub struct VectorIndexQuery {
    pub binding: String,
    pub index_key: VectorIndexKey,
    pub query: Arc<BoundExpr>,
    pub limit: usize,
    pub approximate: bool,
}

#[derive(Debug)]
pub struct VectorIndexScan {
    pub base: PlanBase,
    pub query: Arc<VectorIndexQuery>,
}

#[derive(Debug)]
pub struct JoinCond {
    pub left_key: Arc<BoundExpr>,
    pub right_key: Arc<BoundExpr>,
}

#[derive(Debug)]
pub struct HashJoin {
    pub base: PlanBase,
    pub conds: Arc<Vec<JoinCond>>,
}

/// Adds properties of the vertex that a variable is bound to.
#[derive(Debug)]
pub struct VertexPropertyFetch {
    pub base: PlanBase,
    pub binding: String,
    pub property_ids: Arc<Vec<u32>>,
}

/// The text of a plan in place of its result.
#[derive(Debug)]
pub struct Explain {
    pub base: PlanBase,
    pub text: Option<String>,
}

#[derive(Debug)]
pub struct CreateVectorIndex {
    pub base: PlanBase,
    pub name: String,
    pub if_not_exists: bool,
    pub index_key: VectorIndexKey,
    pub metric: VectorMetric,
    pub dimension: usize,
    pub label: String,
    pub property: String,
    pub no_op: bool,
}

#[derive(Debug)]
pub struct DropVectorIndex {
    pub base: PlanBase,
    pub name: String,
    pub if_exists: bool,
    pub index_key: Option<VectorIndexKey>,
    pub metadata: Option<VectorIndexCatalogEntry>,
    pub no_op: bool,
}

/// Scans the vertices that match labels.
#[derive(Debug)]
pub struct NodeIdScan {
    pub base: PlanBase,
    pub var: String,
    pub labels: LabelSpecs,
}

#[derive(Clone, Copy, Debug, PartialEq, Eq, Structural)]
pub enum ExpandDirection {
    Outgoing,
    Incoming,
}

/// Follows edges from the vertices in a column.
#[derive(Debug)]
pub struct Expand {
    pub base: PlanBase,
    pub input_column_index: usize,
    pub edge_labels: LabelSpecs,
    pub target_vertex_labels: Option<LabelSpecs>,
    pub edge_var: Option<String>,
    pub target_var: Option<String>,
    pub direction: ExpandDirection,
}

/// A column of identifiers.
pub open spec fn is_id_column(field: DataField, name: Seq<char>) -> bool {
    field.name@ == name && field.ty == LogicalType::Int64 && !field.nullable
}

/// The columns of a scan: the identifiers of the vertices.
pub open spec fn is_scan_schema(schema: DataSchema, var: Seq<char>, labels: LabelSpecs) -> bool {
    &&& schema.fields@.len() == 1
    &&& is_id_column(schema.fields@[0], var)
    &&& schema.var_labels.wf()
    &&& schema.var_labels@ == Map::<Seq<char>, LabelSpecs>::empty().insert(var, labels)
}

/// The name of a column; one without a variable has an empty name.
pub open spec fn column_name(var: Option<String>) -> Seq<char> {
    match var {
        Some(name) => name@,
        None => Seq::empty(),
    }
}

/// Labels with those of a variable added, where there is a variable and it has labels.
pub open spec fn labels_with(
    labels: Map<Seq<char>, LabelSpecs>,
    var: Option<String>,
    specs: Option<LabelSpecs>,
) -> Map<Seq<char>, LabelSpecs> {
    match (var, specs) {
        (Some(name), Some(specs)) => labels.insert(name@, specs),
        _ => labels,
    }
}

impl Expand {
    /// The columns of the result: those of the input, the edges and the vertices at their ends.
    pub open spec fn is_schema_over(self, schema: DataSchema, child: DataSchema) -> bool {
        let n = child.fields@.len() as int;
        &&& schema.fields@.len() == n + 2
        &&& schema.fields@.take(n) == child.fields@
        &&& is_id_column(schema.fields@[n], column_name(self.edge_var))
        &&& is_id_column(schema.fields@[n + 1], column_name(self.target_var))
        &&& schema.var_labels.wf()
        &&& schema.var_labels@ == labels_with(
            labels_with(child.var_labels@, self.edge_var, Some(self.edge_labels)),
            self.target_var,
            self.target_vertex_labels,
        )
    }
}

fn id_column(name: String) -> (r: DataField)
    ensures
        is_id_column(r, name@),
{
    DataField::new(name, LogicalType::Int64, false)
}

fn name_of_column(var: &Option<String>) -> (r: String)
    ensures
        r@ == column_name(*var),
{
    match var {
        Some(name) => name.clone(),
        None => String::new(),
    }
}

/// A copy of the labels of variables.
fn copy_labels(labels: &NameMap<LabelSpecs>) -> (r: NameMap<LabelSpecs>)
    ensures
        r@ == labels@,
        r.wf() == labels.wf(),
{
    let mut entries: Vec<(String, LabelSpecs)> = Vec::new();
    let mut i: usize = 0;
    while i < labels.entries.len()
        invariant
            i <= labels.entries.len(),
            entries@ == labels.entries@.take(i as int),
        decreases labels.entries.len() - i,
    {
        entries.push((labels.entries[i].0.clone(), labels.entries[i].1.clone()));
        i = i + 1;
        assert(entries@ =~= labels.entries@.take(i as int));
    }
    assert(entries@ =~= labels.entries@);
    NameMap { entries }
}

impl NodeIdScan {
    /// A scan that binds a variable to the vertices that match labels.
    pub fn new(var: &str, labels: LabelSpecs) -> (r: Self)
        ensures
            r.var@ == var@,
            r.labels == labels,
            r.base.children@.len() == 0,
            r.base.schema matches Some(schema) && is_scan_schema(*schema, var@, labels),
    {
        let mut fields: Vec<DataField> = Vec::new();
        fields.push(id_column(var.to_owned()));
        let mut schema = DataSchema::new(fields);
        schema.var_labels.insert(var.to_owned(), labels.clone());
        NodeIdScan { base: PlanBase::leaf(Some(Arc::new(schema))), var: var.to_owned(), labels }
    }
}

impl Expand {
    /// Follows edges from the vertices in a column of the input.
    pub fn new(
        child: PlanNode,
        input_column_index: usize,
        edge_labels: LabelSpecs,
        target_vertex_labels: Option<LabelSpecs>,
        edge_var: Option<String>,
        target_var: Option<String>,
        direction: ExpandDirection,
    ) -> (r: Self)
        requires
            child.spec_schema() matches Some(schema) && schema.var_labels.wf(),
        ensures
            r.input_column_index == input_column_index,
            r.edge_labels == edge_labels,
            r.target_vertex_labels == target_vertex_labels,
            r.edge_var == edge_var,
            r.target_var == target_var,
            r.direction == direction,
            r.base.children@ == seq![child],
            r.base.schema matches Some(schema) && r.is_schema_over(
                *schema,
                *child.spec_schema()->0,
            ),
    {
        let schema = match child.schema() {
            Some(child_schema) => {
                let mut fields = copy_fields(&child_schema.fields);
                fields.push(id_column(name_of_column(&edge_var)));
                fields.push(id_column(name_of_column(&target_var)));
                assert(fields@.take(child_schema.fields@.len() as int)
                    =~= child_schema.fields@);
                let mut var_labels = copy_labels(&child_schema.var_labels);
                if let Some(name) = &edge_var {
                    var_labels.insert(name.clone(), edge_labels.clone());
                }
                if let Some(name) = &target_var {
                    if let Some(labels) = &target_vertex_labels {
                        var_labels.insert(name.clone(), labels.clone());
                    }
                }
                Some(Arc::new(DataSchema { fields, var_labels }))
            },
            None => None,
        };
        let mut children: Vec<PlanNode> = Vec::new();
        children.push(child);
        assert(children@ =~= seq![child]);
        Expand {
            base: PlanBase { schema, children },
            input_column_index,
            edge_labels,
            target_vertex_labels,
            edge_var,
            target_var,
            direction,
        }
    }
}

impl Filter {
    pub fn new(child: PlanNode, predicate: Arc<BoundExpr>) -> (r: Self)
        ensures
            r.predicate == predicate,
            r.base.children@ == seq![child],
            r.base.schema == child.spec_schema(),
    {
        Filter { base: PlanBase::over(child), predicate }
    }
}

impl Project {
    pub fn new(child: PlanNode, exprs: Arc<Vec<BoundExpr>>, schema: Arc<DataSchema>) -> (r: Self)
        ensures
            r.exprs == exprs,
            r.base.children@ == seq![child],
            r.base.schema == Some(schema),
    {
        let base = PlanBase::over(child);
        Project { base: PlanBase { schema: Some(schema), children: base.children }, exprs }
    }
}

impl Sort {
    pub fn new(child: PlanNode, specs: Arc<Vec<BoundSortSpec>>) -> (r: Self)
        ensures
            r.specs == specs,
            r.base.children@ == seq![child],
            r.base.schema == child.spec_schema(),
    {
        Sort { base: PlanBase::over(child), specs }
    }
}

impl Limit {
    pub fn new(child: PlanNode, limit: usize, approximate: bool) -> (r: Self)
        ensures
            r.limit == limit,
            r.approximate == approximate,
            r.base.children@ == seq![child],
            r.base.schema == child.spec_schema(),
    {
        Limit { base: PlanBase::over(child), limit, approximate }
    }
}

impl Offset {
    pub fn new(child: PlanNode, offset: usize) -> (r: Self)
        ensures
            r.offset == offset,
            r.base.children@ == seq![child],
            r.base.schema == child.spec_schema(),
    {
        Offset { base: PlanBase::over(child), offset }
    }
}

impl Call {
    pub fn new(
        procedure: NamedProcedureRef,
        args: Arc<Vec<ScalarValue>>,
        schema: Option<Arc<DataSchema>>,
    ) -> (r: Self)
        ensures
            *r.procedure == procedure,
            r.args == args,
            r.base.schema == schema,
            r.base.children@.len() == 0,
    {
        Call { base: PlanBase::leaf(schema), procedure: Arc::new(procedure), args }
    }
}

impl CreateVectorIndex {
    pub fn new(
        name: String,
        if_not_exists: bool,
        index_key: VectorIndexKey,
        metric: VectorMetric,
        dimension: usize,
        label: String,
        property: String,
        no_op: bool,
    ) -> (r: Self)
        ensures
            r == (CreateVectorIndex {
                base: r.base,
                name,
                if_not_exists,
                index_key,
                metric,
                dimension,
                label,
                property,
                no_op,
            }),
            r.base.schema is None,
            r.base.children@.len() == 0,
    {
        CreateVectorIndex {
            base: PlanBase::leaf(None),
            name,
            if_not_exists,
            index_key,
            metric,
            dimension,
            label,
            property,
            no_op,
        }
    }
}

impl DropVectorIndex {
    pub fn new(
        name: String,
        if_exists: bool,
        index_key: Option<VectorIndexKey>,
        metadata: Option<VectorIndexCatalogEntry>,
        no_op: bool,
    ) -> (r: Self)
        ensures
            r == (DropVectorIndex { base: r.base, name, if_exists, index_key, metadata, no_op }),
            r.base.schema is None,
            r.base.children@.len() == 0,
    {
        DropVectorIndex {
            base: PlanBase::leaf(None),
            name,
            if_exists,
            index_key,
            metadata,
            no_op,
        }
    }
}

/// A copy of a schema that an operator may have.
fn copy_schema(schema: &Option<Arc<DataSchema>>) -> (r: Option<Arc<DataSchema>>)
    ensures
        r == *schema,
{
    match schema {
        Some(schema) => Some(schema.clone()),
        None => None,
    }
}

impl VectorIndexScan {
    /// The same scan over another input.
    pub fn clone_with_child(&self, child: PlanNode) -> (r: Self)
        ensures
            r.query == self.query,
            r.base.schema == self.base.schema,
            r.base.children@ == seq![child],
    {
        let base = PlanBase::over(child);
        VectorIndexScan {
            base: PlanBase { schema: copy_schema(&self.base.schema), children: base.children },
            query: self.query.clone(),
        }
    }
}

impl HashJoin {
    /// The same join over other inputs.
    pub fn clone_with_children(&self, left: PlanNode, right: PlanNode) -> (r: Self)
        ensures
            r.conds == self.conds,
            r.base.schema == self.base.schema,
            r.base.children@ == seq![left, right],
    {
        let mut children: Vec<PlanNode> = Vec::new();
        children.push(left);
        children.push(right);
        assert(children@ =~= seq![left, right]);
        HashJoin {
            base: PlanBase { schema: copy_schema(&self.base.schema), children },
            conds: self.conds.clone(),
        }
    }
}

impl VertexPropertyFetch {
    /// The same fetch over another input.
    pub fn clone_with_child(&self, child: PlanNode) -> (r: Self)
        ensures
            r.binding == self.binding,
            r.property_ids == self.property_ids,
            r.base.schema == self.base.schema,
            r.base.children@ == seq![child],
    {
        let base = PlanBase::over(child);
        VertexPropertyFetch {
            base: PlanBase { schema: copy_schema(&self.base.schema), children: base.children },
            binding: self.binding.clone(),
            property_ids: self.property_ids.clone(),
        }
    }
}

/// A plan.
#[derive(Debug)]
pub enum PlanNode {
    LogicalMatch(Arc<Match>),
    LogicalFilter(Arc<Filter>),
    LogicalProject(Arc<Project>),
    LogicalCall(Arc<Call>),
    LogicalOneRow(Arc<OneRow>),
    LogicalSort(Arc<Sort>),
    LogicalLimit(Arc<Limit>),
    LogicalOffset(Arc<Offset>),
    LogicalVectorIndexScan(Arc<VectorIndexScan>),
    LogicalHashJoin(Arc<HashJoin>),
    LogicalVertexPropertyFetch(Arc<VertexPropertyFetch>),
    LogicalExplain(Arc<Explain>),
    LogicalCreateVectorIndex(Arc<CreateVectorIndex>),
    LogicalDropVectorIndex(Arc<DropVectorIndex>),
    PhysicalNodeScan(Arc<NodeIdScan>),
    PhysicalExpand(Arc<Expand>),
    PhysicalFilter(Arc<Filter>),
    PhysicalProject(Arc<Project>),
    PhysicalCall(Arc<Call>),
    PhysicalOneRow(Arc<OneRow>),
    PhysicalSort(Arc<Sort>),
    PhysicalLimit(Arc<Limit>),
    PhysicalOffset(Arc<Offset>),
    PhysicalVectorIndexScan(Arc<VectorIndexScan>),
    PhysicalHashJoin(Arc<HashJoin>),
    PhysicalVertexPropertyFetch(Arc<VertexPropertyFetch>),
    PhysicalExplain(Arc<Explain>),
    PhysicalCreateVectorIndex(Arc<CreateVectorIndex>),
    PhysicalDropVectorIndex(Arc<DropVectorIndex>),
    PhysicalCreateGraph(Arc<CreateGraph>),
    PhysicalDropGraph(Arc<DropGraph>),
}

impl PlanNode {
    pub open spec fn spec_base(self) -> PlanBase {
        match self {
            PlanNode::LogicalMatch(p) => p.base,
            PlanNode::LogicalFilter(p) => p.base,
            PlanNode::LogicalProject(p) => p.base,
            PlanNode::LogicalCall(p) => p.base,
            PlanNode::LogicalOneRow(p) => p.base,
            PlanNode::LogicalSort(p) => p.base,
            PlanNode::LogicalLimit(p) => p.base,
            PlanNode::LogicalOffset(p) => p.base,
            PlanNode::LogicalVectorIndexScan(p) => p.base,
            PlanNode::LogicalHashJoin(p) => p.base,
            PlanNode::LogicalVertexPropertyFetch(p) => p.base,
            PlanNode::LogicalExplain(p) => p.base,
            PlanNode::LogicalCreateVectorIndex(p) => p.base,
            PlanNode::LogicalDropVectorIndex(p) => p.base,
            PlanNode::PhysicalNodeScan(p) => p.base,
            PlanNode::PhysicalExpand(p) => p.base,
            PlanNode::PhysicalFilter(p) => p.base,
            PlanNode::PhysicalProject(p) => p.base,
            PlanNode::PhysicalCall(p) => p.base,
            PlanNode::PhysicalOneRow(p) => p.base,
            PlanNode::PhysicalSort(p) => p.base,
            PlanNode::PhysicalLimit(p) => p.base,
            PlanNode::PhysicalOffset(p) => p.base,
            PlanNode::PhysicalVectorIndexScan(p) => p.base,
            PlanNode::PhysicalHashJoin(p) => p.base,
            PlanNode::PhysicalVertexPropertyFetch(p) => p.base,
            PlanNode::PhysicalExplain(p) => p.base,
            PlanNode::PhysicalCreateVectorIndex(p) => p.base,
            PlanNode::PhysicalDropVectorIndex(p) => p.base,
            PlanNode::PhysicalCreateGraph(p) => p.base,
            PlanNode::PhysicalDropGraph(p) => p.base,
        }
    }

    /// What every operator has.
    pub fn base(&self) -> (r: &PlanBase)
        ensures
            *r == self.spec_base(),
    {
        match self {
            PlanNode::LogicalMatch(p) => &p.base,
            PlanNode::LogicalFilter(p) => &p.base,
            PlanNode::LogicalProject(p) => &p.base,
            PlanNode::LogicalCall(p) => &p.base,
            PlanNode::LogicalOneRow(p) => &p.base,
            PlanNode::LogicalSort(p) => &p.base,
            PlanNode::LogicalLimit(p) => &p.base,
            PlanNode::LogicalOffset(p) => &p.base,
            PlanNode::LogicalVectorIndexScan(p) => &p.base,
            PlanNode::LogicalHashJoin(p) => &p.base,
            PlanNode::LogicalVertexPropertyFetch(p) => &p.base,
            PlanNode::LogicalExplain(p) => &p.base,
            PlanNode::LogicalCreateVectorIndex(p) => &p.base,
            PlanNode::LogicalDropVectorIndex(p) => &p.base,
            PlanNode::PhysicalNodeScan(p) => &p.base,
            PlanNode::PhysicalExpand(p) => &p.base,
            PlanNode::PhysicalFilter(p) => &p.base,
            PlanNode::PhysicalProject(p) => &p.base,
            PlanNode::PhysicalCall(p) => &p.base,
            PlanNode::PhysicalOneRow(p) => &p.base,
            PlanNode::PhysicalSort(p) => &p.base,
            PlanNode::PhysicalLimit(p) => &p.base,
            PlanNode::PhysicalOffset(p) => &p.base,
            PlanNode::PhysicalVectorIndexScan(p) => &p.base,
            PlanNode::PhysicalHashJoin(p) => &p.base,
            PlanNode::PhysicalVertexPropertyFetch(p) => &p.base,
            PlanNode::PhysicalExplain(p) => &p.base,
            PlanNode::PhysicalCreateVectorIndex(p) => &p.base,
            PlanNode::PhysicalDropVectorIndex(p) => &p.base,
            PlanNode::PhysicalCreateGraph(p) => &p.base,
            PlanNode::PhysicalDropGraph(p) => &p.base,
        }
    }

    /// The inputs.
    pub open spec fn inputs(self) -> Seq<PlanNode> {
        self.spec_base().children@
    }

    pub open spec fn spec_schema(self) -> Option<Arc<DataSchema>> {
        self.spec_base().schema
    }

    /// The inputs.
    pub fn children(&self) -> (r: &Vec<PlanNode>)
        ensures
            r@ == self.inputs(),
    {
        &self.base().children
    }

    /// The columns of the result, where there is one.
    pub fn schema(&self) -> (r: Option<Arc<DataSchema>>)
        ensures
            r == self.spec_schema(),
    {
        match &self.base().schema {
            Some(schema) => Some(schema.clone()),
            None => None,
        }
    }

    /// The operator is one that the planner replaces by a physical one.
    pub open spec fn is_logical(self) -> bool {
        self is LogicalMatch || self is LogicalFilter || self is LogicalProject
            || self is LogicalCall || self is LogicalOneRow || self is LogicalSort
            || self is LogicalLimit || self is LogicalOffset || self is LogicalVectorIndexScan
            || self is LogicalHashJoin || self is LogicalVertexPropertyFetch
            || self is LogicalExplain || self is LogicalCreateVectorIndex
            || self is LogicalDropVectorIndex
    }
}

impl Clone for PlanNode {
    fn clone(&self) -> (r: Self)
        ensures
            r == *self,
    {
        match self {
            PlanNode::LogicalMatch(p) => PlanNode::LogicalMatch(p.clone()),
            PlanNode::LogicalFilter(p) => PlanNode::LogicalFilter(p.clone()),
            PlanNode::LogicalProject(p) => PlanNode::LogicalProject(p.clone()),
            PlanNode::LogicalCall(p) => PlanNode::LogicalCall(p.clone()),
            PlanNode::LogicalOneRow(p) => PlanNode::LogicalOneRow(p.clone()),
            PlanNode::LogicalSort(p) => PlanNode::LogicalSort(p.clone()),
            PlanNode::LogicalLimit(p) => PlanNode::LogicalLimit(p.clone()),
            PlanNode::LogicalOffset(p) => PlanNode::LogicalOffset(p.clone()),
            PlanNode::LogicalVectorIndexScan(p) => PlanNode::LogicalVectorIndexScan(p.clone()),
            PlanNode::LogicalHashJoin(p) => PlanNode::LogicalHashJoin(p.clone()),
            PlanNode::LogicalVertexPropertyFetch(p) => PlanNode::LogicalVertexPropertyFetch(
                p.clone(),
            ),
            PlanNode::LogicalExplain(p) => PlanNode::LogicalExplain(p.clone()),
            PlanNode::LogicalCreateVectorIndex(p) => PlanNode::LogicalCreateVectorIndex(p.clone()),
            PlanNode::LogicalDropVectorIndex(p) => PlanNode::LogicalDropVectorIndex(p.clone()),
            PlanNode::PhysicalNodeScan(p) => PlanNode::PhysicalNodeScan(p.clone()),
            PlanNode::PhysicalExpand(p) => PlanNode::PhysicalExpand(p.clone()),
            PlanNode::PhysicalFilter(p) => PlanNode::PhysicalFilter(p.clone()),
            PlanNode::PhysicalProject(p) => PlanNode::PhysicalProject(p.clone()),
            PlanNode::PhysicalCall(p) => PlanNode::PhysicalCall(p.clone()),
            PlanNode::PhysicalOneRow(p) => PlanNode::PhysicalOneRow(p.clone()),
            PlanNode::PhysicalSort(p) => PlanNode::PhysicalSort(p.clone()),
            PlanNode::PhysicalLimit(p) => PlanNode::PhysicalLimit(p.clone()),
            PlanNode::PhysicalOffset(p) => PlanNode::PhysicalOffset(p.clone()),
            PlanNode::PhysicalVectorIndexScan(p) => PlanNode::PhysicalVectorIndexScan(p.clone()),
            PlanNode::PhysicalHashJoin(p) => PlanNode::PhysicalHashJoin(p.clone()),
            PlanNode::PhysicalVertexPropertyFetch(p) => PlanNode::PhysicalVertexPropertyFetch(
                p.clone(),
            ),
            PlanNode::PhysicalExplain(p) => PlanNode::PhysicalExplain(p.clone()),
            PlanNode::PhysicalCreateVectorIndex(p) => PlanNode::PhysicalCreateVectorIndex(
                p.clone(),
            ),
            PlanNode::PhysicalDropVectorIndex(p) => PlanNode::PhysicalDropVectorIndex(p.clone()),
            PlanNode::PhysicalCreateGraph(p) => PlanNode::PhysicalCreateGraph(p.clone()),
            PlanNode::PhysicalDropGraph(p) => PlanNode::PhysicalDropGraph(p.clone()),
        }
    }
}

/// The inputs of a plan are smaller than the plan.
pub proof fn lemma_inputs_smaller(plan: PlanNode, i: int)
    requires
        0 <= i < plan.inputs().len(),
    ensures
        decreases_to!(plan => plan.inputs()[i]),
{
    match plan {
        PlanNode::LogicalMatch(p) => assert(decreases_to!(plan => p.base.children)),
        _ => {},
    }
}

} // verus!
