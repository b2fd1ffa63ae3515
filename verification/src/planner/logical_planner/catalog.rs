//! Plans for statements that change the catalog.

use vstd::prelude::*;
use std::sync::Arc;
use crate::catalog::schema::GraphRef;
use crate::planner::binder::catalog::{statement_outcome, CatalogModifyingStatement};
use crate::planner::bound::{
    BoundCallProcedureStatement, BoundCatalogModifyingStatement, BoundCreateGraphStatement,
    BoundCreateVectorIndexStatement, BoundDropGraphStatement, BoundDropVectorIndexStatement,
};
use crate::planner::error::PlanResult;
use crate::planner::optimizer::{inputs_missing, is_physical_of, is_plannable, plan_missing};
use crate::planner::plan::catalog_modify::{CreateGraph, DropGraph};
use crate::planner::plan::node::{Call, CreateVectorIndex, DropVectorIndex};
use crate::planner::plan::PlanNode;

verus! {

#[derive(Debug)]
pub struct LogicalPlanner {}

/// There are plans for calls, graphs and vector indexes.
pub open spec fn has_plan(statement: BoundCatalogModifyingStatement) -> bool {
    statement is Call || statement is CreateGraph || statement is DropGraph
        || statement is CreateVectorIndex || statement is DropVectorIndex
}

/// A plan without inputs that does what a statement says.
pub open spec fn is_catalog_plan(
    plan: PlanNode,
    statement: BoundCatalogModifyingStatement,
) -> bool {
    plan.inputs().len() == 0 && match statement {
        BoundCatalogModifyingStatement::Call(call) => (plan matches PlanNode::LogicalCall(p)
            && *p.procedure == call.procedure && p.args == call.args && p.base.schema
            == call.yield_schema),
        BoundCatalogModifyingStatement::CreateVectorIndex(s) => (plan matches
            PlanNode::LogicalCreateVectorIndex(p) && p.name == s.name && p.if_not_exists
            == s.if_not_exists && p.index_key == s.index_key && p.metric == s.metric && p.dimension
            == s.dimension && p.label == s.label && p.property == s.property && p.no_op == s.no_op
            && p.base.schema is None),
        BoundCatalogModifyingStatement::DropVectorIndex(s) => (plan matches
            PlanNode::LogicalDropVectorIndex(p) && p.name == s.name && p.if_exists == s.if_exists
            && p.index_key == s.index_key && p.metadata == s.metadata && p.no_op == s.no_op
            && p.base.schema is None),
        BoundCatalogModifyingStatement::CreateGraph(s) => (plan matches
            PlanNode::PhysicalCreateGraph(p) && p.name == s.name && p.kind == s.kind
            && p.graph_type == s.graph_type && p.base.schema is None),
        BoundCatalogModifyingStatement::DropGraph(s) => (plan matches PlanNode::PhysicalDropGraph(
            p,
        ) && p.name == s.name && p.if_exists == s.if_exists && p.base.schema is None),
        _ => false,
    }
}

impl LogicalPlanner {
    pub fn new() -> (r: Self)
        ensures
            r == (LogicalPlanner {  }),
    {
        LogicalPlanner {  }
    }

    /// A plan for a statement that changes the catalog.
    pub fn plan_catalog_modifying_statement(
        &self,
        statement: BoundCatalogModifyingStatement,
    ) -> (r: PlanResult<PlanNode>)
        requires
            has_plan(statement),
        ensures
            r matches Ok(plan) && is_catalog_plan(plan, statement),
    {
        match statement {
            BoundCatalogModifyingStatement::Call(call) => self.plan_call_procedure_statement(call),
            BoundCatalogModifyingStatement::CreateVectorIndex(statement) => {
                let BoundCreateVectorIndexStatement {
                    name,
                    if_not_exists,
                    index_key,
                    metric,
                    dimension,
                    label,
                    property,
                    no_op,
                } = statement;
                let plan = CreateVectorIndex::new(
                    name,
                    if_not_exists,
                    index_key,
                    metric,
                    dimension,
                    label,
                    property,
                    no_op,
                );
                Ok(PlanNode::LogicalCreateVectorIndex(Arc::new(plan)))
            },
            BoundCatalogModifyingStatement::DropVectorIndex(statement) => {
                let BoundDropVectorIndexStatement {
                    name,
                    if_exists,
                    index_key,
                    metadata,
                    no_op,
                } = statement;
                let plan = DropVectorIndex::new(name, if_exists, index_key, metadata, no_op);
                Ok(PlanNode::LogicalDropVectorIndex(Arc::new(plan)))
            },
            BoundCatalogModifyingStatement::CreateGraph(create_graph) => {
                self.plan_create_graph_statement(create_graph)
            },
            BoundCatalogModifyingStatement::DropGraph(drop_graph) => {
                self.plan_drop_graph_statement(drop_graph)
            },
            _ => vstd::pervasive::unreached(),
        }
    }

    fn plan_call_procedure_statement(&self, call: BoundCallProcedureStatement) -> (r: PlanResult<
        PlanNode,
    >)
        ensures
            r matches Ok(plan) && is_catalog_plan(plan, BoundCatalogModifyingStatement::Call(call)),
    {
        let plan = Call::new(call.procedure, call.args, call.yield_schema);
        Ok(PlanNode::LogicalCall(Arc::new(plan)))
    }

    fn plan_create_graph_statement(&self, statement: BoundCreateGraphStatement) -> (r: PlanResult<
        PlanNode,
    >)
        ensures
            r matches Ok(plan) && is_catalog_plan(
                plan,
                BoundCatalogModifyingStatement::CreateGraph(statement),
            ),
    {
        let plan = CreateGraph::new(statement.name, statement.kind, statement.graph_type);
        Ok(PlanNode::PhysicalCreateGraph(Arc::new(plan)))
    }

    fn plan_drop_graph_statement(&self, statement: BoundDropGraphStatement) -> (r: PlanResult<
        PlanNode,
    >)
        ensures
            r matches Ok(plan) && is_catalog_plan(
                plan,
                BoundCatalogModifyingStatement::DropGraph(statement),
            ),
    {
        let plan = DropGraph::new(statement.name, statement.if_exists);
        Ok(PlanNode::PhysicalDropGraph(Arc::new(plan)))
    }
}

/// There is a plan for every statement that can be bound.
pub proof fn bound_statements_have_plans(
    current_graph: Option<GraphRef>,
    statement: CatalogModifyingStatement,
    bound: BoundCatalogModifyingStatement,
)
    requires
        statement_outcome(current_graph, statement, Ok(bound)),
    ensures
        has_plan(bound),
{
}

/// A plan for a statement that changes the catalog can always be made physical, and a plan that
/// creates or drops a graph stays what it is.
pub proof fn catalog_plans_are_plannable(
    plan: PlanNode,
    statement: BoundCatalogModifyingStatement,
    physical: PlanNode,
)
    requires
        is_catalog_plan(plan, statement),
    ensures
        is_plannable(plan),
        plan_missing(plan) is None,
        (statement is CreateGraph || statement is DropGraph) && is_physical_of(physical, plan)
            ==> physical == plan,
{
    assert(inputs_missing(plan, 0) is None);
}

} // verus!
