//! Creating an empty graph.

use vstd::prelude::*;
use std::sync::Arc;
use crate::catalog::graph_type::{GraphTypeModel, MemoryGraphTypeCatalog};
use crate::catalog::schema::{
    GraphContainer, GraphRef, MemorySchemaCatalog, Procedure, VectorIndexCatalogEntry,
};
use crate::common::data_type::LogicalType;
use crate::common::value::ScalarValue;
use crate::execution::error::{error_text, execution_error, named_error, ExecutionResult};
use crate::transaction::txn::TxnOptions;

verus! {

/// A new graph of a type, whose transactions run as options say.
pub open spec fn is_fresh(
    graph: GraphContainer,
    graph_type: GraphTypeModel,
    txn_options: TxnOptions,
) -> bool {
    &&& graph.graph_type@ == graph_type
    &&& graph.graph_type.wf()
    &&& graph.txn_options == txn_options
    &&& graph.index_catalog matches Some(catalog)
    &&& catalog.entries@ == Seq::<VectorIndexCatalogEntry>::empty()
}

/// A schema after a graph was added under a name that was free.
pub open spec fn is_added(
    before: MemorySchemaCatalog,
    after: MemorySchemaCatalog,
    name: Seq<char>,
    graph: GraphRef,
) -> bool {
    &&& after.wf()
    &&& after.same_but_graphs(&before)
    &&& after.graph_map@ == before.graph_map@.insert(name, graph)
}

/// The procedure as the catalog knows it: it takes a text.
pub fn build_procedure() -> (r: Procedure)
    ensures
        r.parameters@ == seq![LogicalType::String],
        r.schema is None,
{
    let mut parameters: Vec<LogicalType> = Vec::new();
    parameters.push(LogicalType::String);
    assert(parameters@ =~= seq![LogicalType::String]);
    Procedure { parameters, schema: None }
}

/// Creates an empty graph in the current schema; the argument is its name.
pub fn create_test_graph(
    args: &Vec<ScalarValue>,
    current_schema: &mut Option<MemorySchemaCatalog>,
    txn_options: TxnOptions,
) -> (r: ExecutionResult<()>)
    requires
        args@.len() >= 1,
        args@[0] is String,
        *old(current_schema) matches Some(schema) ==> schema.wf(),
    ensures
        match (args@[0]->String_0, *old(current_schema)) {
            (None, _) => *final(current_schema) == *old(current_schema) && (r matches Err(e)
                && error_text(e) == "graph name cannot be null"@),
            (Some(_), None) => *final(current_schema) is None && (r matches Err(e) && error_text(e)
                == "current schema not set"@),
            (Some(name), Some(before)) => if before.graph_map@.dom().contains(name@) {
                &&& *final(current_schema) matches Some(after)
                &&& after.wf()
                &&& after.same_but_graphs(&before)
                &&& after.graph_map@ == before.graph_map@
                &&& r matches Err(e)
                &&& error_text(e) == "graph "@ + name@ + " already exists"@
            } else {
                &&& r is Ok
                &&& *final(current_schema) matches Some(after)
                &&& exists|graph: GraphRef|
                    is_fresh(*graph, GraphTypeModel::empty(), txn_options) && #[trigger] is_added(
                        before,
                        after,
                        name@,
                        graph,
                    )
            },
        },
{
    let graph_name = match &args[0] {
        ScalarValue::String(Some(name)) => name,
        _ => {
            return Err(execution_error("graph name cannot be null"));
        },
    };
    match current_schema {
        None => Err(execution_error("current schema not set")),
        Some(schema) => {
            let graph_type = MemoryGraphTypeCatalog::new();
            let graph: GraphRef = Arc::new(GraphContainer::new(Arc::new(graph_type), txn_options));
            let ghost before = *schema;
            if !schema.add_graph(graph_name.clone(), graph) {
                return Err(named_error("graph ", graph_name.as_str(), " already exists"));
            }
            assert(is_added(before, *schema, graph_name@, graph));
            Ok(())
        },
    }
}

} // verus!
