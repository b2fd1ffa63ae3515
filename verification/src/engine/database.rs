//! Databases.

use vstd::prelude::*;
use std::sync::Arc;
use crate::catalog::graph_type::MemoryGraphTypeCatalog;
use crate::catalog::schema::{
    added, DirectoryRef, GraphRef, MemorySchemaCatalog, Procedure, ProcedureRef,
};
use crate::engine::session::Session;
use crate::transaction::txn::TxnOptions;

verus! {

#[derive(Clone, Copy, Debug)]
pub struct DatabaseConfig {
    /// How many threads run queries.
    pub num_threads: usize,
    /// How the transactions of new graphs run.
    pub txn_options: TxnOptions,
}

/// A database in memory: a default schema with the procedures.
pub struct Database {
    pub config: DatabaseConfig,
    pub default_schema_name: String,
    pub default_schema: MemorySchemaCatalog,
}

/// Procedures by their names; of two with one name the first counts.
pub open spec fn procedures_by_name(procedures: Seq<(String, Procedure)>, n: int) -> Map<
    Seq<char>,
    ProcedureRef,
>
    decreases n,
{
    if n <= 0 {
        Map::empty()
    } else {
        added(
            procedures_by_name(procedures, n - 1),
            procedures[n - 1].0@,
            Arc::new(procedures[n - 1].1),
        )
    }
}

/// A schema under a directory that has procedures and no graphs.
fn init_default_schema(parent: DirectoryRef, procedures: Vec<(String, Procedure)>) -> (r:
    MemorySchemaCatalog)
    ensures
        r.wf(),
        r.parent == Some(parent),
        r.graph_map@ == Map::<Seq<char>, GraphRef>::empty(),
        r.graph_type_map@ == Map::<Seq<char>, Arc<MemoryGraphTypeCatalog>>::empty(),
        r.procedure_map@ == procedures_by_name(procedures@, procedures@.len() as int),
{
    let ghost all = procedures@;
    let mut schema = MemorySchemaCatalog::new(Some(parent));
    let mut left = procedures;
    let mut done: Vec<(String, ProcedureRef)> = Vec::new();
    while left.len() > 0
        invariant
            left@.len() + done@.len() == all.len(),
            left@ == all.take(left@.len() as int),
            forall|k: int|
                0 <= k < done@.len() ==> (#[trigger] done@[k]).0 == all[all.len() - 1 - k].0
                    && *done@[k].1 == all[all.len() - 1 - k].1,
        decreases left.len(),
    {
        let ghost n = left@.len() as int;
        let (name, procedure) = left.pop().unwrap();
        done.push((name, Arc::new(procedure)));
        proof {
            assert(all.take(n).drop_last() =~= all.take(n - 1));
            assert(all.take(n)[n - 1] == all[n - 1]);
        }
    }
    let ghost total = all.len() as int;
    while done.len() > 0
        invariant
            total == all.len(),
            done@.len() <= total,
            schema.wf(),
            schema.parent == Some(parent),
            schema.graph_map@ == Map::<Seq<char>, GraphRef>::empty(),
            schema.graph_type_map@ == Map::<Seq<char>, Arc<MemoryGraphTypeCatalog>>::empty(),
            schema.procedure_map@ == procedures_by_name(all, total - done@.len()),
            forall|k: int|
                0 <= k < done@.len() ==> (#[trigger] done@[k]).0 == all[total - 1 - k].0
                    && *done@[k].1 == all[total - 1 - k].1,
        decreases done.len(),
    {
        let ghost before = done@;
        let (name, procedure) = done.pop().unwrap();
        assert(before[before.len() - 1] == (name, procedure));
        let _ = schema.add_procedure(name, procedure);
    }
    schema
}

impl Database {
    /// A database in memory. Its default schema has the procedures and no graphs.
    pub fn open_in_memory(
        config: DatabaseConfig,
        root: DirectoryRef,
        default_schema_name: String,
        procedures: Vec<(String, Procedure)>,
    ) -> (r: Self)
        ensures
            r.config == config,
            r.default_schema_name == default_schema_name,
            r.default_schema.wf(),
            r.default_schema.parent == Some(root),
            r.default_schema.graph_map@ == Map::<Seq<char>, GraphRef>::empty(),
            r.default_schema.graph_type_map@ == Map::<Seq<char>, Arc<MemoryGraphTypeCatalog>>::empty(),
            r.default_schema.procedure_map@ == procedures_by_name(
                procedures@,
                procedures@.len() as int,
            ),
    {
        Database {
            config,
            default_schema_name,
            default_schema: init_default_schema(root, procedures),
        }
    }

    /// A session that starts in the default schema.
    pub fn session(&self) -> (r: Session)
        ensures
            !r.closed,
            r.context.home_schema == Some(self.default_schema_name),
            r.context.current_schema == Some(self.default_schema_name),
            r.context.current_graph is None,
    {
        Session::new(self.default_schema_name.clone())
    }
}

} // verus!
