//! Sessions: what a program changes about its session.

use vstd::prelude::*;
use std::sync::Arc;
use crate::catalog::schema::MemorySchemaCatalog;
use crate::engine::error::{is_not_implemented, not_implemented, EngineResult, Error};
use crate::engine::procedures::import_graph::{is_registered, GraphImport};
use crate::execution::error::ExecutionResult;
use crate::planner::bound::NamedGraphRef;
use crate::storage::model::GraphData;
use crate::transaction::txn::TxnOptions;

verus! {

/// Where a session stands: the names of its schemas, and its graph.
#[derive(Debug)]
pub struct SessionContext {
    pub home_schema: Option<String>,
    pub current_schema: Option<String>,
    pub current_graph: Option<Arc<NamedGraphRef>>,
}

/// A command that sets something. A reference comes with what it leads to, or why it leads to
/// nothing.
#[derive(Debug)]
pub enum SessionSet {
    Schema(Result<String, String>),
    Graph(GraphTarget),
    Other,
}

#[derive(Debug)]
pub enum GraphTarget {
    /// A graph by its name.
    Name(Result<Arc<NamedGraphRef>, String>),
    Other,
}

#[derive(Clone, Copy, Debug, PartialEq, Eq, Structural)]
pub enum SessionResetArgs {
    Schema,
    Graph,
    Other,
}

/// Commands that set and reset parts of a session.
#[derive(Debug)]
pub struct SessionActivity {
    pub set: Vec<SessionSet>,
    pub reset: Vec<Option<SessionResetArgs>>,
}

/// What a transaction activity consists of.
#[derive(Clone, Copy, Debug, PartialEq, Eq, Structural)]
pub struct TransactionActivity {
    pub start: bool,
    pub end: bool,
    /// There is a procedure to run.
    pub procedure: bool,
}

#[derive(Debug)]
pub enum ProgramActivity {
    Session(SessionActivity),
    Transaction(TransactionActivity),
}

/// A program.
#[derive(Debug)]
pub struct Program {
    pub activity: Option<ProgramActivity>,
    pub session_close: bool,
}

/// What is left to do for a program.
#[derive(Clone, Copy, Debug, PartialEq, Eq, Structural)]
pub enum QueryStep {
    /// Nothing: the result is empty.
    Done,
    /// The procedure is to be planned and run.
    RunProcedure,
}

/// A session.
#[derive(Debug)]
pub struct Session {
    pub context: SessionContext,
    pub closed: bool,
}

// ---------------------------------------------------------------------------------------------
// What commands do
// ---------------------------------------------------------------------------------------------

/// Why a command fails.
pub enum SessionFailure {
    NotImplemented(Seq<char>),
    /// A reference leads to nothing.
    Missing(Seq<char>),
}

/// The error is for the failure.
pub open spec fn is_failure(e: Error, failure: SessionFailure) -> bool {
    match failure {
        SessionFailure::NotImplemented(feature) => is_not_implemented(e, feature),
        SessionFailure::Missing(text) => (e matches Error::Session(t) && t@ == text),
    }
}

/// A session after commands, up to the first that fails.
pub struct Applied {
    pub context: SessionContext,
    pub failure: Option<SessionFailure>,
}

pub open spec fn set_applied(context: SessionContext, set: SessionSet) -> Applied {
    match set {
        SessionSet::Schema(Ok(name)) => Applied {
            context: SessionContext { current_schema: Some(name), ..context },
            failure: None,
        },
        SessionSet::Schema(Err(text)) => Applied {
            context,
            failure: Some(SessionFailure::Missing(text@)),
        },
        SessionSet::Graph(GraphTarget::Name(Ok(graph))) => Applied {
            context: SessionContext { current_graph: Some(graph), ..context },
            failure: None,
        },
        SessionSet::Graph(GraphTarget::Name(Err(text))) => Applied {
            context,
            failure: Some(SessionFailure::Missing(text@)),
        },
        SessionSet::Graph(GraphTarget::Other) => Applied {
            context,
            failure: Some(SessionFailure::NotImplemented("not allowed there"@)),
        },
        SessionSet::Other => Applied {
            context,
            failure: Some(SessionFailure::NotImplemented("not implemented "@)),
        },
    }
}

pub open spec fn reset_applied(context: SessionContext, reset: Option<SessionResetArgs>) -> Applied {
    match reset {
        None => Applied { context, failure: None },
        Some(SessionResetArgs::Schema) => Applied {
            context: SessionContext { current_schema: context.home_schema, ..context },
            failure: None,
        },
        Some(SessionResetArgs::Graph) => Applied {
            context: SessionContext { current_graph: None, ..context },
            failure: None,
        },
        Some(SessionResetArgs::Other) => Applied {
            context,
            failure: Some(SessionFailure::NotImplemented("not allowed there"@)),
        },
    }
}

/// After the first `n` commands that set something.
pub open spec fn sets_applied(context: SessionContext, sets: Seq<SessionSet>, n: int) -> Applied
    decreases n,
{
    if n <= 0 {
        Applied { context, failure: None }
    } else {
        let before = sets_applied(context, sets, n - 1);
        if before.failure is Some {
            before
        } else {
            set_applied(before.context, sets[n - 1])
        }
    }
}

/// After the first `n` commands that reset something.
pub open spec fn resets_applied(
    context: SessionContext,
    resets: Seq<Option<SessionResetArgs>>,
    n: int,
) -> Applied
    decreases n,
{
    if n <= 0 {
        Applied { context, failure: None }
    } else {
        let before = resets_applied(context, resets, n - 1);
        if before.failure is Some {
            before
        } else {
            reset_applied(before.context, resets[n - 1])
        }
    }
}

/// After an activity: first what it sets, then what it resets.
pub open spec fn activity_applied(context: SessionContext, activity: SessionActivity) -> Applied {
    let sets = sets_applied(context, activity.set@, activity.set@.len() as int);
    if sets.failure is Some {
        sets
    } else {
        resets_applied(sets.context, activity.reset@, activity.reset@.len() as int)
    }
}

proof fn lemma_set_failure_stays(
    context: SessionContext,
    sets: Seq<SessionSet>,
    i: int,
    n: int,
)
    requires
        0 <= i <= n,
        sets_applied(context, sets, i).failure is Some,
    ensures
        sets_applied(context, sets, n) == sets_applied(context, sets, i),
    decreases n - i,
{
    if i < n {
        lemma_set_failure_stays(context, sets, i, n - 1);
    }
}

proof fn lemma_reset_failure_stays(
    context: SessionContext,
    resets: Seq<Option<SessionResetArgs>>,
    i: int,
    n: int,
)
    requires
        0 <= i <= n,
        resets_applied(context, resets, i).failure is Some,
    ensures
        resets_applied(context, resets, n) == resets_applied(context, resets, i),
    decreases n - i,
{
    if i < n {
        lemma_reset_failure_stays(context, resets, i, n - 1);
    }
}

/// What a transaction activity comes to.
pub open spec fn transaction_step(activity: TransactionActivity) -> Result<QueryStep, Seq<char>> {
    if activity.start {
        Err("start transaction"@)
    } else if activity.end {
        Err("end transaction"@)
    } else if activity.procedure {
        Ok(QueryStep::RunProcedure)
    } else {
        Ok(QueryStep::Done)
    }
}

// ---------------------------------------------------------------------------------------------
// Sessions
// ---------------------------------------------------------------------------------------------

impl Session {
    /// A session that starts in a schema.
    pub fn new(default_schema: String) -> (r: Self)
        ensures
            !r.closed,
            r.context.home_schema == Some(default_schema),
            r.context.current_schema == Some(default_schema),
            r.context.current_graph is None,
    {
        let current = default_schema.clone();
        Session {
            context: SessionContext {
                home_schema: Some(default_schema),
                current_schema: Some(current),
                current_graph: None,
            },
            closed: false,
        }
    }

    /// Whether the session takes queries.
    pub fn check_open(&self) -> (r: EngineResult<()>)
        ensures
            self.closed ==> (r matches Err(e) && e is SessionClosed),
            !self.closed ==> r is Ok,
    {
        if self.closed {
            Err(Error::SessionClosed)
        } else {
            Ok(())
        }
    }

    /// Does what a program says, up to a procedure that it runs. A program that closes the session
    /// does so once all of it has succeeded.
    pub fn query(&mut self, program: &Program) -> (r: EngineResult<QueryStep>)
        ensures
            if old(self).closed {
                *final(self) == *old(self) && (r matches Err(e) && e is SessionClosed)
            } else {
                match program.activity {
                    None => {
                        &&& r == Ok::<QueryStep, Error>(QueryStep::Done)
                        &&& final(self).context == old(self).context
                        &&& final(self).closed == program.session_close
                    },
                    Some(ProgramActivity::Session(activity)) => {
                        let applied = activity_applied(old(self).context, activity);
                        &&& final(self).context == applied.context
                        &&& match applied.failure {
                            Some(failure) => !final(self).closed && (r matches Err(e)
                                && is_failure(e, failure)),
                            None => {
                                &&& r == Ok::<QueryStep, Error>(QueryStep::Done)
                                &&& final(self).closed == program.session_close
                            },
                        }
                    },
                    Some(ProgramActivity::Transaction(activity)) => {
                        &&& final(self).context == old(self).context
                        &&& match transaction_step(activity) {
                            Err(feature) => !final(self).closed && (r matches Err(e)
                                && is_not_implemented(e, feature)),
                            Ok(step) => r == Ok::<QueryStep, Error>(step) && final(self).closed == (
                            step == QueryStep::Done && program.session_close),
                        }
                    },
                }
            },
    {
        if self.closed {
            return Err(Error::SessionClosed);
        }
        let step = match &program.activity {
            None => QueryStep::Done,
            Some(ProgramActivity::Session(activity)) => {
                match self.handle_session_activity(activity) {
                    Ok(_) => QueryStep::Done,
                    Err(e) => {
                        return Err(e);
                    },
                }
            },
            Some(ProgramActivity::Transaction(activity)) => {
                match Session::handle_transaction_activity(activity) {
                    Ok(step) => step,
                    Err(e) => {
                        return Err(e);
                    },
                }
            },
        };
        if step == QueryStep::Done && program.session_close {
            self.closed = true;
        }
        Ok(step)
    }

    /// Notes that the procedure of a program has run without an error.
    pub fn finish_procedure(&mut self, program: &Program)
        ensures
            final(self).context == old(self).context,
            final(self).closed == (old(self).closed || program.session_close),
    {
        if program.session_close {
            self.closed = true;
        }
    }

    /// Adds an imported graph to the current schema, and makes it the graph of the session. Gives
    /// the data that the graph is to hold.
    pub fn import_graph(
        &mut self,
        import: GraphImport,
        current_schema: &mut Option<MemorySchemaCatalog>,
        graph_name: &str,
        txn_options: TxnOptions,
    ) -> (r: ExecutionResult<GraphData>)
        requires
            import.graph_type.wf(),
            *old(current_schema) matches Some(schema) ==> schema.wf(),
        ensures
            is_registered(
                import,
                *old(current_schema),
                graph_name@,
                txn_options,
                r,
                *final(current_schema),
            ),
            final(self).closed == old(self).closed,
            r is Err ==> final(self).context == old(self).context,
            r is Ok ==> {
                &&& *final(current_schema) matches Some(schema)
                &&& final(self).context.current_graph matches Some(graph)
                &&& graph.name@ == graph_name@
                &&& graph.object == schema.graph_map@[graph_name@]
                &&& final(self).context == (SessionContext {
                    current_graph: Some(graph),
                    ..old(self).context
                })
            },
    {
        match import.register(current_schema, graph_name, txn_options) {
            Err(e) => Err(e),
            Ok(data) => {
                if let Some(schema) = current_schema {
                    if let Some(object) = schema.get_graph(graph_name) {
                        let graph = NamedGraphRef { name: graph_name.to_owned(), object };
                        self.context.current_graph = Some(Arc::new(graph));
                    }
                }
                Ok(data)
            },
        }
    }

    fn handle_session_activity(&mut self, activity: &SessionActivity) -> (r: EngineResult<()>)
        ensures
            final(self).closed == old(self).closed,
            final(self).context == activity_applied(old(self).context, *activity).context,
            match activity_applied(old(self).context, *activity).failure {
                Some(failure) => r matches Err(e) && is_failure(e, failure),
                None => r is Ok,
            },
    {
        let ghost start = self.context;
        let ghost sets = activity.set@;
        let mut i: usize = 0;
        while i < activity.set.len()
            invariant
                i <= activity.set@.len(),
                sets == activity.set@,
                start == old(self).context,
                self.closed == old(self).closed,
                sets_applied(start, sets, i as int) == (Applied {
                    context: self.context,
                    failure: None,
                }),
            decreases activity.set.len() - i,
        {
            let failed = match &activity.set[i] {
                SessionSet::Schema(Ok(name)) => {
                    self.context.current_schema = Some(name.clone());
                    None
                },
                SessionSet::Schema(Err(text)) => Some(Error::Session(text.clone())),
                SessionSet::Graph(GraphTarget::Name(Ok(graph))) => {
                    self.context.current_graph = Some(graph.clone());
                    None
                },
                SessionSet::Graph(GraphTarget::Name(Err(text))) => Some(
                    Error::Session(text.clone()),
                ),
                SessionSet::Graph(GraphTarget::Other) => Some(
                    not_implemented("not allowed there"),
                ),
                SessionSet::Other => Some(not_implemented("not implemented ")),
            };
            if let Some(e) = failed {
                proof {
                    assert(sets_applied(start, sets, i + 1).failure is Some);
                    lemma_set_failure_stays(start, sets, i + 1, sets.len() as int);
                }
                return Err(e);
            }
            i = i + 1;
        }
        let ghost middle = self.context;
        let ghost resets = activity.reset@;
        let mut j: usize = 0;
        while j < activity.reset.len()
            invariant
                j <= activity.reset@.len(),
                sets == activity.set@,
                resets == activity.reset@,
                start == old(self).context,
                sets_applied(start, sets, sets.len() as int) == (Applied {
                    context: middle,
                    failure: None,
                }),
                self.closed == old(self).closed,
                resets_applied(middle, resets, j as int) == (Applied {
                    context: self.context,
                    failure: None,
                }),
            decreases activity.reset.len() - j,
        {
            let failed = match activity.reset[j] {
                None => false,
                Some(SessionResetArgs::Schema) => {
                    let home = match &self.context.home_schema {
                        Some(name) => Some(name.clone()),
                        None => None,
                    };
                    self.context.current_schema = home;
                    false
                },
                Some(SessionResetArgs::Graph) => {
                    self.context.current_graph = None;
                    false
                },
                Some(SessionResetArgs::Other) => true,
            };
            if failed {
                proof {
                    assert(resets_applied(middle, resets, j + 1).failure is Some);
                    lemma_reset_failure_stays(middle, resets, j + 1, resets.len() as int);
                }
                return Err(not_implemented("not allowed there"));
            }
            j = j + 1;
        }
        Ok(())
    }

    fn handle_transaction_activity(activity: &TransactionActivity) -> (r: EngineResult<QueryStep>)
        ensures
            match transaction_step(*activity) {
                Ok(step) => r == Ok::<QueryStep, Error>(step),
                Err(feature) => r matches Err(e) && is_not_implemented(e, feature),
            },
    {
        if activity.start {
            return Err(not_implemented("start transaction"));
        }
        if activity.end {
            return Err(not_implemented("end transaction"));
        }
        if activity.procedure {
            Ok(QueryStep::RunProcedure)
        } else {
            Ok(QueryStep::Done)
        }
    }
}

} // verus!
