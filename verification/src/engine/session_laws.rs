//! What commands leave of a session, and which procedures a database has: laws.

use vstd::prelude::*;
use std::sync::Arc;
use crate::catalog::schema::Procedure;
use crate::engine::database::procedures_by_name;
use crate::engine::error::Error;
use crate::engine::procedures::predefined::predefined_names;
use crate::engine::session::{
    activity_applied, is_failure, resets_applied, sets_applied, transaction_step, GraphTarget,
    QueryStep, SessionActivity, SessionContext, SessionFailure, SessionResetArgs, SessionSet,
    TransactionActivity,
};
use crate::planner::bound::NamedGraphRef;

verus! {

/// The command leads to a schema or to a graph.
pub open spec fn is_resolved(set: SessionSet) -> bool {
    match set {
        SessionSet::Schema(found) => found is Ok,
        SessionSet::Graph(GraphTarget::Name(found)) => found is Ok,
        _ => false,
    }
}

/// The reset is of something that can be reset.
pub open spec fn is_allowed(reset: Option<SessionResetArgs>) -> bool {
    reset != Some(SessionResetArgs::Other)
}

/// Commands that lead somewhere all succeed. The schema of the session is then the last one that
/// was set, or the one before where none was; the home schema stays.
pub proof fn last_schema_that_is_set_counts(
    context: SessionContext,
    sets: Seq<SessionSet>,
    n: int,
    m: int,
    name: String,
)
    requires
        0 <= n <= sets.len(),
        forall|i: int| 0 <= i < n ==> is_resolved(#[trigger] sets[i]),
        -1 <= m < n,
        m >= 0 ==> sets[m] == SessionSet::Schema(Ok(name)),
        forall|i: int| m < i < n ==> !(#[trigger] sets[i] is Schema),
    ensures
        sets_applied(context, sets, n).failure is None,
        m >= 0 ==> sets_applied(context, sets, n).context.current_schema == Some(name),
        m == -1 ==> sets_applied(context, sets, n).context.current_schema == context.current_schema,
        sets_applied(context, sets, n).context.home_schema == context.home_schema,
    decreases n,
{
    if n > 0 {
        let last = sets[n - 1];
        assert(is_resolved(sets[n - 1]));
        if m == n - 1 {
            lemma_sets_succeed(context, sets, n - 1);
        } else {
            last_schema_that_is_set_counts(context, sets, n - 1, m, name);
        }
    }
}

/// The graph of the session is the last one that was set, or the one before where none was.
pub proof fn last_graph_that_is_set_counts(
    context: SessionContext,
    sets: Seq<SessionSet>,
    n: int,
    m: int,
    graph: Arc<NamedGraphRef>,
)
    requires
        0 <= n <= sets.len(),
        forall|i: int| 0 <= i < n ==> is_resolved(#[trigger] sets[i]),
        -1 <= m < n,
        m >= 0 ==> sets[m] == SessionSet::Graph(GraphTarget::Name(Ok(graph))),
        forall|i: int| m < i < n ==> !(#[trigger] sets[i] is Graph),
    ensures
        sets_applied(context, sets, n).failure is None,
        m >= 0 ==> sets_applied(context, sets, n).context.current_graph == Some(graph),
        m == -1 ==> sets_applied(context, sets, n).context.current_graph == context.current_graph,
    decreases n,
{
    if n > 0 {
        let last = sets[n - 1];
        assert(is_resolved(sets[n - 1]));
        if m == n - 1 {
            lemma_sets_succeed(context, sets, n - 1);
        } else {
            last_graph_that_is_set_counts(context, sets, n - 1, m, graph);
        }
    }
}

proof fn lemma_sets_succeed(context: SessionContext, sets: Seq<SessionSet>, n: int)
    requires
        0 <= n <= sets.len(),
        forall|i: int| 0 <= i < n ==> is_resolved(#[trigger] sets[i]),
    ensures
        sets_applied(context, sets, n).failure is None,
        sets_applied(context, sets, n).context.home_schema == context.home_schema,
    decreases n,
{
    if n > 0 {
        let last = sets[n - 1];
        assert(is_resolved(sets[n - 1]));
        lemma_sets_succeed(context, sets, n - 1);
    }
}

/// The first command that leads nowhere is what is reported, and nothing after it is done: a
/// reference says why, and what cannot be set is not there.
pub proof fn first_set_that_fails_is_reported(
    context: SessionContext,
    sets: Seq<SessionSet>,
    i: int,
    n: int,
)
    requires
        0 <= i < n <= sets.len(),
        forall|j: int| 0 <= j < i ==> is_resolved(#[trigger] sets[j]),
        !is_resolved(sets[i]),
    ensures
        sets_applied(context, sets, n).context == sets_applied(context, sets, i).context,
        sets[i] matches SessionSet::Schema(Err(text)) ==> sets_applied(context, sets, n).failure
            == Some(SessionFailure::Missing(text@)),
        sets[i] matches SessionSet::Graph(GraphTarget::Name(Err(text))) ==> sets_applied(
            context,
            sets,
            n,
        ).failure == Some(SessionFailure::Missing(text@)),
        sets[i] == SessionSet::Graph(GraphTarget::Other) ==> sets_applied(context, sets, n).failure
            == Some(SessionFailure::NotImplemented("not allowed there"@)),
        sets[i] == SessionSet::Other ==> sets_applied(context, sets, n).failure == Some(
            SessionFailure::NotImplemented("not implemented "@),
        ),
    decreases n,
{
    lemma_sets_succeed(context, sets, i);
    if n - 1 > i {
        first_set_that_fails_is_reported(context, sets, i, n - 1);
    }
}

/// A reset of the schema leads back to the home schema and one of the graph leaves no graph;
/// nothing else changes. A reset of anything else is refused, and nothing after it is done.
pub proof fn resets_lead_home(
    context: SessionContext,
    resets: Seq<Option<SessionResetArgs>>,
    n: int,
)
    requires
        0 <= n <= resets.len(),
    ensures
        (forall|i: int| 0 <= i < n ==> is_allowed(#[trigger] resets[i])) ==> {
            let r = resets_applied(context, resets, n);
            &&& r.failure is None
            &&& r.context.home_schema == context.home_schema
            &&& (exists|i: int|
                0 <= i < n && (#[trigger] resets[i]) == Some(SessionResetArgs::Schema))
                ==> r.context.current_schema == context.home_schema
            &&& (forall|i: int|
                0 <= i < n ==> (#[trigger] resets[i]) != Some(SessionResetArgs::Schema))
                ==> r.context.current_schema == context.current_schema
            &&& (exists|i: int|
                0 <= i < n && (#[trigger] resets[i]) == Some(SessionResetArgs::Graph))
                ==> r.context.current_graph is None
            &&& (forall|i: int|
                0 <= i < n ==> (#[trigger] resets[i]) != Some(SessionResetArgs::Graph))
                ==> r.context.current_graph == context.current_graph
        },
    decreases n,
{
    if n > 0 {
        resets_lead_home(context, resets, n - 1);
        let last = resets[n - 1];
        if forall|i: int| 0 <= i < n ==> is_allowed(#[trigger] resets[i]) {
            assert(is_allowed(resets[n - 1]));
        }
    }
}

/// The first reset that is refused is what is reported.
pub proof fn first_reset_that_fails_is_reported(
    context: SessionContext,
    resets: Seq<Option<SessionResetArgs>>,
    i: int,
    n: int,
)
    requires
        0 <= i < n <= resets.len(),
        forall|j: int| 0 <= j < i ==> is_allowed(#[trigger] resets[j]),
        !is_allowed(resets[i]),
    ensures
        resets_applied(context, resets, n).context == resets_applied(context, resets, i).context,
        resets_applied(context, resets, n).failure == Some(
            SessionFailure::NotImplemented("not allowed there"@),
        ),
    decreases n,
{
    resets_lead_home(context, resets, i);
    if n - 1 > i {
        first_reset_that_fails_is_reported(context, resets, i, n - 1);
    }
}

/// What an activity resets is reset after everything that it sets was set; where a set fails,
/// nothing is reset.
pub proof fn resets_come_after_sets(context: SessionContext, activity: SessionActivity)
    ensures
        (exists|i: int| 0 <= i < activity.set@.len() && !is_resolved(#[trigger] activity.set@[i]))
            ==> activity_applied(context, activity).failure is Some,
        (forall|i: int| 0 <= i < activity.set@.len() ==> is_resolved(#[trigger] activity.set@[i]))
            && (forall|i: int|
            0 <= i < activity.reset@.len() ==> is_allowed(#[trigger] activity.reset@[i])) ==> {
            let r = activity_applied(context, activity);
            &&& r.failure is None
            &&& r.context.home_schema == context.home_schema
            &&& (exists|i: int|
                0 <= i < activity.reset@.len() && (#[trigger] activity.reset@[i]) == Some(
                    SessionResetArgs::Schema,
                )) ==> r.context.current_schema == context.home_schema
            &&& (exists|i: int|
                0 <= i < activity.reset@.len() && (#[trigger] activity.reset@[i]) == Some(
                    SessionResetArgs::Graph,
                )) ==> r.context.current_graph is None
        },
{
    let sets = activity.set@;
    let n = sets.len() as int;
    if exists|i: int| 0 <= i < n && !is_resolved(#[trigger] sets[i]) {
        let i = choose|i: int| 0 <= i < n && !is_resolved(#[trigger] sets[i]);
        lemma_some_set_fails(context, sets, i, n);
    } else {
        assert forall|i: int| 0 <= i < n implies is_resolved(#[trigger] sets[i]) by {}
        lemma_sets_succeed(context, sets, n);
        resets_lead_home(
            sets_applied(context, sets, n).context,
            activity.reset@,
            activity.reset@.len() as int,
        );
    }
}

proof fn lemma_some_set_fails(context: SessionContext, sets: Seq<SessionSet>, i: int, n: int)
    requires
        0 <= i < n <= sets.len(),
        !is_resolved(sets[i]),
    ensures
        sets_applied(context, sets, n).failure is Some,
    decreases n,
{
    if n - 1 > i {
        lemma_some_set_fails(context, sets, i, n - 1);
    }
}

/// What a failed command is answered.
pub proof fn failures_have_their_errors(e: Error, failure: SessionFailure)
    requires
        is_failure(e, failure),
    ensures
        failure matches SessionFailure::NotImplemented(feature) ==> (e matches
            Error::NotImplemented(n) && n.feature@ == feature && n.issue is None),
        failure matches SessionFailure::Missing(text) ==> (e matches Error::Session(t) && t@ == text),
{
}

/// Starting and ending transactions is not there, in this order; else a procedure is run where
/// there is one.
pub proof fn transaction_activities_run_procedures(activity: TransactionActivity)
    ensures
        activity.start ==> transaction_step(activity) == Err::<QueryStep, Seq<char>>(
            "start transaction"@,
        ),
        !activity.start && activity.end ==> transaction_step(activity) == Err::<
            QueryStep,
            Seq<char>,
        >("end transaction"@),
        !activity.start && !activity.end && activity.procedure ==> transaction_step(activity)
            == Ok::<QueryStep, Seq<char>>(QueryStep::RunProcedure),
        !activity.start && !activity.end && !activity.procedure ==> transaction_step(activity)
            == Ok::<QueryStep, Seq<char>>(QueryStep::Done),
{
}

// ---------------------------------------------------------------------------------------------
// Procedures
// ---------------------------------------------------------------------------------------------

/// A database has, under every name in a list of procedures, the first procedure with that name,
/// and no others.
pub proof fn first_procedure_with_a_name_counts(
    procedures: Seq<(String, Procedure)>,
    n: int,
    name: Seq<char>,
    i: int,
)
    requires
        0 <= i <= n <= procedures.len(),
        i < n ==> procedures[i].0@ == name,
        forall|j: int| 0 <= j < i ==> (#[trigger] procedures[j]).0@ != name,
    ensures
        procedures_by_name(procedures, n).dom().contains(name) <==> i < n,
        i < n ==> *procedures_by_name(procedures, n)[name] == procedures[i].1,
    decreases n,
{
    if n > 0 {
        if i == n {
            assert(procedures[n - 1].0@ != name);
            first_procedure_with_a_name_counts(procedures, n - 1, name, i - 1);
        } else {
            first_procedure_with_a_name_counts(procedures, n - 1, name, i);
        }
    }
}

/// The procedures that every database has, in order, and those on files after them where there are
/// files.
pub proof fn predefined_procedures_are_these(file_procedures: bool)
    ensures
        ({
            let names = predefined_names(file_procedures);
            &&& names[0] == "echo"@
            &&& names[1] == "show_procedures"@
            &&& names[2] == "create_test_graph"@
            &&& names[3] == "create_test_graph_data"@
            &&& names[4] == "show_graph"@
            &&& !file_procedures ==> names.len() == 5
            &&& file_procedures ==> names.len() == 7 && names[5] == "import_graph"@ && names[6]
                == "export_graph"@
        }),
{
}

} // verus!
