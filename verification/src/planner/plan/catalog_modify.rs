//! Operators that change the catalog.

use vstd::prelude::*;
use crate::planner::bound::{BoundGraphType, CreateKind};
use crate::planner::plan::node::PlanBase;

verus! {

/// Creates a graph.
#[derive(Debug)]
pub struct CreateGraph {
    pub base: PlanBase,
    pub name: String,
    pub kind: CreateKind,
    pub graph_type: BoundGraphType,
}

/// Two blanks for every level.
pub open spec fn indentation(indent: int) -> Seq<char> {
    Seq::new((indent * 2) as nat, |i: int| ' ')
}

/// How an operation on an existing name is written.
pub open spec fn kind_text(kind: CreateKind) -> Seq<char> {
    match kind {
        CreateKind::Create => "CREATE"@,
        CreateKind::CreateIfNotExists => "CREATE IF NOT EXISTS"@,
        CreateKind::CreateOrReplace => "CREATE OR REPLACE"@,
    }
}

fn indented(indent: usize) -> (r: String)
    ensures
        r@ == indentation(indent as int),
{
    let mut text = String::new();
    let mut i: usize = 0;
    assert(text@ =~= indentation(0));
    while i < indent
        invariant
            i <= indent,
            text@ == indentation(i as int),
        decreases indent - i,
    {
        proof {
            reveal_strlit("  ");
        }
        text.append("  ");
        i = i + 1;
        assert(text@ =~= indentation(i as int));
    }
    text
}

impl CreateGraph {
    pub fn new(name: String, kind: CreateKind, graph_type: BoundGraphType) -> (r: Self)
        ensures
            r.base.schema is None,
            r.base.children@.len() == 0,
            r.name == name,
            r.kind == kind,
            r.graph_type == graph_type,
    {
        CreateGraph { base: PlanBase::leaf(None), name, kind, graph_type }
    }

    pub fn base(&self) -> (r: &PlanBase)
        ensures
            *r == self.base,
    {
        &self.base
    }

    /// `CreateGraph: {kind} GRAPH {name}` on a line of its own.
    pub fn explain(&self, indent: usize) -> (r: Option<String>)
        ensures
            r matches Some(text) && text@ == indentation(indent as int) + "CreateGraph: "@
                + kind_text(self.kind) + " GRAPH "@ + self.name@ + "\n"@,
    {
        let mut text = indented(indent);
        text.append("CreateGraph: ");
        text.append(
            match self.kind {
                CreateKind::Create => "CREATE",
                CreateKind::CreateIfNotExists => "CREATE IF NOT EXISTS",
                CreateKind::CreateOrReplace => "CREATE OR REPLACE",
            },
        );
        text.append(" GRAPH ");
        text.append(self.name.as_str());
        text.append("\n");
        Some(text)
    }
}

/// Drops a graph.
#[derive(Debug)]
pub struct DropGraph {
    pub base: PlanBase,
    pub name: String,
    pub if_exists: bool,
}

impl DropGraph {
    pub fn new(name: String, if_exists: bool) -> (r: Self)
        ensures
            r.base.schema is None,
            r.base.children@.len() == 0,
            r.name == name,
            r.if_exists == if_exists,
    {
        DropGraph { base: PlanBase::leaf(None), name, if_exists }
    }

    pub fn base(&self) -> (r: &PlanBase)
        ensures
            *r == self.base,
    {
        &self.base
    }

    /// `DropGraph: DROP GRAPH {name}` on a line of its own, with `IF EXISTS` where it applies.
    pub fn explain(&self, indent: usize) -> (r: Option<String>)
        ensures
            r matches Some(text) && text@ == indentation(indent as int) + "DropGraph: DROP GRAPH"@
                + (if self.if_exists {
                " IF EXISTS"@
            } else {
                ""@
            }) + " "@ + self.name@ + "\n"@,
    {
        let mut text = indented(indent);
        text.append("DropGraph: DROP GRAPH");
        text.append(
            if self.if_exists {
                " IF EXISTS"
            } else {
                ""
            },
        );
        text.append(" ");
        text.append(self.name.as_str());
        text.append("\n");
        Some(text)
    }
}

} // verus!
