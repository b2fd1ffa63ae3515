//! Binding the statements that change the catalog.

use vstd::prelude::*;
use crate::catalog::graph_type::{
    find_property, property_index, type_of, MemoryVertexTypeCatalog, VertexTypeRef,
};
use crate::catalog::label_set::LabelSet;
use crate::catalog::schema::{
    index_by_key, index_by_name, GraphContainer, GraphRef, VectorIndexCatalogEntry,
};
use crate::common::data_type::LogicalType;
use crate::common::text::strings_equal;
use crate::common::types::{VectorIndexKey, VectorMetric};
use crate::planner::ast::{
    CreateGraphOrGraphTypeStatementKind, CreateGraphStatement, CreateGraphTypeStatement,
    CreateSchemaStatement, CreateVectorIndexStatement, DropGraphStatement, DropGraphTypeStatement,
    DropSchemaStatement, DropVectorIndexStatement, GraphElementType, OfGraphType,
};
use crate::planner::binder::error::{is_not_implemented, not_implemented, BindError, BindResult};
use crate::planner::binder::type_element::{
    bind_graph_element_type, element_ok, is_element_error, is_element_of,
};
use crate::planner::bound::{
    BoundCallProcedureStatement, BoundCatalogModifyingStatement, BoundCreateGraphStatement,
    BoundCreateGraphTypeStatement, BoundCreateSchemaStatement, BoundCreateVectorIndexStatement,
    BoundDropGraphStatement, BoundDropGraphTypeStatement, BoundDropSchemaStatement,
    BoundDropVectorIndexStatement, BoundGraphElementType, BoundGraphType, CreateKind,
    NamedGraphRef,
};

verus! {

/// A statement that changes the catalog. A call of a procedure comes with its arguments bound; the
/// creation of a graph comes with the outcome of binding the graph that it is copied from.
pub enum CatalogModifyingStatement {
    Call(BoundCallProcedureStatement),
    CreateSchema(CreateSchemaStatement),
    DropSchema(DropSchemaStatement),
    CreateGraph(CreateGraphStatement, Option<BindResult<NamedGraphRef>>),
    DropGraph(DropGraphStatement),
    CreateVectorIndex(CreateVectorIndexStatement),
    DropVectorIndex(DropVectorIndexStatement),
    CreateGraphType(CreateGraphTypeStatement),
    DropGraphType(DropGraphTypeStatement),
}

/// What statements are bound against.
pub struct Binder {
    pub current_graph: Option<GraphRef>,
}

// ---------------------------------------------------------------------------------------------
// Vector indexes
// ---------------------------------------------------------------------------------------------

/// The index of a graph on a key.
pub open spec fn graph_index_by_key(graph: GraphContainer, key: VectorIndexKey) -> Option<
    VectorIndexCatalogEntry,
> {
    match graph.index_catalog {
        Some(catalog) => index_by_key(catalog.entries@, key, 0),
        None => None,
    }
}

/// The index of a graph with a name.
pub open spec fn graph_index_by_name(graph: GraphContainer, name: Seq<char>) -> Option<
    VectorIndexCatalogEntry,
> {
    match graph.index_catalog {
        Some(catalog) => index_by_name(catalog.entries@, name, 0),
        None => None,
    }
}

/// The vertex type that has exactly the label of a name.
pub open spec fn labelled_type(graph: GraphContainer, label: Seq<char>) -> Option<VertexTypeRef> {
    let graph_type = graph.graph_type;
    if graph_type.label_map@.dom().contains(label) {
        type_of(graph_type.vertex_types@, seq![graph_type.label_map@[label]])
    } else {
        None
    }
}

/// What the binding of a `CREATE VECTOR INDEX` statement comes to.
pub open spec fn create_index_outcome(
    current_graph: Option<GraphRef>,
    s: CreateVectorIndexStatement,
    r: BindResult<BoundCreateVectorIndexStatement>,
) -> bool {
    if s.binding@ != s.property_binding@ {
        r matches Err(BindError::CreateVectorIndexBindingMismatch { binding, property_binding })
            && binding == s.binding && property_binding == s.property_binding
    } else {
        match current_graph {
            None => r matches Err(e) && e is CurrentGraphNotSpecified,
            Some(graph) => match labelled_type(*graph, s.label@) {
                None => r matches Err(BindError::LabelNotFound(label)) && label == s.label,
                Some(vertex_type) => create_index_on_type(*graph, *vertex_type, s, r),
            },
        }
    }
}

/// What it comes to once the vertex type is known.
pub open spec fn create_index_on_type(
    graph: GraphContainer,
    vertex_type: MemoryVertexTypeCatalog,
    s: CreateVectorIndexStatement,
    r: BindResult<BoundCreateVectorIndexStatement>,
) -> bool {
    match property_index(vertex_type.properties@, s.property@, 0) {
        None => r matches Err(BindError::PropertyNotFound { label, property }) && label == s.label
            && property == s.property,
        Some(p) => match vertex_type.properties@[p].ty {
            LogicalType::Vector(dimension) => {
                let key = VectorIndexKey {
                    label_id: graph.graph_type.label_map@[s.label@],
                    property_id: p as u32,
                };
                create_index_on_key(graph, key, dimension, s, r)
            },
            ty => r matches Err(BindError::PropertyNotVector { label, property, ty: found })
                && label == s.label && property == s.property && found == ty,
        },
    }
}

/// What it comes to once the key of the index is known.
pub open spec fn create_index_on_key(
    graph: GraphContainer,
    key: VectorIndexKey,
    dimension: usize,
    s: CreateVectorIndexStatement,
    r: BindResult<BoundCreateVectorIndexStatement>,
) -> bool {
    let existing = graph_index_by_key(graph, key);
    let named = graph_index_by_name(graph, s.name@);
    if named is Some && named->0.key != key {
        r matches Err(BindError::VectorIndexNameAlreadyExists { name }) && name == s.name
    } else if existing is Some && !s.if_not_exists {
        r matches Err(BindError::VectorIndexAlreadyExists { label, property }) && label == s.label
            && property == s.property
    } else {
        r matches Ok(bound) && bound == (BoundCreateVectorIndexStatement {
            name: s.name,
            if_not_exists: s.if_not_exists,
            index_key: key,
            metric: VectorMetric::L2,
            dimension,
            label: s.label,
            property: s.property,
            no_op: existing is Some,
        })
    }
}

/// What the binding of a `DROP VECTOR INDEX` statement comes to.
pub open spec fn drop_index_outcome(
    current_graph: Option<GraphRef>,
    s: DropVectorIndexStatement,
    r: BindResult<BoundDropVectorIndexStatement>,
) -> bool {
    match current_graph {
        None => r matches Err(e) && e is CurrentGraphNotSpecified,
        Some(graph) => match graph_index_by_name(*graph, s.name@) {
            Some(meta) => r matches Ok(bound) && bound == (BoundDropVectorIndexStatement {
                name: s.name,
                if_exists: s.if_exists,
                index_key: Some(meta.key),
                metadata: Some(meta),
                no_op: false,
            }),
            None => if s.if_exists {
                r matches Ok(bound) && bound == (BoundDropVectorIndexStatement {
                    name: s.name,
                    if_exists: true,
                    index_key: None,
                    metadata: None,
                    no_op: true,
                })
            } else {
                r matches Err(BindError::VectorIndexNotFound { name }) && name == s.name
            },
        },
    }
}

// ---------------------------------------------------------------------------------------------
// Graphs
// ---------------------------------------------------------------------------------------------

pub open spec fn kind_of(kind: CreateGraphOrGraphTypeStatementKind) -> CreateKind {
    match kind {
        CreateGraphOrGraphTypeStatementKind::Create => CreateKind::Create,
        CreateGraphOrGraphTypeStatementKind::CreateIfNotExists => CreateKind::CreateIfNotExists,
        CreateGraphOrGraphTypeStatementKind::CreateOrReplace => CreateKind::CreateOrReplace,
    }
}

/// The first element, from `from` on, that cannot be bound.
pub open spec fn bad_element(elements: Seq<GraphElementType>, from: int) -> Option<int>
    decreases elements.len() - from,
{
    if from >= elements.len() {
        None
    } else if !element_ok(elements[from]) {
        Some(from)
    } else {
        bad_element(elements, from + 1)
    }
}

/// What the binding of a graph's type comes to.
pub open spec fn graph_type_outcome(of: OfGraphType, r: BindResult<BoundGraphType>) -> bool {
    match of {
        OfGraphType::Nested(elements) => match bad_element(elements@, 0) {
            None => r matches Ok(BoundGraphType::Nested(bound)) && bound@.len() == elements@.len()
                && forall|i: int|
                0 <= i < bound@.len() ==> is_element_of(#[trigger] bound@[i], elements@[i]),
            Some(i) => r matches Err(e) && is_element_error(e, elements@[i]),
        },
        OfGraphType::Ref(_) => r matches Err(e) && is_not_implemented(e, "graph type reference"@),
        OfGraphType::Like(_) => r matches Err(e) && is_not_implemented(e, "LIKE graph type"@),
        OfGraphType::Any => r matches Err(e) && is_not_implemented(e, "ANY graph type"@),
    }
}

/// The error names an object by its whole path.
pub open spec fn is_invalid_reference(e: BindError, path: Seq<String>) -> bool {
    e matches BindError::InvalidObjectReference(names) && names@ == path
}

/// What the binding of a `CREATE GRAPH` statement comes to.
pub open spec fn create_graph_outcome(
    s: CreateGraphStatement,
    source: Option<BindResult<NamedGraphRef>>,
    r: BindResult<BoundCreateGraphStatement>,
) -> bool {
    if s.path@.len() != 1 {
        r matches Err(e) && is_invalid_reference(e, s.path@)
    } else {
        match r {
            Ok(bound) => {
                &&& bound.name == s.path@[0]
                &&& bound.kind == kind_of(s.kind)
                &&& graph_type_outcome(s.graph_type, Ok(bound.graph_type))
                &&& match source {
                    None => bound.source is None,
                    Some(Ok(graph)) => bound.source == Some(graph),
                    Some(Err(_)) => false,
                }
            },
            Err(e) => {
                ||| graph_type_outcome(s.graph_type, Err(e))
                ||| type_binds(s.graph_type) && source == Some(Err::<NamedGraphRef, BindError>(e))
            },
        }
    }
}

/// Whether the type of a graph can be bound.
pub open spec fn type_binds(of: OfGraphType) -> bool {
    match of {
        OfGraphType::Nested(elements) => bad_element(elements@, 0) is None,
        _ => false,
    }
}

/// What the binding of a `DROP GRAPH` statement comes to.
pub open spec fn drop_graph_outcome(
    s: DropGraphStatement,
    r: BindResult<BoundDropGraphStatement>,
) -> bool {
    if s.path@.len() != 1 {
        r matches Err(e) && is_invalid_reference(e, s.path@)
    } else {
        r matches Ok(bound) && bound == (BoundDropGraphStatement {
            name: s.path@[0],
            if_exists: s.if_exists,
        })
    }
}

/// What the binding of a call in place of a catalog statement comes to: it must not be optional
/// and must not yield columns.
pub open spec fn call_outcome(
    call: BoundCallProcedureStatement,
    r: BindResult<BoundCatalogModifyingStatement>,
) -> bool {
    if call.optional {
        r matches Err(e) && is_not_implemented(e, "optional catalog modifying statements"@)
    } else if call.yield_schema is Some {
        r matches Err(BindError::NotCatalogProcedure(name)) && name == call.procedure.name
    } else {
        r matches Ok(BoundCatalogModifyingStatement::Call(bound)) && bound == call
    }
}

/// What the binding of a statement that changes the catalog comes to.
pub open spec fn statement_outcome(
    current_graph: Option<GraphRef>,
    statement: CatalogModifyingStatement,
    r: BindResult<BoundCatalogModifyingStatement>,
) -> bool {
    match statement {
        CatalogModifyingStatement::Call(call) => call_outcome(call, r),
        CatalogModifyingStatement::CreateSchema(_) => r matches Err(e) && is_not_implemented(
            e,
            "create schema statement"@,
        ),
        CatalogModifyingStatement::DropSchema(_) => r matches Err(e) && is_not_implemented(
            e,
            "drop schema statement"@,
        ),
        CatalogModifyingStatement::CreateGraph(s, source) => match r {
            Ok(BoundCatalogModifyingStatement::CreateGraph(bound)) => create_graph_outcome(
                s,
                source,
                Ok(bound),
            ),
            Ok(_) => false,
            Err(e) => create_graph_outcome(s, source, Err(e)),
        },
        CatalogModifyingStatement::DropGraph(s) => match r {
            Ok(BoundCatalogModifyingStatement::DropGraph(bound)) => drop_graph_outcome(
                s,
                Ok(bound),
            ),
            Ok(_) => false,
            Err(e) => drop_graph_outcome(s, Err(e)),
        },
        CatalogModifyingStatement::CreateVectorIndex(s) => match r {
            Ok(BoundCatalogModifyingStatement::CreateVectorIndex(bound)) => create_index_outcome(
                current_graph,
                s,
                Ok(bound),
            ),
            Ok(_) => false,
            Err(e) => create_index_outcome(current_graph, s, Err(e)),
        },
        CatalogModifyingStatement::DropVectorIndex(s) => match r {
            Ok(BoundCatalogModifyingStatement::DropVectorIndex(bound)) => drop_index_outcome(
                current_graph,
                s,
                Ok(bound),
            ),
            Ok(_) => false,
            Err(e) => drop_index_outcome(current_graph, s, Err(e)),
        },
        CatalogModifyingStatement::CreateGraphType(_) => r matches Err(e) && is_not_implemented(
            e,
            "create graph type statement"@,
        ),
        CatalogModifyingStatement::DropGraphType(_) => r matches Err(e) && is_not_implemented(
            e,
            "drop graph type statement"@,
        ),
    }
}

fn copy_path(path: &Vec<String>) -> (r: Vec<String>)
    ensures
        r@ == path@,
{
    let mut r: Vec<String> = Vec::new();
    let mut i: usize = 0;
    while i < path.len()
        invariant
            i <= path.len(),
            r@ == path@.take(i as int),
        decreases path.len() - i,
    {
        r.push(path[i].clone());
        i = i + 1;
        assert(r@ =~= path@.take(i as int));
    }
    assert(path@.take(i as int) =~= path@);
    r
}

impl Binder {
    /// What the binder needs of the graph that it binds against.
    pub open spec fn wf(&self) -> bool {
        self.current_graph matches Some(graph) ==> {
            &&& graph.graph_type.wf()
            &&& forall|i: int|
                0 <= i < graph.graph_type.vertex_types@.len() ==> (
                #[trigger] graph.graph_type.vertex_types@[i]).1.properties@.len() <= u32::MAX
        }
    }

    pub fn bind_create_schema_statement(&mut self, statement: &CreateSchemaStatement) -> (r:
        BindResult<BoundCreateSchemaStatement>)
        ensures
            *final(self) == *old(self),
            r matches Err(e) && is_not_implemented(e, "create schema statement"@),
    {
        Err(not_implemented("create schema statement"))
    }

    pub fn bind_drop_schema_statement(&mut self, statement: &DropSchemaStatement) -> (r: BindResult<
        BoundDropSchemaStatement,
    >)
        ensures
            *final(self) == *old(self),
            r matches Err(e) && is_not_implemented(e, "drop schema statement"@),
    {
        Err(not_implemented("drop schema statement"))
    }

    pub fn bind_create_graph_type_statement(&mut self, statement: &CreateGraphTypeStatement) -> (r:
        BindResult<BoundCreateGraphTypeStatement>)
        ensures
            *final(self) == *old(self),
            r matches Err(e) && is_not_implemented(e, "create graph type statement"@),
    {
        Err(not_implemented("create graph type statement"))
    }

    pub fn bind_drop_graph_type_statement(&mut self, statement: &DropGraphTypeStatement) -> (r:
        BindResult<BoundDropGraphTypeStatement>)
        ensures
            *final(self) == *old(self),
            r matches Err(e) && is_not_implemented(e, "drop graph type statement"@),
    {
        Err(not_implemented("drop graph type statement"))
    }

    /// Binds a `CREATE VECTOR INDEX` statement against the current graph.
    pub fn bind_create_vector_index_statement(
        &mut self,
        statement: &CreateVectorIndexStatement,
    ) -> (r: BindResult<BoundCreateVectorIndexStatement>)
        requires
            old(self).wf(),
        ensures
            *final(self) == *old(self),
            create_index_outcome(old(self).current_graph, *statement, r),
    {
        if !strings_equal(statement.binding.as_str(), statement.property_binding.as_str()) {
            return Err(
                BindError::CreateVectorIndexBindingMismatch {
                    binding: statement.binding.clone(),
                    property_binding: statement.property_binding.clone(),
                },
            );
        }
        let graph: GraphRef = match &self.current_graph {
            Some(graph) => graph.clone(),
            None => {
                return Err(BindError::CurrentGraphNotSpecified);
            },
        };
        let label_id = match graph.graph_type.get_label_id(statement.label.as_str()) {
            Some(id) => id,
            None => {
                return Err(BindError::LabelNotFound(statement.label.clone()));
            },
        };
        let vertex_type = match graph.graph_type.get_vertex_type(&LabelSet::single(label_id)) {
            Some(vertex_type) => vertex_type,
            None => {
                return Err(BindError::LabelNotFound(statement.label.clone()));
            },
        };
        proof {
            crate::catalog::graph_type::lemma_type_index(
                graph.graph_type.vertex_types@,
                seq![label_id],
                0,
            );
        }
        let position: usize = match find_property(
            &vertex_type.properties,
            statement.property.as_str(),
        ) {
            Some(position) => position,
            None => {
                return Err(
                    BindError::PropertyNotFound {
                        label: statement.label.clone(),
                        property: statement.property.clone(),
                    },
                );
            },
        };
        let dimension: usize = match &vertex_type.properties[position].ty {
            LogicalType::Vector(dimension) => *dimension,
            ty => {
                return Err(
                    BindError::PropertyNotVector {
                        label: statement.label.clone(),
                        property: statement.property.clone(),
                        ty: ty.clone(),
                    },
                );
            },
        };
        let index_key = VectorIndexKey::new(label_id, position as u32);
        let existing = match &graph.index_catalog {
            Some(catalog) => catalog.get_vector_index(index_key),
            None => None,
        };
        let named = match &graph.index_catalog {
            Some(catalog) => catalog.get_vector_index_by_name(statement.name.as_str()),
            None => None,
        };
        if let Some(meta) = &named {
            if meta.key != index_key {
                return Err(
                    BindError::VectorIndexNameAlreadyExists { name: statement.name.clone() },
                );
            }
        }
        if existing.is_some() && !statement.if_not_exists {
            return Err(
                BindError::VectorIndexAlreadyExists {
                    label: statement.label.clone(),
                    property: statement.property.clone(),
                },
            );
        }
        Ok(
            BoundCreateVectorIndexStatement {
                name: statement.name.clone(),
                if_not_exists: statement.if_not_exists,
                index_key,
                metric: VectorMetric::L2,
                dimension,
                label: statement.label.clone(),
                property: statement.property.clone(),
                no_op: existing.is_some(),
            },
        )
    }

    /// Binds a `DROP VECTOR INDEX` statement against the current graph.
    pub fn bind_drop_vector_index_statement(&mut self, statement: &DropVectorIndexStatement) -> (r:
        BindResult<BoundDropVectorIndexStatement>)
        ensures
            *final(self) == *old(self),
            drop_index_outcome(old(self).current_graph, *statement, r),
    {
        let graph: GraphRef = match &self.current_graph {
            Some(graph) => graph.clone(),
            None => {
                return Err(BindError::CurrentGraphNotSpecified);
            },
        };
        let found = match &graph.index_catalog {
            Some(catalog) => catalog.get_vector_index_by_name(statement.name.as_str()),
            None => None,
        };
        match found {
            Some(meta) => Ok(
                BoundDropVectorIndexStatement {
                    name: statement.name.clone(),
                    if_exists: statement.if_exists,
                    index_key: Some(meta.key),
                    metadata: Some(meta),
                    no_op: false,
                },
            ),
            None => if statement.if_exists {
                Ok(
                    BoundDropVectorIndexStatement {
                        name: statement.name.clone(),
                        if_exists: true,
                        index_key: None,
                        metadata: None,
                        no_op: true,
                    },
                )
            } else {
                Err(BindError::VectorIndexNotFound { name: statement.name.clone() })
            },
        }
    }

    /// Binds the type of a new graph.
    pub fn bind_of_graph_type(&mut self, of_graph_type: &OfGraphType) -> (r: BindResult<
        BoundGraphType,
    >)
        ensures
            *final(self) == *old(self),
            graph_type_outcome(*of_graph_type, r),
    {
        match of_graph_type {
            OfGraphType::Nested(elements) => {
                let mut bound: Vec<BoundGraphElementType> = Vec::new();
                let mut i: usize = 0;
                while i < elements.len()
                    invariant
                        *self == *old(self),
                        i <= elements.len(),
                        *of_graph_type == OfGraphType::Nested(*elements),
                        bad_element(elements@, 0) == bad_element(elements@, i as int),
                        bound@.len() == i,
                        forall|k: int|
                            0 <= k < i ==> is_element_of(#[trigger] bound@[k], elements@[k]),
                    decreases elements.len() - i,
                {
                    match bind_graph_element_type(&elements[i]) {
                        Ok(element) => bound.push(element),
                        Err(e) => {
                            return Err(e);
                        },
                    }
                    i = i + 1;
                }
                Ok(BoundGraphType::Nested(bound))
            },
            OfGraphType::Ref(_) => Err(not_implemented("graph type reference")),
            OfGraphType::Like(_) => Err(not_implemented("LIKE graph type")),
            OfGraphType::Any => Err(not_implemented("ANY graph type")),
        }
    }

    /// Binds a `CREATE GRAPH` statement. `source` is the outcome of binding the graph that the new
    /// one is copied from, where there is one.
    pub fn bind_create_graph_statement(
        &mut self,
        statement: &CreateGraphStatement,
        source: Option<BindResult<NamedGraphRef>>,
    ) -> (r: BindResult<BoundCreateGraphStatement>)
        ensures
            *final(self) == *old(self),
            create_graph_outcome(*statement, source, r),
    {
        if statement.path.len() != 1 {
            return Err(BindError::InvalidObjectReference(copy_path(&statement.path)));
        }
        let name = statement.path[0].clone();
        let kind = match statement.kind {
            CreateGraphOrGraphTypeStatementKind::Create => CreateKind::Create,
            CreateGraphOrGraphTypeStatementKind::CreateIfNotExists => CreateKind::CreateIfNotExists,
            CreateGraphOrGraphTypeStatementKind::CreateOrReplace => CreateKind::CreateOrReplace,
        };
        let graph_type = match self.bind_of_graph_type(&statement.graph_type) {
            Ok(graph_type) => graph_type,
            Err(e) => {
                return Err(e);
            },
        };
        let source = match source {
            Some(Ok(graph)) => Some(graph),
            Some(Err(e)) => {
                return Err(e);
            },
            None => None,
        };
        Ok(BoundCreateGraphStatement { name, kind, graph_type, source })
    }

    /// Binds a `DROP GRAPH` statement.
    pub fn bind_drop_graph_statement(&mut self, statement: &DropGraphStatement) -> (r: BindResult<
        BoundDropGraphStatement,
    >)
        ensures
            *final(self) == *old(self),
            drop_graph_outcome(*statement, r),
    {
        if statement.path.len() != 1 {
            return Err(BindError::InvalidObjectReference(copy_path(&statement.path)));
        }
        Ok(
            BoundDropGraphStatement {
                name: statement.path[0].clone(),
                if_exists: statement.if_exists,
            },
        )
    }

    /// Binds a statement that changes the catalog.
    pub fn bind_catalog_modifying_statement(&mut self, statement: CatalogModifyingStatement) -> (r:
        BindResult<BoundCatalogModifyingStatement>)
        requires
            old(self).wf(),
        ensures
            *final(self) == *old(self),
            statement_outcome(old(self).current_graph, statement, r),
    {
        match statement {
            CatalogModifyingStatement::Call(call) => {
                if call.optional {
                    return Err(not_implemented("optional catalog modifying statements"));
                }
                if call.has_schema() {
                    return Err(BindError::NotCatalogProcedure(call.name()));
                }
                Ok(BoundCatalogModifyingStatement::Call(call))
            },
            CatalogModifyingStatement::CreateSchema(s) => {
                match self.bind_create_schema_statement(&s) {
                    Ok(bound) => Ok(BoundCatalogModifyingStatement::CreateSchema(bound)),
                    Err(e) => Err(e),
                }
            },
            CatalogModifyingStatement::DropSchema(s) => {
                match self.bind_drop_schema_statement(&s) {
                    Ok(bound) => Ok(BoundCatalogModifyingStatement::DropSchema(bound)),
                    Err(e) => Err(e),
                }
            },
            CatalogModifyingStatement::CreateGraph(s, source) => {
                match self.bind_create_graph_statement(&s, source) {
                    Ok(bound) => Ok(BoundCatalogModifyingStatement::CreateGraph(bound)),
                    Err(e) => Err(e),
                }
            },
            CatalogModifyingStatement::DropGraph(s) => {
                match self.bind_drop_graph_statement(&s) {
                    Ok(bound) => Ok(BoundCatalogModifyingStatement::DropGraph(bound)),
                    Err(e) => Err(e),
                }
            },
            CatalogModifyingStatement::CreateVectorIndex(s) => {
                match self.bind_create_vector_index_statement(&s) {
                    Ok(bound) => Ok(BoundCatalogModifyingStatement::CreateVectorIndex(bound)),
                    Err(e) => Err(e),
                }
            },
            CatalogModifyingStatement::DropVectorIndex(s) => {
                match self.bind_drop_vector_index_statement(&s) {
                    Ok(bound) => Ok(BoundCatalogModifyingStatement::DropVectorIndex(bound)),
                    Err(e) => Err(e),
                }
            },
            CatalogModifyingStatement::CreateGraphType(s) => {
                match self.bind_create_graph_type_statement(&s) {
                    Ok(bound) => Ok(BoundCatalogModifyingStatement::CreateGraphType(bound)),
                    Err(e) => Err(e),
                }
            },
            CatalogModifyingStatement::DropGraphType(s) => {
                match self.bind_drop_graph_type_statement(&s) {
                    Ok(bound) => Ok(BoundCatalogModifyingStatement::DropGraphType(bound)),
                    Err(e) => Err(e),
                }
            },
        }
    }
}

} // verus!
