//! Creating and dropping graphs.

use vstd::prelude::*;
use std::sync::Arc;
use crate::catalog::graph_type::{
    model_of, property_models, GraphTypeModel, MemoryEdgeTypeCatalog, MemoryGraphTypeCatalog,
    MemoryVertexTypeCatalog, Property, PropertyModel, EdgeTypeModel, VertexTypeModel,
    VertexTypeRef,
};
use crate::catalog::label_set::LabelSet;
use crate::catalog::schema::{
    graphs_created, CreateGraphResult, DropGraphResult, GraphContainer, GraphRef,
    MemorySchemaCatalog, VectorIndexCatalogEntry,
};
use crate::common::data_type::DataField;
use crate::common::types::LabelId;
use crate::execution::error::{
    error_text, execution_error, named_error, ExecutionError, ExecutionResult,
};
use crate::planner::bound::{
    BoundEdgeType, BoundGraphElementType, BoundGraphType, BoundVertexType, CreateKind, NodeTypeRef,
};
use crate::planner::plan::catalog_modify::{CreateGraph, DropGraph};
use crate::transaction::txn::{IsolationLevel, LockStrategy, TxnOptions};

verus! {

// ---------------------------------------------------------------------------------------------
// The graph type that a list of elements stands for
// ---------------------------------------------------------------------------------------------

/// A graph type after elements were added, up to the first that cannot be.
pub struct Populated {
    pub graph_type: GraphTypeModel,
    pub error: Option<Seq<char>>,
}

/// A graph type after the vertex type at the end of an edge was looked up, and made where it was
/// not there.
pub struct Resolved {
    pub graph_type: GraphTypeModel,
    pub ty: Result<VertexTypeModel, Seq<char>>,
}

/// Fields as properties.
pub open spec fn field_models(fields: Seq<DataField>) -> Seq<PropertyModel> {
    fields.map_values(
        |f: DataField| PropertyModel { name: f.name@, ty: f.ty, nullable: f.nullable },
    )
}

/// The name of a type becomes a label.
pub open spec fn name_registered(m: GraphTypeModel, name: Option<String>) -> GraphTypeModel {
    match name {
        Some(name) => m.label_added(name@),
        None => m,
    }
}

/// The name of the type at the end of an edge becomes a label.
pub open spec fn end_registered(m: GraphTypeModel, node_ref: NodeTypeRef) -> GraphTypeModel {
    match node_ref {
        NodeTypeRef::Alias(name) => m.label_added(name@),
        _ => m,
    }
}

/// The names in an element become labels.
pub open spec fn element_registered(
    m: GraphTypeModel,
    element: BoundGraphElementType,
) -> GraphTypeModel {
    match element {
        BoundGraphElementType::Vertex(vertex) => name_registered(m, vertex.name),
        BoundGraphElementType::Edge(edge) => end_registered(
            end_registered(name_registered(m, edge.name), edge.left),
            edge.right,
        ),
    }
}

/// The names in the first `n` elements become labels.
pub open spec fn labels_registered(
    m: GraphTypeModel,
    elements: Seq<BoundGraphElementType>,
    n: int,
) -> GraphTypeModel
    decreases n,
{
    if n <= 0 {
        m
    } else {
        element_registered(labels_registered(m, elements, n - 1), elements[n - 1])
    }
}

/// The vertex type with labels, made with properties where it is not there.
pub open spec fn found_or_made(
    m: GraphTypeModel,
    labels: Seq<LabelId>,
    properties: Seq<PropertyModel>,
) -> Resolved {
    match model_of(m.vertex_types, labels) {
        Some(ty) => Resolved { graph_type: m, ty: Ok(ty) },
        None => {
            let ty = VertexTypeModel { labels, properties };
            Resolved { graph_type: m.vertex_type_added(labels, ty), ty: Ok(ty) }
        },
    }
}

/// The vertex type at the end of an edge.
pub open spec fn end_resolved(m: GraphTypeModel, node_ref: NodeTypeRef) -> Resolved {
    match node_ref {
        NodeTypeRef::Alias(name) => if m.labels.dom().contains(name@) {
            found_or_made(m, seq![m.labels[name@]], Seq::empty())
        } else {
            Resolved { graph_type: m, ty: Err("Label '"@ + name@ + "' not found"@) }
        },
        NodeTypeRef::Filler(filler) => match filler.label_set {
            Some(labels) => found_or_made(
                m,
                labels@,
                match filler.properties {
                    Some(fields) => field_models(fields@),
                    None => Seq::empty(),
                },
            ),
            None => Resolved { graph_type: m, ty: Err("Filler must have label_set"@) },
        },
        NodeTypeRef::Empty => Resolved {
            graph_type: m,
            ty: Err("Cannot resolve vertex type from empty node reference"@),
        },
    }
}

/// A graph type after a vertex type was added.
pub open spec fn vertex_added(m: GraphTypeModel, vertex: BoundVertexType) -> Populated {
    if vertex.labels@.len() == 0 {
        Populated { graph_type: m, error: Some("Vertex type must have at least one label"@) }
    } else {
        Populated {
            graph_type: m.vertex_type_added(
                vertex.labels@,
                VertexTypeModel {
                    labels: vertex.labels@,
                    properties: field_models(vertex.properties@),
                },
            ),
            error: None,
        }
    }
}

/// A graph type after an edge type was added.
pub open spec fn edge_added(m: GraphTypeModel, edge: BoundEdgeType) -> Populated {
    if edge.labels@.len() == 0 {
        Populated { graph_type: m, error: Some("Edge type must have at least one label"@) }
    } else {
        let src = end_resolved(m, edge.left);
        match src.ty {
            Err(text) => Populated { graph_type: src.graph_type, error: Some(text) },
            Ok(src_ty) => {
                let dst = end_resolved(src.graph_type, edge.right);
                match dst.ty {
                    Err(text) => Populated { graph_type: dst.graph_type, error: Some(text) },
                    Ok(dst_ty) => Populated {
                        graph_type: dst.graph_type.edge_type_added(
                            edge.labels@,
                            EdgeTypeModel {
                                labels: edge.labels@,
                                src: src_ty,
                                dst: dst_ty,
                                properties: field_models(edge.properties@),
                            },
                        ),
                        error: None,
                    },
                }
            },
        }
    }
}

/// A graph type after an element was added.
pub open spec fn element_added(m: GraphTypeModel, element: BoundGraphElementType) -> Populated {
    match element {
        BoundGraphElementType::Vertex(vertex) => vertex_added(m, *vertex),
        BoundGraphElementType::Edge(edge) => edge_added(m, *edge),
    }
}

/// A graph type after the first `n` elements were added, up to the first that cannot be.
pub open spec fn types_added(
    m: GraphTypeModel,
    elements: Seq<BoundGraphElementType>,
    n: int,
) -> Populated
    decreases n,
{
    if n <= 0 {
        Populated { graph_type: m, error: None }
    } else {
        let before = types_added(m, elements, n - 1);
        if before.error is Some {
            before
        } else {
            element_added(before.graph_type, elements[n - 1])
        }
    }
}

/// A graph type after elements were added: first all labels, then the types.
pub open spec fn populated(m: GraphTypeModel, elements: Seq<BoundGraphElementType>) -> Populated {
    let n = elements.len() as int;
    types_added(labels_registered(m, elements, n), elements, n)
}

/// An error stays what it is.
proof fn lemma_error_stays(
    m: GraphTypeModel,
    elements: Seq<BoundGraphElementType>,
    i: int,
    n: int,
)
    requires
        0 <= i <= n,
        types_added(m, elements, i).error is Some,
    ensures
        types_added(m, elements, n) == types_added(m, elements, i),
    decreases n - i,
{
    if i < n {
        lemma_error_stays(m, elements, i, n - 1);
    }
}

// ---------------------------------------------------------------------------------------------
// Building the graph type
// ---------------------------------------------------------------------------------------------

/// Fields as properties.
pub fn convert_fields_to_properties(fields: &Vec<DataField>) -> (r: Vec<Property>)
    ensures
        property_models(r@) == field_models(fields@),
{
    let mut properties: Vec<Property> = Vec::new();
    let mut i: usize = 0;
    while i < fields.len()
        invariant
            i <= fields@.len(),
            properties@.len() == i,
            forall|k: int|
                0 <= k < i ==> (#[trigger] properties@[k]).model() == field_models(fields@)[k],
        decreases fields.len() - i,
    {
        let field = &fields[i];
        properties.push(
            Property::new(field.name().to_owned(), field.ty().clone(), field.is_nullable()),
        );
        i = i + 1;
    }
    assert(property_models(properties@) =~= field_models(fields@));
    properties
}

/// The name of a type becomes a label.
fn register_type_name(graph_type: &mut MemoryGraphTypeCatalog, name_of_type: &Option<String>)
    requires
        old(graph_type).wf(),
        old(graph_type).next_label_id < u32::MAX,
    ensures
        final(graph_type).wf(),
        final(graph_type)@ == name_registered(old(graph_type)@, *name_of_type),
        final(graph_type).next_label_id <= old(graph_type).next_label_id + 1,
{
    if let Some(name) = name_of_type {
        let _ = graph_type.add_label(name.clone());
    }
}

/// The name of the type at the end of an edge becomes a label.
fn register_labels_from_node_ref(
    graph_type: &mut MemoryGraphTypeCatalog,
    node_ref: &NodeTypeRef,
)
    requires
        old(graph_type).wf(),
        old(graph_type).next_label_id < u32::MAX,
    ensures
        final(graph_type).wf(),
        final(graph_type)@ == end_registered(old(graph_type)@, *node_ref),
        final(graph_type).next_label_id <= old(graph_type).next_label_id + 1,
{
    if let NodeTypeRef::Alias(name) = node_ref {
        let _ = graph_type.add_label(name.clone());
    }
}

/// The vertex type with labels, made where it is not there.
fn get_or_create_vertex_type(
    graph_type: &mut MemoryGraphTypeCatalog,
    label_set: &LabelSet,
    properties: Vec<Property>,
) -> (r: VertexTypeRef)
    requires
        old(graph_type).wf(),
    ensures
        final(graph_type).wf(),
        final(graph_type).next_label_id == old(graph_type).next_label_id,
        found_or_made(old(graph_type)@, label_set@, property_models(properties@)) == (Resolved {
            graph_type: final(graph_type)@,
            ty: Ok(r.model()),
        }),
{
    if let Some(vertex_type) = graph_type.get_vertex_type(label_set) {
        return vertex_type;
    }
    let vertex_type = Arc::new(MemoryVertexTypeCatalog::new(label_set.clone(), properties));
    let _ = graph_type.add_vertex_type(label_set.clone(), vertex_type.clone());
    vertex_type
}

/// The vertex type with a label, made without properties where it is not there.
fn get_or_create_vertex_type_by_name(
    graph_type: &mut MemoryGraphTypeCatalog,
    label_name: &str,
) -> (r: ExecutionResult<VertexTypeRef>)
    requires
        old(graph_type).wf(),
    ensures
        final(graph_type).wf(),
        final(graph_type).next_label_id == old(graph_type).next_label_id,
        match r {
            Ok(ty) => old(graph_type)@.labels.dom().contains(label_name@) && found_or_made(
                old(graph_type)@,
                seq![old(graph_type)@.labels[label_name@]],
                Seq::empty(),
            ) == (Resolved { graph_type: final(graph_type)@, ty: Ok(ty.model()) }),
            Err(e) => !old(graph_type)@.labels.dom().contains(label_name@) && error_text(e)
                == "Label '"@ + label_name@ + "' not found"@ && final(graph_type)@ == old(
                graph_type,
            )@,
        },
{
    match graph_type.get_label_id(label_name) {
        Some(label_id) => {
            let label_set = LabelSet::single(label_id);
            let properties: Vec<Property> = Vec::new();
            assert(property_models(properties@) =~= Seq::<PropertyModel>::empty());
            Ok(get_or_create_vertex_type(graph_type, &label_set, properties))
        },
        None => Err(named_error("Label '", label_name, "' not found")),
    }
}

/// The vertex type at the end of an edge.
fn resolve_vertex_type_from_node_ref(
    graph_type: &mut MemoryGraphTypeCatalog,
    node_ref: &NodeTypeRef,
) -> (r: ExecutionResult<VertexTypeRef>)
    requires
        old(graph_type).wf(),
    ensures
        final(graph_type).wf(),
        final(graph_type).next_label_id == old(graph_type).next_label_id,
        end_resolved(old(graph_type)@, *node_ref) == (Resolved {
            graph_type: final(graph_type)@,
            ty: match r {
                Ok(ty) => Ok(ty.model()),
                Err(e) => Err(error_text(e)),
            },
        }),
{
    match node_ref {
        NodeTypeRef::Alias(name) => get_or_create_vertex_type_by_name(graph_type, name.as_str()),
        NodeTypeRef::Filler(filler) => match &filler.label_set {
            Some(label_set) => {
                let properties = match &filler.properties {
                    Some(fields) => convert_fields_to_properties(fields),
                    None => Vec::new(),
                };
                assert(filler.properties is None ==> property_models(properties@) =~= Seq::<
                    PropertyModel,
                >::empty());
                Ok(get_or_create_vertex_type(graph_type, label_set, properties))
            },
            None => Err(execution_error("Filler must have label_set")),
        },
        NodeTypeRef::Empty => Err(
            execution_error("Cannot resolve vertex type from empty node reference"),
        ),
    }
}

/// Adds a vertex type.
fn add_vertex_type_to_catalog(
    graph_type: &mut MemoryGraphTypeCatalog,
    vertex: &BoundVertexType,
) -> (r: ExecutionResult<()>)
    requires
        old(graph_type).wf(),
    ensures
        final(graph_type).wf(),
        final(graph_type).next_label_id == old(graph_type).next_label_id,
        vertex_added(old(graph_type)@, *vertex) == (Populated {
            graph_type: final(graph_type)@,
            error: match r {
                Ok(_) => None,
                Err(e) => Some(error_text(e)),
            },
        }),
{
    let label_set = vertex.labels.clone();
    if label_set.is_empty() {
        return Err(execution_error("Vertex type must have at least one label"));
    }
    let properties = convert_fields_to_properties(&vertex.properties);
    let vertex_type = Arc::new(MemoryVertexTypeCatalog::new(label_set.clone(), properties));
    let _ = graph_type.add_vertex_type(label_set, vertex_type);
    Ok(())
}

/// Adds an edge type, and the vertex types at its ends where they are not there.
fn add_edge_type_to_catalog(
    graph_type: &mut MemoryGraphTypeCatalog,
    edge: &BoundEdgeType,
) -> (r: ExecutionResult<()>)
    requires
        old(graph_type).wf(),
    ensures
        final(graph_type).wf(),
        final(graph_type).next_label_id == old(graph_type).next_label_id,
        edge_added(old(graph_type)@, *edge) == (Populated {
            graph_type: final(graph_type)@,
            error: match r {
                Ok(_) => None,
                Err(e) => Some(error_text(e)),
            },
        }),
{
    let label_set = edge.labels.clone();
    if label_set.is_empty() {
        return Err(execution_error("Edge type must have at least one label"));
    }
    let src_vertex_type = match resolve_vertex_type_from_node_ref(graph_type, &edge.left) {
        Ok(ty) => ty,
        Err(e) => {
            return Err(e);
        },
    };
    let dst_vertex_type = match resolve_vertex_type_from_node_ref(graph_type, &edge.right) {
        Ok(ty) => ty,
        Err(e) => {
            return Err(e);
        },
    };
    let properties = convert_fields_to_properties(&edge.properties);
    let edge_type = Arc::new(
        MemoryEdgeTypeCatalog::new(
            label_set.clone(),
            src_vertex_type,
            dst_vertex_type,
            properties,
        ),
    );
    let _ = graph_type.add_edge_type(label_set, edge_type);
    Ok(())
}

/// Adds elements to a graph type.
pub fn populate_graph_type(
    graph_type: &mut MemoryGraphTypeCatalog,
    elements: &Vec<BoundGraphElementType>,
) -> (r: ExecutionResult<()>)
    requires
        old(graph_type).wf(),
        old(graph_type).next_label_id + 3 * elements@.len() <= u32::MAX,
    ensures
        final(graph_type).wf(),
        populated(old(graph_type)@, elements@) == (Populated {
            graph_type: final(graph_type)@,
            error: match r {
                Ok(_) => None,
                Err(e) => Some(error_text(e)),
            },
        }),
{
    let ghost start = graph_type@;
    let ghost first = graph_type.next_label_id as int;
    let mut i: usize = 0;
    while i < elements.len()
        invariant
            i <= elements@.len(),
            start == old(graph_type)@,
            graph_type.wf(),
            first + 3 * elements@.len() <= u32::MAX,
            graph_type.next_label_id <= first + 3 * i,
            graph_type@ == labels_registered(start, elements@, i as int),
        decreases elements.len() - i,
    {
        match &elements[i] {
            BoundGraphElementType::Vertex(vertex) => {
                register_type_name(graph_type, &vertex.name);
            },
            BoundGraphElementType::Edge(edge) => {
                register_type_name(graph_type, &edge.name);
                register_labels_from_node_ref(graph_type, &edge.left);
                register_labels_from_node_ref(graph_type, &edge.right);
            },
        }
        i = i + 1;
    }
    let ghost labelled = graph_type@;
    let mut j: usize = 0;
    while j < elements.len()
        invariant
            j <= elements@.len(),
            start == old(graph_type)@,
            graph_type.wf(),
            labelled == labels_registered(start, elements@, elements@.len() as int),
            types_added(labelled, elements@, j as int) == (Populated {
                graph_type: graph_type@,
                error: None,
            }),
        decreases elements.len() - j,
    {
        let added = match &elements[j] {
            BoundGraphElementType::Vertex(vertex) => add_vertex_type_to_catalog(
                graph_type,
                vertex,
            ),
            BoundGraphElementType::Edge(edge) => add_edge_type_to_catalog(graph_type, edge),
        };
        if let Err(e) = added {
            proof {
                assert(types_added(labelled, elements@, j + 1).error is Some);
                lemma_error_stays(labelled, elements@, j + 1, elements@.len() as int);
            }
            return Err(e);
        }
        j = j + 1;
    }
    Ok(())
}

// ---------------------------------------------------------------------------------------------
// Statements
// ---------------------------------------------------------------------------------------------

/// The graph type of a plan, or why there is none.
pub open spec fn planned_type(plan: CreateGraph) -> Result<GraphTypeModel, Seq<char>> {
    match plan.graph_type {
        BoundGraphType::Nested(elements) => {
            let outcome = populated(GraphTypeModel::empty(), elements@);
            match outcome.error {
                Some(text) => Err(text),
                None => Ok(outcome.graph_type),
            }
        },
        BoundGraphType::Ref(_) => Err("Only nested graph type definitions are supported"@),
    }
}

/// The labels of a plan can be numbered.
pub open spec fn labels_fit(plan: CreateGraph) -> bool {
    match plan.graph_type {
        BoundGraphType::Nested(elements) => 1 + 3 * elements@.len() <= u32::MAX,
        BoundGraphType::Ref(_) => true,
    }
}

/// A new graph of a type, whose transactions are pessimistic.
pub open spec fn is_new_graph(graph: GraphContainer, graph_type: GraphTypeModel) -> bool {
    graph.graph_type@ == graph_type && graph.graph_type.wf() && graph.txn_options.default_lock
        == LockStrategy::Pessimistic && graph.txn_options.default_isolation
        == IsolationLevel::Snapshot && (graph.index_catalog matches Some(
        catalog,
    ) && catalog.entries@ == Seq::<VectorIndexCatalogEntry>::empty())
}

/// The graph of a plan.
pub fn build_graph_container(plan: &CreateGraph) -> (r: ExecutionResult<GraphRef>)
    requires
        labels_fit(*plan),
    ensures
        match r {
            Ok(graph) => planned_type(*plan) matches Ok(graph_type) && is_new_graph(
                *graph,
                graph_type,
            ),
            Err(e) => planned_type(*plan) == Err::<GraphTypeModel, Seq<char>>(error_text(e)),
        },
{
    match &plan.graph_type {
        BoundGraphType::Nested(elements) => {
            let mut catalog = MemoryGraphTypeCatalog::new();
            match populate_graph_type(&mut catalog, elements) {
                Ok(_) => {
                    let graph = GraphContainer::new(Arc::new(catalog), TxnOptions::default());
                    Ok(Arc::new(graph))
                },
                Err(e) => Err(e),
            }
        },
        BoundGraphType::Ref(_) => Err(
            execution_error("Only nested graph type definitions are supported"),
        ),
    }
}

/// How the catalog calls a kind of creation.
pub open spec fn catalog_kind(kind: CreateKind) -> crate::catalog::schema::CreateKind {
    match kind {
        CreateKind::Create => crate::catalog::schema::CreateKind::Create,
        CreateKind::CreateIfNotExists => crate::catalog::schema::CreateKind::CreateIfNotExists,
        CreateKind::CreateOrReplace => crate::catalog::schema::CreateKind::CreateOrReplace,
    }
}

/// What running a plan that creates a graph gives and leaves behind.
pub open spec fn graph_creation(
    plan: CreateGraph,
    before: Option<MemorySchemaCatalog>,
    r: ExecutionResult<()>,
    after: Option<MemorySchemaCatalog>,
) -> bool {
    match before {
        None => after is None && (r matches Err(e) && error_text(e) == "No current schema set"@),
        Some(old_schema) => match planned_type(plan) {
            Err(text) => after == before && (r matches Err(e) && error_text(e) == text),
            Ok(graph_type) => {
                let taken = old_schema.graph_map@.dom().contains(plan.name@);
                &&& after matches Some(new_schema)
                &&& new_schema.wf()
                &&& new_schema.same_but_graphs(&old_schema)
                &&& exists|graph: GraphRef|
                    is_new_graph(*graph, graph_type) && new_schema.graph_map@
                        == #[trigger] graphs_created(
                        old_schema.graph_map@,
                        plan.name@,
                        graph,
                        catalog_kind(plan.kind),
                    )
                &&& r is Err <==> taken && plan.kind == CreateKind::Create
                &&& r matches Err(e) ==> error_text(e) == "Graph '"@ + plan.name@
                    + "' already exists"@
            },
        },
    }
}

/// What running a plan that drops a graph gives and leaves behind.
pub open spec fn graph_removal(
    plan: DropGraph,
    before: Option<MemorySchemaCatalog>,
    r: ExecutionResult<()>,
    after: Option<MemorySchemaCatalog>,
) -> bool {
    match before {
        None => after is None && (r matches Err(e) && error_text(e) == "No current schema set"@),
        Some(old_schema) => {
            let there = old_schema.graph_map@.dom().contains(plan.name@);
            &&& after matches Some(new_schema)
            &&& new_schema.wf()
            &&& new_schema.same_but_graphs(&old_schema)
            &&& new_schema.graph_map@ == old_schema.graph_map@.remove(plan.name@)
            &&& r is Err <==> !there && !plan.if_exists
            &&& r matches Err(e) ==> error_text(e) == "Graph '"@ + plan.name@
                + "' does not exist"@
        },
    }
}

/// Creates the graph of a plan in the current schema.
pub fn create_graph_impl(
    plan: &CreateGraph,
    current_schema: &mut Option<MemorySchemaCatalog>,
) -> (r: ExecutionResult<()>)
    requires
        labels_fit(*plan),
        *old(current_schema) matches Some(schema) ==> schema.wf(),
    ensures
        graph_creation(*plan, *old(current_schema), r, *final(current_schema)),
{
    match current_schema {
        None => Err(execution_error("No current schema set")),
        Some(schema) => {
            let graph = match build_graph_container(plan) {
                Ok(graph) => graph,
                Err(e) => {
                    return Err(e);
                },
            };
            let kind = match plan.kind {
                CreateKind::Create => crate::catalog::schema::CreateKind::Create,
                CreateKind::CreateIfNotExists => {
                    crate::catalog::schema::CreateKind::CreateIfNotExists
                },
                CreateKind::CreateOrReplace => crate::catalog::schema::CreateKind::CreateOrReplace,
            };
            let result = schema.create_graph(plan.name.clone(), graph, kind);
            if plan.kind == CreateKind::Create && result == CreateGraphResult::AlreadyExists {
                Err(named_error("Graph '", plan.name.as_str(), "' already exists"))
            } else {
                Ok(())
            }
        },
    }
}

/// Drops the graph of a plan from the current schema.
pub fn drop_graph_impl(
    plan: &DropGraph,
    current_schema: &mut Option<MemorySchemaCatalog>,
) -> (r: ExecutionResult<()>)
    requires
        *old(current_schema) matches Some(schema) ==> schema.wf(),
    ensures
        graph_removal(*plan, *old(current_schema), r, *final(current_schema)),
{
    match current_schema {
        None => Err(execution_error("No current schema set")),
        Some(schema) => match schema.drop_graph(plan.name.as_str()) {
            DropGraphResult::Dropped => Ok(()),
            DropGraphResult::NotFound => if plan.if_exists {
                Ok(())
            } else {
                Err(named_error("Graph '", plan.name.as_str(), "' does not exist"))
            },
        },
    }
}

/// Creates a graph when it is run.
#[derive(Debug)]
pub struct CreateGraphBuilder {
    pub plan: Arc<CreateGraph>,
}

impl CreateGraphBuilder {
    pub fn new(plan: Arc<CreateGraph>) -> (r: Self)
        ensures
            r.plan == plan,
    {
        CreateGraphBuilder { plan }
    }

    /// Runs the plan. There are no rows: what comes out is the error, if there is one.
    pub fn run(self, current_schema: &mut Option<MemorySchemaCatalog>) -> (r: Option<
        ExecutionError,
    >)
        requires
            labels_fit(*self.plan),
            *old(current_schema) matches Some(schema) ==> schema.wf(),
        ensures
            graph_creation(
                *self.plan,
                *old(current_schema),
                match r {
                    Some(e) => Err(e),
                    None => Ok(()),
                },
                *final(current_schema),
            ),
    {
        match create_graph_impl(&self.plan, current_schema) {
            Ok(_) => None,
            Err(e) => Some(e),
        }
    }
}

/// Drops a graph when it is run.
#[derive(Debug)]
pub struct DropGraphBuilder {
    pub plan: Arc<DropGraph>,
}

impl DropGraphBuilder {
    pub fn new(plan: Arc<DropGraph>) -> (r: Self)
        ensures
            r.plan == plan,
    {
        DropGraphBuilder { plan }
    }

    /// Runs the plan. There are no rows: what comes out is the error, if there is one.
    pub fn run(self, current_schema: &mut Option<MemorySchemaCatalog>) -> (r: Option<
        ExecutionError,
    >)
        requires
            *old(current_schema) matches Some(schema) ==> schema.wf(),
        ensures
            graph_removal(
                *self.plan,
                *old(current_schema),
                match r {
                    Some(e) => Err(e),
                    None => Ok(()),
                },
                *final(current_schema),
            ),
    {
        match drop_graph_impl(&self.plan, current_schema) {
            Ok(_) => None,
            Err(e) => Some(e),
        }
    }
}

// ---------------------------------------------------------------------------------------------
// Laws
// ---------------------------------------------------------------------------------------------

/// The type at the end of an edge is named or has labels.
pub open spec fn is_complete_end(node_ref: NodeTypeRef) -> bool {
    match node_ref {
        NodeTypeRef::Alias(_) => true,
        NodeTypeRef::Filler(filler) => filler.label_set is Some,
        NodeTypeRef::Empty => false,
    }
}

/// An element has labels, and an edge has complete ends.
pub open spec fn is_complete_element(element: BoundGraphElementType) -> bool {
    match element {
        BoundGraphElementType::Vertex(vertex) => vertex.labels@.len() > 0,
        BoundGraphElementType::Edge(edge) => edge.labels@.len() > 0 && is_complete_end(edge.left)
            && is_complete_end(edge.right),
    }
}

/// The name of the type at the end of an edge is a label.
pub open spec fn end_has_label(m: GraphTypeModel, node_ref: NodeTypeRef) -> bool {
    node_ref matches NodeTypeRef::Alias(name) ==> m.labels.dom().contains(name@)
}

pub open spec fn ends_have_labels(m: GraphTypeModel, element: BoundGraphElementType) -> bool {
    element matches BoundGraphElementType::Edge(edge) ==> end_has_label(m, edge.left)
        && end_has_label(m, edge.right)
}

proof fn lemma_labels_registered(
    m: GraphTypeModel,
    elements: Seq<BoundGraphElementType>,
    n: int,
)
    requires
        0 <= n <= elements.len(),
    ensures
        forall|i: int|
            0 <= i < n ==> ends_have_labels(
                labels_registered(m, elements, n),
                #[trigger] elements[i],
            ),
    decreases n,
{
    if n > 0 {
        lemma_labels_registered(m, elements, n - 1);
        let before = labels_registered(m, elements, n - 1);
        let after = labels_registered(m, elements, n);
        assert forall|name: Seq<char>| before.labels.dom().contains(name) implies
            #[trigger] after.labels.dom().contains(name) by {}
        assert forall|i: int| 0 <= i < n implies ends_have_labels(
            after,
            #[trigger] elements[i],
        ) by {
            if i < n - 1 {
                assert(ends_have_labels(before, elements[i]));
            }
        }
    }
}

proof fn lemma_types_keep_labels(
    m: GraphTypeModel,
    elements: Seq<BoundGraphElementType>,
    n: int,
)
    ensures
        types_added(m, elements, n).graph_type.labels == m.labels,
    decreases n,
{
    if n > 0 {
        lemma_types_keep_labels(m, elements, n - 1);
    }
}

/// Elements that have labels, and whose edges have complete ends, can all be added: the name at
/// the end of an edge is always a label by the time the edge is added.
pub proof fn complete_elements_can_be_added(
    m: GraphTypeModel,
    elements: Seq<BoundGraphElementType>,
)
    requires
        forall|i: int| 0 <= i < elements.len() ==> is_complete_element(#[trigger] elements[i]),
    ensures
        populated(m, elements).error is None,
{
    let n = elements.len() as int;
    lemma_labels_registered(m, elements, n);
    lemma_complete_elements(labels_registered(m, elements, n), elements, n);
}

proof fn lemma_complete_elements(
    m: GraphTypeModel,
    elements: Seq<BoundGraphElementType>,
    n: int,
)
    requires
        0 <= n <= elements.len(),
        forall|i: int| 0 <= i < elements.len() ==> is_complete_element(#[trigger] elements[i]),
        forall|i: int| 0 <= i < elements.len() ==> ends_have_labels(m, #[trigger] elements[i]),
    ensures
        types_added(m, elements, n).error is None,
    decreases n,
{
    if n > 0 {
        lemma_complete_elements(m, elements, n - 1);
        lemma_types_keep_labels(m, elements, n - 1);
        let element = elements[n - 1];
        assert(is_complete_element(element));
        assert(ends_have_labels(m, element));
    }
}

} // verus!
