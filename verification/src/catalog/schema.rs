//! A schema: named graphs, graph types and procedures.

use vstd::prelude::*;
use std::sync::Arc;
use crate::catalog::graph_type::MemoryGraphTypeCatalog;
use crate::common::data_type::{DataSchema, LogicalType};
use crate::common::name_map::NameMap;
use crate::common::text::strings_equal;
use crate::common::types::{VectorIndexKey, VectorMetric};
use crate::transaction::txn::TxnOptions;

verus! {

/// A vector index as the catalog knows it.
#[derive(Debug)]
pub struct VectorIndexCatalogEntry {
    pub name: String,
    pub key: VectorIndexKey,
    pub metric: VectorMetric,
    pub dimension: usize,
}

impl Clone for VectorIndexCatalogEntry {
    fn clone(&self) -> (r: Self)
        ensures
            r == *self,
    {
        VectorIndexCatalogEntry {
            name: self.name.clone(),
            key: self.key,
            metric: self.metric,
            dimension: self.dimension,
        }
    }
}

/// The vector indexes of a graph.
#[derive(Debug)]
pub struct VectorIndexCatalog {
    pub entries: Vec<VectorIndexCatalogEntry>,
}

/// The first index on a key, from `from` on.
pub open spec fn index_by_key(
    entries: Seq<VectorIndexCatalogEntry>,
    key: VectorIndexKey,
    from: int,
) -> Option<VectorIndexCatalogEntry>
    decreases entries.len() - from,
{
    if from >= entries.len() {
        None
    } else if entries[from].key == key {
        Some(entries[from])
    } else {
        index_by_key(entries, key, from + 1)
    }
}

/// The first index with a name, from `from` on.
pub open spec fn index_by_name(
    entries: Seq<VectorIndexCatalogEntry>,
    name: Seq<char>,
    from: int,
) -> Option<VectorIndexCatalogEntry>
    decreases entries.len() - from,
{
    if from >= entries.len() {
        None
    } else if entries[from].name@ == name {
        Some(entries[from])
    } else {
        index_by_name(entries, name, from + 1)
    }
}

impl VectorIndexCatalog {
    /// The index on a key.
    pub fn get_vector_index(&self, key: VectorIndexKey) -> (r: Option<VectorIndexCatalogEntry>)
        ensures
            r == index_by_key(self.entries@, key, 0),
    {
        let mut i: usize = 0;
        while i < self.entries.len()
            invariant
                i <= self.entries.len(),
                index_by_key(self.entries@, key, 0) == index_by_key(self.entries@, key, i as int),
            decreases self.entries.len() - i,
        {
            if self.entries[i].key == key {
                return Some(self.entries[i].clone());
            }
            i = i + 1;
        }
        None
    }

    /// The index with a name.
    pub fn get_vector_index_by_name(&self, name: &str) -> (r: Option<VectorIndexCatalogEntry>)
        ensures
            r == index_by_name(self.entries@, name@, 0),
    {
        let mut i: usize = 0;
        while i < self.entries.len()
            invariant
                i <= self.entries.len(),
                index_by_name(self.entries@, name@, 0) == index_by_name(
                    self.entries@,
                    name@,
                    i as int,
                ),
            decreases self.entries.len() - i,
        {
            if strings_equal(self.entries[i].name.as_str(), name) {
                return Some(self.entries[i].clone());
            }
            i = i + 1;
        }
        None
    }
}

/// A graph: its type, its indexes and how its transactions run. The data of the graph is kept by
/// the storage.
#[derive(Debug)]
pub struct GraphContainer {
    pub graph_type: Arc<MemoryGraphTypeCatalog>,
    pub index_catalog: Option<Arc<VectorIndexCatalog>>,
    pub txn_options: TxnOptions,
}

impl GraphContainer {
    /// A graph of a type, without indexes.
    pub fn new(graph_type: Arc<MemoryGraphTypeCatalog>, txn_options: TxnOptions) -> (r: Self)
        ensures
            r.graph_type == graph_type,
            r.txn_options == txn_options,
            r.index_catalog == Some(Arc::new(VectorIndexCatalog { entries: r.index_entries() })),
            r.index_entries()@ == Seq::<VectorIndexCatalogEntry>::empty(),
    {
        GraphContainer {
            graph_type,
            index_catalog: Some(Arc::new(VectorIndexCatalog { entries: Vec::new() })),
            txn_options,
        }
    }

    /// The list of indexes.
    pub open spec fn index_entries(&self) -> Vec<VectorIndexCatalogEntry> {
        (self.index_catalog->0).entries
    }
}

/// A graph shared by those that refer to it.
pub type GraphRef = Arc<GraphContainer>;

/// A procedure as the catalog knows it.
#[derive(Debug)]
pub struct Procedure {
    pub parameters: Vec<LogicalType>,
    /// The columns of the result, where there is one.
    pub schema: Option<Arc<DataSchema>>,
}

/// A procedure shared by those that refer to it.
pub type ProcedureRef = Arc<Procedure>;

/// The directory that a schema stands in.
#[derive(Debug)]
pub struct Directory {
    pub path: String,
}

/// A directory shared by those that refer to it.
pub type DirectoryRef = Arc<Directory>;

/// What the creation of a graph came to.
#[derive(Clone, Copy, Debug, PartialEq, Eq, Structural)]
pub enum CreateGraphResult {
    Created,
    AlreadyExists,
    Replaced,
}

/// What to do where a graph of the name exists.
#[derive(Clone, Copy, Debug, PartialEq, Eq, Structural)]
pub enum CreateKind {
    Create,
    CreateIfNotExists,
    CreateOrReplace,
}

/// What the removal of a graph came to.
#[derive(Clone, Copy, Debug, PartialEq, Eq, Structural)]
pub enum DropGraphResult {
    Dropped,
    NotFound,
}

/// A schema held in memory.
#[derive(Debug)]
pub struct MemorySchemaCatalog {
    pub parent: Option<DirectoryRef>,
    pub graph_map: NameMap<GraphRef>,
    pub graph_type_map: NameMap<Arc<MemoryGraphTypeCatalog>>,
    pub procedure_map: NameMap<ProcedureRef>,
}

/// A name gets a value, unless it has one.
pub open spec fn added<V>(map: Map<Seq<char>, V>, name: Seq<char>, value: V) -> Map<Seq<char>, V> {
    if map.dom().contains(name) {
        map
    } else {
        map.insert(name, value)
    }
}

/// What a create operation comes to, by whether the name is taken.
pub open spec fn create_outcome(kind: CreateKind, taken: bool) -> CreateGraphResult {
    if !taken {
        CreateGraphResult::Created
    } else if kind == CreateKind::CreateOrReplace {
        CreateGraphResult::Replaced
    } else {
        CreateGraphResult::AlreadyExists
    }
}

/// The graphs after a create operation.
pub open spec fn graphs_created(
    graphs: Map<Seq<char>, GraphRef>,
    name: Seq<char>,
    graph: GraphRef,
    kind: CreateKind,
) -> Map<Seq<char>, GraphRef> {
    if create_outcome(kind, graphs.dom().contains(name)) == CreateGraphResult::AlreadyExists {
        graphs
    } else {
        graphs.insert(name, graph)
    }
}

impl MemorySchemaCatalog {
    pub open spec fn wf(&self) -> bool {
        &&& self.graph_map.wf()
        &&& self.graph_type_map.wf()
        &&& self.procedure_map.wf()
    }

    /// Everything but the graphs is the same.
    pub open spec fn same_but_graphs(&self, other: &MemorySchemaCatalog) -> bool {
        &&& self.parent == other.parent
        &&& self.graph_type_map == other.graph_type_map
        &&& self.procedure_map == other.procedure_map
    }

    pub fn new(parent: Option<DirectoryRef>) -> (r: Self)
        ensures
            r.wf(),
            r.parent == parent,
            r.graph_map@ == Map::<Seq<char>, GraphRef>::empty(),
            r.graph_type_map@ == Map::<Seq<char>, Arc<MemoryGraphTypeCatalog>>::empty(),
            r.procedure_map@ == Map::<Seq<char>, ProcedureRef>::empty(),
    {
        MemorySchemaCatalog {
            parent,
            graph_map: NameMap::new(),
            graph_type_map: NameMap::new(),
            procedure_map: NameMap::new(),
        }
    }

    /// Adds a graph, unless its name is taken; says whether it did.
    pub fn add_graph(&mut self, name: String, graph: GraphRef) -> (r: bool)
        requires
            old(self).wf(),
        ensures
            final(self).wf(),
            final(self).same_but_graphs(old(self)),
            r == !old(self).graph_map@.dom().contains(name@),
            final(self).graph_map@ == added(old(self).graph_map@, name@, graph),
    {
        if self.graph_map.contains(name.as_str()) {
            false
        } else {
            self.graph_map.insert(name, graph);
            true
        }
    }

    /// Removes a graph.
    pub fn drop_graph(&mut self, name: &str) -> (r: DropGraphResult)
        requires
            old(self).wf(),
        ensures
            final(self).wf(),
            final(self).same_but_graphs(old(self)),
            r == (if old(self).graph_map@.dom().contains(name@) {
                DropGraphResult::Dropped
            } else {
                DropGraphResult::NotFound
            }),
            final(self).graph_map@ == old(self).graph_map@.remove(name@),
    {
        if self.graph_map.remove(name) {
            DropGraphResult::Dropped
        } else {
            DropGraphResult::NotFound
        }
    }

    /// Removes a graph; says whether it was there.
    pub fn remove_graph(&mut self, name: &str) -> (r: bool)
        requires
            old(self).wf(),
        ensures
            final(self).wf(),
            final(self).same_but_graphs(old(self)),
            r == old(self).graph_map@.dom().contains(name@),
            final(self).graph_map@ == old(self).graph_map@.remove(name@),
    {
        self.drop_graph(name) == DropGraphResult::Dropped
    }

    /// Adds a graph type, unless its name is taken; says whether it did.
    pub fn add_graph_type(&mut self, name: String, graph_type: Arc<MemoryGraphTypeCatalog>) -> (r:
        bool)
        requires
            old(self).wf(),
        ensures
            final(self).wf(),
            final(self).parent == old(self).parent,
            final(self).graph_map == old(self).graph_map,
            final(self).procedure_map == old(self).procedure_map,
            r == !old(self).graph_type_map@.dom().contains(name@),
            final(self).graph_type_map@ == added(
                old(self).graph_type_map@,
                name@,
                graph_type,
            ),
    {
        if self.graph_type_map.contains(name.as_str()) {
            false
        } else {
            self.graph_type_map.insert(name, graph_type);
            true
        }
    }

    /// Removes a graph type; says whether it was there.
    pub fn remove_graph_type(&mut self, name: &str) -> (r: bool)
        requires
            old(self).wf(),
        ensures
            final(self).wf(),
            final(self).parent == old(self).parent,
            final(self).graph_map == old(self).graph_map,
            final(self).procedure_map == old(self).procedure_map,
            r == old(self).graph_type_map@.dom().contains(name@),
            final(self).graph_type_map@ == old(self).graph_type_map@.remove(name@),
    {
        self.graph_type_map.remove(name)
    }

    /// Creates a graph, with the given behaviour where its name is taken.
    pub fn create_graph(&mut self, name: String, graph: GraphRef, kind: CreateKind) -> (r:
        CreateGraphResult)
        requires
            old(self).wf(),
        ensures
            final(self).wf(),
            final(self).same_but_graphs(old(self)),
            r == create_outcome(kind, old(self).graph_map@.dom().contains(name@)),
            final(self).graph_map@ == graphs_created(old(self).graph_map@, name@, graph, kind),
    {
        if self.graph_map.contains(name.as_str()) {
            match kind {
                CreateKind::Create => CreateGraphResult::AlreadyExists,
                CreateKind::CreateIfNotExists => CreateGraphResult::AlreadyExists,
                CreateKind::CreateOrReplace => {
                    self.graph_map.insert(name, graph);
                    CreateGraphResult::Replaced
                },
            }
        } else {
            self.graph_map.insert(name, graph);
            CreateGraphResult::Created
        }
    }

    /// Creates a graph or replaces the one of its name. Returns whether one was replaced, and
    /// whether the operation succeeded.
    pub fn create_or_replace_graph(&mut self, name: String, graph: GraphRef) -> (r: (bool, bool))
        requires
            old(self).wf(),
        ensures
            final(self).wf(),
            final(self).same_but_graphs(old(self)),
            r == (old(self).graph_map@.dom().contains(name@), true),
            final(self).graph_map@ == old(self).graph_map@.insert(name@, graph),
    {
        match self.create_graph(name, graph, CreateKind::CreateOrReplace) {
            CreateGraphResult::Replaced => (true, true),
            _ => (false, true),
        }
    }

    /// Adds a procedure, unless its name is taken; says whether it did.
    pub fn add_procedure(&mut self, name: String, procedure: ProcedureRef) -> (r: bool)
        requires
            old(self).wf(),
        ensures
            final(self).wf(),
            final(self).parent == old(self).parent,
            final(self).graph_map == old(self).graph_map,
            final(self).graph_type_map == old(self).graph_type_map,
            r == !old(self).procedure_map@.dom().contains(name@),
            final(self).procedure_map@ == added(old(self).procedure_map@, name@, procedure),
    {
        if self.procedure_map.contains(name.as_str()) {
            false
        } else {
            self.procedure_map.insert(name, procedure);
            true
        }
    }

    /// Removes a procedure; says whether it was there.
    pub fn remove_procedure(&mut self, name: &str) -> (r: bool)
        requires
            old(self).wf(),
        ensures
            final(self).wf(),
            final(self).parent == old(self).parent,
            final(self).graph_map == old(self).graph_map,
            final(self).graph_type_map == old(self).graph_type_map,
            r == old(self).procedure_map@.dom().contains(name@),
            final(self).procedure_map@ == old(self).procedure_map@.remove(name@),
    {
        self.procedure_map.remove(name)
    }

    /// The directory that the schema stands in.
    pub fn parent(&self) -> (r: Option<DirectoryRef>)
        ensures
            r == self.parent,
    {
        match &self.parent {
            Some(parent) => Some(parent.clone()),
            None => None,
        }
    }

    /// The names of the graphs, each once.
    pub fn graph_names(&self) -> (r: Vec<String>)
        requires
            self.wf(),
        ensures
            lists_names(r@, self.graph_map@.dom()),
    {
        self.graph_map.names()
    }

    /// The graph with a name.
    pub fn get_graph(&self, name: &str) -> (r: Option<GraphRef>)
        requires
            self.wf(),
        ensures
            r == self.graph_map@.get(name@),
    {
        match self.graph_map.get(name) {
            Some(graph) => Some(graph.clone()),
            None => None,
        }
    }

    /// The names of the graph types, each once.
    pub fn graph_type_names(&self) -> (r: Vec<String>)
        requires
            self.wf(),
        ensures
            lists_names(r@, self.graph_type_map@.dom()),
    {
        self.graph_type_map.names()
    }

    /// The graph type with a name.
    pub fn get_graph_type(&self, name: &str) -> (r: Option<Arc<MemoryGraphTypeCatalog>>)
        requires
            self.wf(),
        ensures
            r == self.graph_type_map@.get(name@),
    {
        match self.graph_type_map.get(name) {
            Some(graph_type) => Some(graph_type.clone()),
            None => None,
        }
    }

    /// The names of the procedures, each once.
    pub fn procedure_names(&self) -> (r: Vec<String>)
        requires
            self.wf(),
        ensures
            lists_names(r@, self.procedure_map@.dom()),
    {
        self.procedure_map.names()
    }

    /// The procedure with a name.
    pub fn get_procedure(&self, name: &str) -> (r: Option<ProcedureRef>)
        requires
            self.wf(),
        ensures
            r == self.procedure_map@.get(name@),
    {
        match self.procedure_map.get(name) {
            Some(procedure) => Some(procedure.clone()),
            None => None,
        }
    }
}

/// The list holds every name of a set, each once.
pub open spec fn lists_names(list: Seq<String>, names: Set<Seq<char>>) -> bool {
    &&& forall|i: int, j: int|
        0 <= i < j < list.len() ==> (#[trigger] list[i])@ != (#[trigger] list[j])@
    &&& forall|i: int| 0 <= i < list.len() ==> names.contains((#[trigger] list[i])@)
    &&& forall|name: Seq<char>| #[trigger]
        names.contains(name) ==> exists|i: int|
            0 <= i < list.len() && (#[trigger] list[i])@ == name
}

// ---------------------------------------------------------------------------------------------
// Laws
// ---------------------------------------------------------------------------------------------

/// A graph that was created or replaced is the one under its name; every other name keeps its own.
pub proof fn created_graph_is_found(
    graphs: Map<Seq<char>, GraphRef>,
    name: Seq<char>,
    graph: GraphRef,
    kind: CreateKind,
    other: Seq<char>,
)
    ensures
        create_outcome(kind, graphs.dom().contains(name)) != CreateGraphResult::AlreadyExists
            ==> graphs_created(graphs, name, graph, kind).get(name) == Some(graph),
        create_outcome(kind, graphs.dom().contains(name)) == CreateGraphResult::AlreadyExists
            ==> graphs_created(graphs, name, graph, kind) == graphs,
        other != name ==> graphs_created(graphs, name, graph, kind).get(other) == graphs.get(other),
        graphs_created(graphs, name, graph, kind).dom().contains(name),
{
}

/// Dropping a graph that was just created leads back to the graphs before.
pub proof fn drop_undoes_creation(
    graphs: Map<Seq<char>, GraphRef>,
    name: Seq<char>,
    graph: GraphRef,
    kind: CreateKind,
)
    requires
        create_outcome(kind, graphs.dom().contains(name)) == CreateGraphResult::Created,
    ensures
        graphs_created(graphs, name, graph, kind).remove(name) == graphs,
{
    assert(graphs_created(graphs, name, graph, kind).remove(name) =~= graphs);
}

} // verus!
