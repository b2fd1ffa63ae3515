//! Creating a graph with sample data: people, companies and cities.

use vstd::prelude::*;
use std::sync::Arc;
use crate::catalog::graph_type::{
    property_models, EdgeTypeModel, GraphTypeModel, MemoryEdgeTypeCatalog, MemoryGraphTypeCatalog,
    MemoryVertexTypeCatalog, Property, PropertyModel, VertexTypeModel,
};
use crate::catalog::label_set::LabelSet;
use crate::catalog::schema::{GraphContainer, GraphRef, MemorySchemaCatalog, Procedure};
use crate::common::data_type::LogicalType;
use crate::common::text::{decimal, numbered};
use crate::common::types::LabelId;
use crate::common::value::{value_models, ScalarValue, ValueModel, VectorValue, F32};
use crate::engine::procedures::create_test_graph::{is_added, is_fresh};
use crate::execution::error::{error_text, execution_error, named_error, ExecutionResult};
use crate::storage::model::{
    edge_data, vertex_data, Edge, EdgeData, GraphData, PropertyRecord, Vertex, VertexData,
};
use crate::transaction::txn::TxnOptions;

verus! {

pub const PERSON_EMBEDDING_DIM: usize = 104;

pub const CITY_EMBEDDING_DIM: usize = 105;

/// The number from which the embeddings of cities start.
pub const CITY_SEED: usize = 1000;

/// How many quotients the embeddings can need.
pub const QUOTIENTS: usize = 1136;

// ---------------------------------------------------------------------------------------------
// The graph type
// ---------------------------------------------------------------------------------------------

pub open spec fn property(name: Seq<char>, ty: LogicalType) -> PropertyModel {
    PropertyModel { name, ty, nullable: false }
}

pub open spec fn label(raw: u32) -> Seq<LabelId> {
    seq![LabelId { raw }]
}

pub open spec fn person_type() -> VertexTypeModel {
    VertexTypeModel {
        labels: label(1),
        properties: seq![
            property("name"@, LogicalType::String),
            property("age"@, LogicalType::Int8),
            property("embedding"@, LogicalType::Vector(PERSON_EMBEDDING_DIM)),
        ],
    }
}

pub open spec fn company_type() -> VertexTypeModel {
    VertexTypeModel {
        labels: label(2),
        properties: seq![
            property("name"@, LogicalType::String),
            property("revenue"@, LogicalType::Int64),
        ],
    }
}

pub open spec fn city_type() -> VertexTypeModel {
    VertexTypeModel {
        labels: label(3),
        properties: seq![
            property("name"@, LogicalType::String),
            property("population"@, LogicalType::Int32),
            property("embedding105"@, LogicalType::Vector(CITY_EMBEDDING_DIM)),
        ],
    }
}

pub open spec fn friend_type() -> EdgeTypeModel {
    EdgeTypeModel {
        labels: label(4),
        src: person_type(),
        dst: person_type(),
        properties: seq![property("distance"@, LogicalType::Int32)],
    }
}

pub open spec fn works_at_type() -> EdgeTypeModel {
    EdgeTypeModel {
        labels: label(5),
        src: person_type(),
        dst: company_type(),
        properties: seq![property("since"@, LogicalType::Int32)],
    }
}

pub open spec fn located_in_type() -> EdgeTypeModel {
    EdgeTypeModel {
        labels: label(6),
        src: company_type(),
        dst: city_type(),
        properties: seq![property("address"@, LogicalType::String)],
    }
}

/// Six labels, each with a type.
pub open spec fn test_graph_type() -> GraphTypeModel {
    GraphTypeModel {
        labels: Map::<Seq<char>, LabelId>::empty().insert("PERSON"@, LabelId { raw: 1 }).insert(
            "COMPANY"@,
            LabelId { raw: 2 },
        ).insert("CITY"@, LabelId { raw: 3 }).insert("FRIEND"@, LabelId { raw: 4 }).insert(
            "WORKS_AT"@,
            LabelId { raw: 5 },
        ).insert("LOCATED_IN"@, LabelId { raw: 6 }),
        next_label_id: 7,
        vertex_types: seq![
            (label(1), person_type()),
            (label(2), company_type()),
            (label(3), city_type()),
        ],
        edge_types: seq![
            (label(4), friend_type()),
            (label(5), works_at_type()),
            (label(6), located_in_type()),
        ],
    }
}

fn make_property(name: &str, ty: LogicalType) -> (r: Property)
    ensures
        r.model() == property(name@, ty),
{
    Property::new(name.to_owned(), ty, false)
}

fn two(a: Property, b: Property) -> (r: Vec<Property>)
    ensures
        property_models(r@) == seq![a.model(), b.model()],
{
    let mut list: Vec<Property> = Vec::new();
    list.push(a);
    list.push(b);
    assert(property_models(list@) =~= seq![a.model(), b.model()]);
    list
}

fn three(a: Property, b: Property, c: Property) -> (r: Vec<Property>)
    ensures
        property_models(r@) == seq![a.model(), b.model(), c.model()],
{
    let mut list: Vec<Property> = Vec::new();
    list.push(a);
    list.push(b);
    list.push(c);
    assert(property_models(list@) =~= seq![a.model(), b.model(), c.model()]);
    list
}

fn one(a: Property) -> (r: Vec<Property>)
    ensures
        property_models(r@) == seq![a.model()],
{
    let mut list: Vec<Property> = Vec::new();
    list.push(a);
    assert(property_models(list@) =~= seq![a.model()]);
    list
}

proof fn lemma_label_names()
    ensures
        "PERSON"@ != "COMPANY"@,
        "PERSON"@ != "CITY"@,
        "PERSON"@ != "FRIEND"@,
        "PERSON"@ != "WORKS_AT"@,
        "PERSON"@ != "LOCATED_IN"@,
        "COMPANY"@ != "CITY"@,
        "COMPANY"@ != "FRIEND"@,
        "COMPANY"@ != "WORKS_AT"@,
        "COMPANY"@ != "LOCATED_IN"@,
        "CITY"@ != "FRIEND"@,
        "CITY"@ != "WORKS_AT"@,
        "CITY"@ != "LOCATED_IN"@,
        "FRIEND"@ != "WORKS_AT"@,
        "FRIEND"@ != "LOCATED_IN"@,
        "WORKS_AT"@ != "LOCATED_IN"@,
{
    reveal_strlit("PERSON");
    reveal_strlit("COMPANY");
    reveal_strlit("CITY");
    reveal_strlit("FRIEND");
    reveal_strlit("WORKS_AT");
    reveal_strlit("LOCATED_IN");
    assert("PERSON"@[0] == 'P');
    assert("COMPANY"@.len() == 7);
    assert("CITY"@.len() == 4);
    assert("FRIEND"@[0] == 'F');
    assert("WORKS_AT"@.len() == 8);
    assert("LOCATED_IN"@.len() == 10);
}

proof fn lemma_labels_differ()
    ensures
        forall|a: u32, b: u32| a != b ==> #[trigger] label(a) != #[trigger] label(b),
{
    assert forall|a: u32, b: u32| a != b implies #[trigger] label(a) != #[trigger] label(b) by {
        assert(label(a)[0] != label(b)[0]);
    }
}

fn build_graph_type() -> (r: MemoryGraphTypeCatalog)
    ensures
        r.wf(),
        r@ == test_graph_type(),
{
    proof {
        lemma_label_names();
        lemma_labels_differ();
    }
    let mut graph_type = MemoryGraphTypeCatalog::new();
    let person_id = graph_type.add_label("PERSON".to_owned()).unwrap();
    let company_id = graph_type.add_label("COMPANY".to_owned()).unwrap();
    let city_id = graph_type.add_label("CITY".to_owned()).unwrap();
    let friend_id = graph_type.add_label("FRIEND".to_owned()).unwrap();
    let works_at_id = graph_type.add_label("WORKS_AT".to_owned()).unwrap();
    let located_in_id = graph_type.add_label("LOCATED_IN".to_owned()).unwrap();
    let person_set = LabelSet::single(person_id);
    let company_set = LabelSet::single(company_id);
    let city_set = LabelSet::single(city_id);
    let friend_set = LabelSet::single(friend_id);
    let works_at_set = LabelSet::single(works_at_id);
    let located_in_set = LabelSet::single(located_in_id);
    let person = Arc::new(
        MemoryVertexTypeCatalog::new(
            person_set.clone(),
            three(
                make_property("name", LogicalType::String),
                make_property("age", LogicalType::Int8),
                make_property("embedding", LogicalType::Vector(PERSON_EMBEDDING_DIM)),
            ),
        ),
    );
    let company = Arc::new(
        MemoryVertexTypeCatalog::new(
            company_set.clone(),
            two(
                make_property("name", LogicalType::String),
                make_property("revenue", LogicalType::Int64),
            ),
        ),
    );
    let city = Arc::new(
        MemoryVertexTypeCatalog::new(
            city_set.clone(),
            three(
                make_property("name", LogicalType::String),
                make_property("population", LogicalType::Int32),
                make_property("embedding105", LogicalType::Vector(CITY_EMBEDDING_DIM)),
            ),
        ),
    );
    let friend = Arc::new(
        MemoryEdgeTypeCatalog::new(
            friend_set.clone(),
            person.clone(),
            person.clone(),
            one(make_property("distance", LogicalType::Int32)),
        ),
    );
    let works_at = Arc::new(
        MemoryEdgeTypeCatalog::new(
            works_at_set.clone(),
            person.clone(),
            company.clone(),
            one(make_property("since", LogicalType::Int32)),
        ),
    );
    let located_in = Arc::new(
        MemoryEdgeTypeCatalog::new(
            located_in_set.clone(),
            company.clone(),
            city.clone(),
            one(make_property("address", LogicalType::String)),
        ),
    );
    proof {
        assert(person.model() == person_type());
        assert(company.model() == company_type());
        assert(city.model() == city_type());
        assert(friend.model() == friend_type());
        assert(works_at.model() == works_at_type());
        assert(located_in.model() == located_in_type());
    }
    let _ = graph_type.add_vertex_type(person_set, person);
    assert(graph_type@.vertex_types =~= seq![(label(1), person_type())]);
    let _ = graph_type.add_vertex_type(company_set, company);
    proof {
        reveal_with_fuel(crate::catalog::graph_type::model_index, 4);
    }
    assert(graph_type@.vertex_types =~= seq![(label(1), person_type()), (label(2), company_type())]);
    let _ = graph_type.add_vertex_type(city_set, city);
    assert(graph_type@.vertex_types =~= test_graph_type().vertex_types);
    let _ = graph_type.add_edge_type(friend_set, friend);
    assert(graph_type@.edge_types =~= seq![(label(4), friend_type())]);
    let _ = graph_type.add_edge_type(works_at_set, works_at);
    assert(graph_type@.edge_types =~= seq![(label(4), friend_type()), (label(5), works_at_type())]);
    let _ = graph_type.add_edge_type(located_in_set, located_in);
    assert(graph_type@.edge_types =~= test_graph_type().edge_types);
    graph_type
}

// ---------------------------------------------------------------------------------------------
// The data
// ---------------------------------------------------------------------------------------------

/// A share of the vertices: none of none, else at least one.
pub open spec fn share(n: int, part: int) -> int {
    if n == 0 {
        0
    } else if n / part > 1 {
        n / part
    } else {
        1
    }
}

pub open spec fn num_persons(n: int) -> int {
    share(n, 2)
}

pub open spec fn num_companies(n: int) -> int {
    share(n, 4)
}

pub open spec fn num_cities(n: int) -> int {
    share(n, 4)
}

/// How many people work: three in five, and at least one where there are people.
pub open spec fn num_employed(n: int) -> int {
    let p = num_persons(n);
    if p == 0 {
        0
    } else if p * 3 / 5 > 1 {
        p * 3 / 5
    } else {
        1
    }
}

/// The embedding of a seed: the quotients from the seed on.
pub open spec fn embedding(quotients: Seq<F32>, seed: int, dimension: int) -> Seq<F32> {
    Seq::new(dimension as nat, |i: int| quotients[seed + i])
}

pub open spec fn named(prefix: Seq<char>, i: int) -> ValueModel {
    ValueModel::String(Some(prefix + decimal(i as nat)))
}

pub open spec fn person(quotients: Seq<F32>, i: int) -> VertexData {
    VertexData {
        vid: i as u64,
        label_id: LabelId { raw: 1 },
        properties: seq![
            named("person"@, i),
            ValueModel::Int8(Some((20 + i) as i8)),
            ValueModel::Vector(
                Some(embedding(quotients, i, PERSON_EMBEDDING_DIM as int)),
            ),
        ],
    }
}

pub open spec fn company(n: int, i: int) -> VertexData {
    VertexData {
        vid: (num_persons(n) + i) as u64,
        label_id: LabelId { raw: 2 },
        properties: seq![
            named("company"@, i),
            ValueModel::Int64(Some((1000000 * (i + 1)) as i64)),
        ],
    }
}

pub open spec fn city(quotients: Seq<F32>, n: int, i: int) -> VertexData {
    VertexData {
        vid: (num_persons(n) + num_companies(n) + i) as u64,
        label_id: LabelId { raw: 3 },
        properties: seq![
            named("city"@, i),
            ValueModel::Int32(Some((100000 * (i + 1)) as i32)),
            ValueModel::Vector(
                Some(embedding(quotients, i + CITY_SEED, CITY_EMBEDDING_DIM as int)),
            ),
        ],
    }
}

/// The vertices: people, companies, then cities, numbered from zero.
pub open spec fn test_vertices(quotients: Seq<F32>, n: int) -> Seq<VertexData> {
    Seq::new(num_persons(n) as nat, |i: int| person(quotients, i)) + Seq::new(
        num_companies(n) as nat,
        |i: int| company(n, i),
    ) + Seq::new(num_cities(n) as nat, |i: int| city(quotients, n, i))
}

/// A person knows a person.
pub open spec fn friend(n: int, i: int, j: int) -> EdgeData {
    EdgeData {
        eid: (i * num_persons(n) + j) as u64,
        src_id: i as u64,
        dst_id: j as u64,
        label_id: LabelId { raw: 4 },
        properties: seq![ValueModel::Int32(Some((i + j) as i32))],
    }
}

/// The first `m` people that a person knows.
pub open spec fn friends_of(n: int, i: int, m: int) -> Seq<EdgeData> {
    Seq::new(m as nat, |j: int| friend(n, i, j))
}

/// The people that the first `m` people know: all.
pub open spec fn friends(n: int, m: int) -> Seq<EdgeData>
    decreases m,
{
    if m <= 0 {
        Seq::empty()
    } else {
        friends(n, m - 1) + friends_of(n, m - 1, num_persons(n))
    }
}

/// A person works at a company; the companies take turns.
pub open spec fn job(n: int, i: int) -> EdgeData {
    EdgeData {
        eid: (num_persons(n) * num_persons(n) + i) as u64,
        src_id: i as u64,
        dst_id: (num_persons(n) + i % num_companies(n)) as u64,
        label_id: LabelId { raw: 5 },
        properties: seq![ValueModel::Int32(Some((2020 + i % 5) as i32))],
    }
}

/// A company stands in a city; the cities take turns.
pub open spec fn location(n: int, i: int) -> EdgeData {
    EdgeData {
        eid: (num_persons(n) * num_persons(n) + num_employed(n) + i) as u64,
        src_id: (num_persons(n) + i) as u64,
        dst_id: (num_persons(n) + num_companies(n) + i % num_cities(n)) as u64,
        label_id: LabelId { raw: 6 },
        properties: seq![named("address"@, i)],
    }
}

/// The edges: who knows whom, who works where, and where the companies stand, numbered from zero.
pub open spec fn test_edges(n: int) -> Seq<EdgeData> {
    friends(n, num_persons(n)) + Seq::new(num_employed(n) as nat, |i: int| job(n, i)) + Seq::new(
        num_companies(n) as nat,
        |i: int| location(n, i),
    )
}

/// The embedding of a seed. The quotients are the hundredth parts of the numbers from zero on.
pub fn build_embedding(quotients: &Vec<F32>, seed: usize, dimension: usize) -> (r: VectorValue)
    requires
        seed + dimension <= quotients@.len(),
    ensures
        r.data@ == embedding(quotients@, seed as int, dimension as int),
{
    let mut data: Vec<F32> = Vec::new();
    let total: usize = quotients.len();
    let mut i: usize = 0;
    while i < dimension
        invariant
            i <= dimension,
            total == quotients@.len(),
            seed + dimension <= total,
            data@.len() == i,
            forall|k: int| 0 <= k < i ==> data@[k] == quotients@[seed + k],
        decreases dimension - i,
    {
        data.push(quotients[seed + i]);
        i = i + 1;
    }
    assert(data@ =~= embedding(quotients@, seed as int, dimension as int));
    VectorValue { data: Arc::new(data) }
}

fn named_value(prefix: &str, i: usize) -> (r: ScalarValue)
    ensures
        r.model() == named(prefix@, i as int),
{
    let text = numbered(prefix, i as u64, "");
    proof {
        reveal_strlit("");
        assert(text@ =~= prefix@ + decimal(i as nat));
    }
    ScalarValue::String(Some(text))
}

fn share_of(n: usize, part: usize) -> (r: usize)
    requires
        part > 0,
    ensures
        r == share(n as int, part as int),
        r <= n,
        n > 0 ==> r > 0,
{
    if n == 0 {
        0
    } else if n / part > 1 {
        proof {
            vstd::arithmetic::div_mod::lemma_div_is_ordered_by_denominator(
                n as int,
                1,
                part as int,
            );
        }
        n / part
    } else {
        1
    }
}

fn build_vertices(quotients: &Vec<F32>, n: usize) -> (r: Vec<Vertex>)
    requires
        n <= 127,
        quotients@.len() >= QUOTIENTS,
    ensures
        vertex_data(r@) == test_vertices(quotients@, n as int),
{
    let persons: usize = share_of(n, 2);
    let companies: usize = share_of(n, 4);
    let cities: usize = share_of(n, 4);
    let ghost q = quotients@;
    let ghost all = test_vertices(q, n as int);
    let mut vertices: Vec<Vertex> = Vec::new();
    let mut i: usize = 0;
    while i < persons
        invariant
            i <= persons <= 63,
            persons == num_persons(n as int),
            q == quotients@,
            q.len() >= QUOTIENTS,
            all == test_vertices(q, n as int),
            vertices@.len() == i,
            forall|k: int| 0 <= k < i ==> (#[trigger] vertices@[k])@ == all[k],
        decreases persons - i,
    {
        let mut values: Vec<ScalarValue> = Vec::new();
        values.push(named_value("person", i));
        values.push(ScalarValue::Int8(Some(20 + i as i8)));
        values.push(ScalarValue::Vector(Some(build_embedding(quotients, i, PERSON_EMBEDDING_DIM))));
        assert(value_models(values@) =~= person(q, i as int).properties);
        vertices.push(Vertex::new(i as u64, LabelId { raw: 1 }, PropertyRecord::new(values)));
        assert(vertices@[i as int]@ == person(q, i as int));
        assert(all[i as int] == person(q, i as int));
        i = i + 1;
    }
    let mut j: usize = 0;
    while j < companies
        invariant
            j <= companies <= 31,
            persons <= 63,
            persons == num_persons(n as int),
            companies == num_companies(n as int),
            all == test_vertices(q, n as int),
            vertices@.len() == persons + j,
            forall|k: int| 0 <= k < persons + j ==> (#[trigger] vertices@[k])@ == all[k],
        decreases companies - j,
    {
        let mut values: Vec<ScalarValue> = Vec::new();
        values.push(named_value("company", j));
        values.push(ScalarValue::Int64(Some(1000000 * (j as i64 + 1))));
        assert(value_models(values@) =~= company(n as int, j as int).properties);
        vertices.push(
            Vertex::new((persons + j) as u64, LabelId { raw: 2 }, PropertyRecord::new(values)),
        );
        assert(vertices@[persons + j]@ == company(n as int, j as int));
        assert(all[persons + j] == company(n as int, j as int));
        j = j + 1;
    }
    let mut c: usize = 0;
    while c < cities
        invariant
            c <= cities <= 31,
            persons <= 63,
            companies <= 31,
            persons == num_persons(n as int),
            companies == num_companies(n as int),
            cities == num_cities(n as int),
            q == quotients@,
            q.len() >= QUOTIENTS,
            all == test_vertices(q, n as int),
            vertices@.len() == persons + companies + c,
            forall|k: int| 0 <= k < persons + companies + c ==> (#[trigger] vertices@[k])@ == all[k],
        decreases cities - c,
    {
        let mut values: Vec<ScalarValue> = Vec::new();
        values.push(named_value("city", c));
        values.push(ScalarValue::Int32(Some(100000 * (c as i32 + 1))));
        values.push(
            ScalarValue::Vector(
                Some(build_embedding(quotients, c + CITY_SEED, CITY_EMBEDDING_DIM)),
            ),
        );
        assert(value_models(values@) =~= city(q, n as int, c as int).properties);
        vertices.push(
            Vertex::new(
                (persons + companies + c) as u64,
                LabelId { raw: 3 },
                PropertyRecord::new(values),
            ),
        );
        assert(vertices@[persons + companies + c]@ == city(q, n as int, c as int));
        assert(all[persons + companies + c] == city(q, n as int, c as int));
        c = c + 1;
    }
    assert(vertex_data(vertices@) =~= all);
    vertices
}

fn single_value(value: ScalarValue) -> (r: PropertyRecord)
    ensures
        value_models(r.properties@) == seq![value.model()],
{
    let mut values: Vec<ScalarValue> = Vec::new();
    values.push(value);
    assert(value_models(values@) =~= seq![value.model()]);
    PropertyRecord::new(values)
}

fn build_edges(n: usize) -> (r: Vec<Edge>)
    requires
        n <= 127,
    ensures
        edge_data(r@) == test_edges(n as int),
{
    let persons: usize = share_of(n, 2);
    let companies: usize = share_of(n, 4);
    let cities: usize = share_of(n, 4);
    let ghost m = n as int;
    let mut edges: Vec<Edge> = Vec::new();
    let mut counter: u64 = 0;
    let mut i: usize = 0;
    assert(edge_data(edges@) =~= friends(m, 0));
    while i < persons
        invariant
            i <= persons <= 63,
            persons == num_persons(m),
            counter == i * persons,
            edge_data(edges@) == friends(m, i as int),
        decreases persons - i,
    {
        let ghost rows = friends(m, i as int);
        let mut j: usize = 0;
        assert(rows + friends_of(m, i as int, 0) =~= rows);
        assert(i * persons <= 63 * 63) by (nonlinear_arith)
            requires
                i <= 63,
                persons <= 63,
        ;
        while j < persons
            invariant
                j <= persons <= 63,
                i < persons,
                persons == num_persons(m),
                i * persons <= 63 * 63,
                counter == i * persons + j,
                edge_data(edges@) == rows + friends_of(m, i as int, j as int),
            decreases persons - j,
        {
            let ghost before = edges@;
            let edge = Edge::new(
                counter,
                i as u64,
                j as u64,
                LabelId { raw: 4 },
                single_value(ScalarValue::Int32(Some((i + j) as i32))),
            );
            edges.push(edge);
            proof {
                assert(edge@ == friend(m, i as int, j as int));
                assert(edge_data(edges@) =~= edge_data(before).push(edge@));
                assert(friends_of(m, i as int, j + 1) =~= friends_of(m, i as int, j as int).push(
                    friend(m, i as int, j as int),
                ));
                assert(rows + friends_of(m, i as int, j + 1) =~= (rows + friends_of(
                    m,
                    i as int,
                    j as int,
                )).push(edge@));
            }
            counter = counter + 1;
            j = j + 1;
        }
        assert((i + 1) * persons == i * persons + persons) by (nonlinear_arith);
        i = i + 1;
    }
    let employed: usize = if persons == 0 {
        0
    } else if persons * 3 / 5 > 1 {
        persons * 3 / 5
    } else {
        1
    };
    let ghost first = friends(m, persons as int);
    let ghost jobs = Seq::new(num_employed(m) as nat, |i: int| job(m, i));
    let mut k: usize = 0;
    assert(first + jobs.take(0) =~= first);
    assert(persons * persons <= 63 * 63) by (nonlinear_arith)
        requires
            persons <= 63,
    ;
    while k < employed
        invariant
            k <= employed <= persons <= 63,
            companies <= 31,
            persons > 0 ==> companies > 0,
            persons == num_persons(m),
            companies == num_companies(m),
            employed == num_employed(m),
            persons * persons <= 63 * 63,
            counter == persons * persons + k,
            jobs == Seq::new(num_employed(m) as nat, |i: int| job(m, i)),
            edge_data(edges@) == first + jobs.take(k as int),
        decreases employed - k,
    {
        let ghost before = edges@;
        let edge = Edge::new(
            counter,
            k as u64,
            (persons + k % companies) as u64,
            LabelId { raw: 5 },
            single_value(ScalarValue::Int32(Some(2020 + (k % 5) as i32))),
        );
        edges.push(edge);
        proof {
            assert(edge@ == job(m, k as int));
            assert(edge_data(edges@) =~= edge_data(before).push(edge@));
            assert(jobs.take(k + 1) =~= jobs.take(k as int).push(jobs[k as int]));
            assert(first + jobs.take(k + 1) =~= (first + jobs.take(k as int)).push(edge@));
        }
        counter = counter + 1;
        k = k + 1;
    }
    assert(jobs.take(employed as int) =~= jobs);
    let ghost second = first + jobs;
    let ghost locations = Seq::new(num_companies(m) as nat, |i: int| location(m, i));
    let mut l: usize = 0;
    assert(second + locations.take(0) =~= second);
    while l < companies
        invariant
            l <= companies <= 31,
            persons <= 63,
            employed <= 63,
            companies > 0 ==> cities > 0,
            cities <= 31,
            persons == num_persons(m),
            companies == num_companies(m),
            cities == num_cities(m),
            employed == num_employed(m),
            persons * persons <= 63 * 63,
            counter == persons * persons + employed + l,
            locations == Seq::new(num_companies(m) as nat, |i: int| location(m, i)),
            edge_data(edges@) == second + locations.take(l as int),
        decreases companies - l,
    {
        let ghost before = edges@;
        let edge = Edge::new(
            counter,
            (persons + l) as u64,
            (persons + companies + l % cities) as u64,
            LabelId { raw: 6 },
            single_value(named_value("address", l)),
        );
        edges.push(edge);
        proof {
            assert(edge@ == location(m, l as int));
            assert(edge_data(edges@) =~= edge_data(before).push(edge@));
            assert(locations.take(l + 1) =~= locations.take(l as int).push(locations[l as int]));
            assert(second + locations.take(l + 1) =~= (second + locations.take(l as int)).push(
                edge@,
            ));
        }
        counter = counter + 1;
        l = l + 1;
    }
    assert(locations.take(companies as int) =~= locations);
    edges
}

/// The procedure as the catalog knows it: it takes a text and a small number.
pub fn build_procedure() -> (r: Procedure)
    ensures
        r.parameters@ == seq![LogicalType::String, LogicalType::Int8],
        r.schema is None,
{
    let mut parameters: Vec<LogicalType> = Vec::new();
    parameters.push(LogicalType::String);
    parameters.push(LogicalType::Int8);
    assert(parameters@ =~= seq![LogicalType::String, LogicalType::Int8]);
    Procedure { parameters, schema: None }
}

/// Creates a graph with sample data in the current schema; the arguments are its name and the
/// number that its size goes by. Gives the data that the graph is to hold.
pub fn create_test_graph_data(
    args: &Vec<ScalarValue>,
    current_schema: &mut Option<MemorySchemaCatalog>,
    txn_options: TxnOptions,
    quotients: &Vec<F32>,
) -> (r: ExecutionResult<GraphData>)
    requires
        args@.len() >= 2,
        args@[0] is String,
        args@[1] is Int8,
        quotients@.len() >= QUOTIENTS,
        *old(current_schema) matches Some(schema) ==> schema.wf(),
    ensures
        match (args@[0]->String_0, args@[1]->Int8_0, *old(current_schema)) {
            (None, _, _) => *final(current_schema) == *old(current_schema) && (r matches Err(e)
                && error_text(e) == "graph name cannot be null"@),
            (Some(_), None, _) => *final(current_schema) == *old(current_schema) && (r matches Err(
                e,
            ) && error_text(e) == "num_vertices cannot be null"@),
            (Some(name), Some(n), schema) => if n < 0 {
                *final(current_schema) == *old(current_schema) && (r matches Err(e) && error_text(e)
                    == "num_vertices must be >= 0"@)
            } else {
                match schema {
                    None => *final(current_schema) is None && (r matches Err(e) && error_text(e)
                        == "current schema not set"@),
                    Some(before) => if before.graph_map@.dom().contains(name@) {
                        &&& *final(current_schema) matches Some(after)
                        &&& after.wf()
                        &&& after.same_but_graphs(&before)
                        &&& after.graph_map@ == before.graph_map@
                        &&& r matches Err(e)
                        &&& error_text(e) == "graph `"@ + name@ + "` already exists"@
                    } else {
                        &&& r matches Ok(data)
                        &&& vertex_data(data.vertices@) == test_vertices(quotients@, n as int)
                        &&& edge_data(data.edges@) == test_edges(n as int)
                        &&& *final(current_schema) matches Some(after)
                        &&& exists|graph: GraphRef|
                            is_fresh(*graph, test_graph_type(), txn_options) && #[trigger] is_added(
                                before,
                                after,
                                name@,
                                graph,
                            )
                    },
                }
            },
        },
{
    let graph_name = match &args[0] {
        ScalarValue::String(Some(name)) => name,
        _ => {
            return Err(execution_error("graph name cannot be null"));
        },
    };
    let num_vertices: i8 = match &args[1] {
        ScalarValue::Int8(Some(n)) => *n,
        _ => {
            return Err(execution_error("num_vertices cannot be null"));
        },
    };
    if num_vertices < 0 {
        return Err(execution_error("num_vertices must be >= 0"));
    }
    let n: usize = num_vertices as usize;
    match current_schema {
        None => Err(execution_error("current schema not set")),
        Some(schema) => {
            let graph: GraphRef = Arc::new(
                GraphContainer::new(Arc::new(build_graph_type()), txn_options),
            );
            let ghost before = *schema;
            if !schema.add_graph(graph_name.clone(), graph) {
                return Err(named_error("graph `", graph_name.as_str(), "` already exists"));
            }
            assert(is_added(before, *schema, graph_name@, graph));
            Ok(GraphData { vertices: build_vertices(quotients, n), edges: build_edges(n) })
        },
    }
}

// ---------------------------------------------------------------------------------------------
// Laws
// ---------------------------------------------------------------------------------------------

/// The vertices are numbered in order.
pub proof fn vertices_are_numbered(quotients: Seq<F32>, n: int, k: int)
    requires
        0 <= n <= 127,
        0 <= k < test_vertices(quotients, n).len(),
    ensures
        test_vertices(quotients, n)[k].vid == k,
{
}

/// Where the edge between two people stands.
spec fn friend_at(n: int, i: int, j: int) -> int {
    i * num_persons(n) + j
}

proof fn lemma_friends(n: int, m: int)
    requires
        0 <= n <= 127,
        0 <= m <= num_persons(n),
    ensures
        friends(n, m).len() == m * num_persons(n),
        forall|i: int, j: int|
            0 <= i < m && 0 <= j < num_persons(n) ==> 0 <= #[trigger] friend_at(n, i, j) < friends(
                n,
                m,
            ).len() && friends(n, m)[friend_at(n, i, j)] == friend(n, i, j),
        forall|k: int|
            0 <= k < friends(n, m).len() ==> (#[trigger] friends(n, m)[k]).eid == k && friends(
                n,
                m,
            )[k].src_id < num_persons(n) && friends(n, m)[k].dst_id < num_persons(n),
    decreases m,
{
    let p = num_persons(n);
    if m > 0 {
        lemma_friends(n, m - 1);
        let before = friends(n, m - 1);
        let row = friends_of(n, m - 1, p);
        let after = friends(n, m);
        assert(m * p == (m - 1) * p + p) by (nonlinear_arith);
        assert((m - 1) * p <= 127 * 127) by (nonlinear_arith)
            requires
                0 <= m - 1 <= 127,
                0 <= p <= 127,
        ;
        assert forall|i: int, j: int| 0 <= i < m && 0 <= j < p implies 0 <= #[trigger] friend_at(
            n,
            i,
            j,
        ) < after.len() && after[friend_at(n, i, j)] == friend(n, i, j) by {
            if i < m - 1 {
                assert(friend(n, i, j) == before[friend_at(n, i, j)]);
            } else {
                assert(row[j] == friend(n, i, j));
            }
        }
        assert forall|k: int| 0 <= k < after.len() implies (#[trigger] after[k]).eid == k
            && after[k].src_id < p && after[k].dst_id < p by {
            if k < before.len() {
                assert(after[k] == before[k]);
            } else {
                let j = k - before.len();
                assert(after[k] == row[j]);
                assert(row[j] == friend(n, m - 1, j));
            }
        }
    } else {
        assert(0 * p == 0) by (nonlinear_arith);
    }
}

/// Everybody knows everybody.
pub proof fn every_person_knows_every_person(n: int, i: int, j: int)
    requires
        0 <= n <= 127,
        0 <= i < num_persons(n),
        0 <= j < num_persons(n),
    ensures
        test_edges(n).contains(friend(n, i, j)),
{
    lemma_friends(n, num_persons(n));
    let k = friend_at(n, i, j);
    assert(friends(n, num_persons(n))[k] == friend(n, i, j));
    assert(test_edges(n)[k] == friend(n, i, j));
}

/// The edges are numbered in order, and their ends are vertices of the graph.
pub proof fn edges_join_vertices(quotients: Seq<F32>, n: int, k: int)
    requires
        0 <= n <= 127,
        0 <= k < test_edges(n).len(),
    ensures
        test_edges(n)[k].eid == k,
        test_edges(n)[k].src_id < test_vertices(quotients, n).len(),
        test_edges(n)[k].dst_id < test_vertices(quotients, n).len(),
{
    let p = num_persons(n);
    lemma_friends(n, p);
    assert(p * p <= 127 * 127) by (nonlinear_arith)
        requires
            0 <= p <= 127,
    ;
    let first = friends(n, p);
    if k < first.len() {
        assert(test_edges(n)[k] == first[k]);
    } else if k < first.len() + num_employed(n) {
        let i = k - first.len();
        assert(test_edges(n)[k] == job(n, i));
        assert(0 <= i % num_companies(n) < num_companies(n)) by (nonlinear_arith)
            requires
                num_companies(n) > 0,
        ;
    } else {
        let i = k - first.len() - num_employed(n);
        assert(test_edges(n)[k] == location(n, i));
        assert(0 <= i % num_cities(n) < num_cities(n)) by (nonlinear_arith)
            requires
                num_cities(n) > 0,
        ;
    }
}

} // verus!
