//! The sample graph: laws.

use vstd::prelude::*;
use crate::common::data_type::LogicalType;
use crate::common::text::decimal;
use crate::common::types::LabelId;
use crate::common::value::{ValueModel, F32};
use crate::engine::procedures::create_test_graph_data::{
    friend, friends, job, location, num_cities, num_companies, num_employed, num_persons,
    test_edges, test_graph_type, test_vertices,
};

verus! {

/// Half of the vertices are people.
pub open spec fn people(n: int) -> int {
    if n < 1 {
        0
    } else if n < 4 {
        1
    } else {
        n / 2
    }
}

/// A quarter of the vertices are companies, and as many are cities.
pub open spec fn quarter(n: int) -> int {
    if n < 1 {
        0
    } else if n < 4 {
        1
    } else {
        n / 4
    }
}

/// Three in five people work.
pub open spec fn workers(n: int) -> int {
    if people(n) < 2 {
        people(n)
    } else {
        people(n) * 3 / 5
    }
}

proof fn lemma_numbers(n: int)
    requires
        0 <= n <= 127,
    ensures
        num_persons(n) == people(n),
        num_companies(n) == quarter(n),
        num_cities(n) == quarter(n),
        num_employed(n) == workers(n),
        0 <= people(n) <= 63,
        0 <= quarter(n) <= 31,
        0 <= workers(n) <= people(n),
        n > 0 ==> quarter(n) > 0 && people(n) > 0,
{
}

/// There are as many vertices as asked for, up to what a half and two quarters leave over, and at
/// least one of each sort where there are any.
pub proof fn vertices_are_shared_out(quotients: Seq<F32>, n: int)
    requires
        0 <= n <= 127,
    ensures
        n == 0 ==> test_vertices(quotients, n).len() == 0,
        0 < n < 4 ==> test_vertices(quotients, n).len() == 3,
        n >= 4 ==> test_vertices(quotients, n).len() == n / 2 + 2 * (n / 4),
{
    lemma_numbers(n);
}

/// People come first. They are named by their numbers, each is a year older than the one before,
/// and their embeddings start at their numbers.
pub proof fn people_come_first(quotients: Seq<F32>, n: int, k: int, d: int)
    requires
        0 <= n <= 127,
        0 <= k < people(n),
    ensures
        ({
            let v = test_vertices(quotients, n)[k];
            &&& v.vid == k
            &&& v.label_id.raw == 1
            &&& v.properties.len() == 3
            &&& v.properties[0] == ValueModel::String(Some("person"@ + decimal(k as nat)))
            &&& v.properties[1] matches ValueModel::Int8(Some(age))
            &&& age == 20 + k
            &&& v.properties[2] matches ValueModel::Vector(Some(embedding))
            &&& embedding.len() == 104
            &&& 0 <= d < 104 ==> embedding[d] == quotients[k + d]
        }),
{
    lemma_numbers(n);
}

/// Companies come next. They are named by their numbers, and each earns a million more than the one
/// before.
pub proof fn companies_come_next(quotients: Seq<F32>, n: int, k: int)
    requires
        0 <= n <= 127,
        0 <= k < quarter(n),
    ensures
        ({
            let v = test_vertices(quotients, n)[people(n) + k];
            &&& v.vid == people(n) + k
            &&& v.label_id.raw == 2
            &&& v.properties.len() == 2
            &&& v.properties[0] == ValueModel::String(Some("company"@ + decimal(k as nat)))
            &&& v.properties[1] matches ValueModel::Int64(Some(revenue))
            &&& revenue == 1_000_000 * (k + 1)
        }),
{
    lemma_numbers(n);
}

/// Cities come last. They are named by their numbers, each is greater by a hundred thousand than
/// the one before, and their embeddings start a thousand after their numbers.
pub proof fn cities_come_last(quotients: Seq<F32>, n: int, k: int, d: int)
    requires
        0 <= n <= 127,
        0 <= k < quarter(n),
    ensures
        ({
            let v = test_vertices(quotients, n)[people(n) + quarter(n) + k];
            &&& v.vid == people(n) + quarter(n) + k
            &&& v.label_id.raw == 3
            &&& v.properties.len() == 3
            &&& v.properties[0] == ValueModel::String(Some("city"@ + decimal(k as nat)))
            &&& v.properties[1] matches ValueModel::Int32(Some(population))
            &&& population == 100_000 * (k + 1)
            &&& v.properties[2] matches ValueModel::Vector(Some(embedding))
            &&& embedding.len() == 105
            &&& 0 <= d < 105 ==> embedding[d] == quotients[1000 + k + d]
        }),
{
    lemma_numbers(n);
}

proof fn lemma_friends_at(n: int, m: int, i: int, j: int)
    requires
        0 <= n <= 127,
        0 <= i < m <= people(n),
        0 <= j < people(n),
    ensures
        friends(n, m).len() == m * people(n),
        0 <= i * people(n) + j < m * people(n),
        friends(n, m)[i * people(n) + j] == friend(n, i, j),
    decreases m,
{
    lemma_numbers(n);
    let p = people(n);
    assert(m * p == (m - 1) * p + p) by (nonlinear_arith);
    assert(0 <= i * p) by (nonlinear_arith)
        requires
            0 <= i,
            0 <= p,
    ;
    assert(i * p <= (m - 1) * p) by (nonlinear_arith)
        requires
            0 <= i <= m - 1,
            0 <= p,
    ;
    if m > 1 {
        lemma_friends_at(n, m - 1, 0, 0);
    } else {
        assert(friends(n, 0).len() == 0);
        assert(0 * p == 0);
    }
    assert(friends(n, m - 1).len() == (m - 1) * p);
    if i < m - 1 {
        lemma_friends_at(n, m - 1, i, j);
    }
}

/// Everybody knows everybody, in the order of their numbers; how far they are apart is the sum of
/// the numbers.
pub proof fn people_know_each_other(n: int, i: int, j: int)
    requires
        0 <= n <= 127,
        0 <= i < people(n),
        0 <= j < people(n),
    ensures
        0 <= i * people(n) + j < test_edges(n).len(),
        ({
            let e = test_edges(n)[i * people(n) + j];
            &&& e.eid == i * people(n) + j
            &&& e.src_id == i
            &&& e.dst_id == j
            &&& e.label_id.raw == 4
            &&& e.properties.len() == 1
            &&& e.properties[0] matches ValueModel::Int32(Some(distance))
            &&& distance == i + j
        }),
{
    lemma_numbers(n);
    let p = people(n);
    lemma_friends_at(n, p, i, j);
    assert(p * p <= 63 * 63) by (nonlinear_arith)
        requires
            0 <= p <= 63,
    ;
    assert(test_edges(n)[i * p + j] == friends(n, p)[i * p + j]);
}

/// The first people work, at one company after the other; the years repeat after five.
pub proof fn people_work_at_companies(n: int, i: int)
    requires
        0 <= n <= 127,
        0 <= i < workers(n),
    ensures
        ({
            let k = people(n) * people(n) + i;
            let e = test_edges(n)[k];
            &&& 0 <= k < test_edges(n).len()
            &&& e.eid == k
            &&& e.src_id == i
            &&& e.dst_id == people(n) + i % quarter(n)
            &&& e.label_id.raw == 5
            &&& e.properties.len() == 1
            &&& e.properties[0] matches ValueModel::Int32(Some(since))
            &&& since == 2020 + i % 5
        }),
{
    lemma_numbers(n);
    let p = people(n);
    lemma_friends_at(n, p, 0, 0);
    assert(0 <= p * p <= 63 * 63) by (nonlinear_arith)
        requires
            0 <= p <= 63,
    ;
    assert(0 <= i % quarter(n) < quarter(n)) by (nonlinear_arith)
        requires
            quarter(n) > 0,
    ;
    assert(test_edges(n)[p * p + i] == job(n, i));
}

/// Companies stand in cities, each in one of its own; the addresses are numbered.
pub proof fn companies_stand_in_cities(n: int, i: int)
    requires
        0 <= n <= 127,
        0 <= i < quarter(n),
    ensures
        ({
            let k = people(n) * people(n) + workers(n) + i;
            let e = test_edges(n)[k];
            &&& test_edges(n).len() == people(n) * people(n) + workers(n) + quarter(n)
            &&& e.eid == k
            &&& e.src_id == people(n) + i
            &&& e.dst_id == people(n) + quarter(n) + i
            &&& e.label_id.raw == 6
            &&& e.properties.len() == 1
            &&& e.properties[0] == ValueModel::String(Some("address"@ + decimal(i as nat)))
        }),
{
    lemma_numbers(n);
    let p = people(n);
    lemma_friends_at(n, p, 0, 0);
    assert(0 <= p * p <= 63 * 63) by (nonlinear_arith)
        requires
            0 <= p <= 63,
    ;
    assert(i % quarter(n) == i) by (nonlinear_arith)
        requires
            0 <= i < quarter(n),
    ;
    assert(test_edges(n)[p * p + workers(n) + i] == location(n, i));
}

/// The labels are numbered, and every label has a type; nothing may be absent. People know people,
/// people work at companies, and companies stand in cities.
pub proof fn sample_types_are_these()
    ensures
        ({
            let g = test_graph_type();
            let person = g.vertex_types[0].1;
            let company = g.vertex_types[1].1;
            let city = g.vertex_types[2].1;
            let knows = g.edge_types[0].1;
            let works = g.edge_types[1].1;
            let stands = g.edge_types[2].1;
            &&& g.next_label_id == 7
            &&& g.labels["PERSON"@].raw == 1
            &&& g.labels["COMPANY"@].raw == 2
            &&& g.labels["CITY"@].raw == 3
            &&& g.labels["FRIEND"@].raw == 4
            &&& g.labels["WORKS_AT"@].raw == 5
            &&& g.labels["LOCATED_IN"@].raw == 6
            &&& g.vertex_types.len() == 3
            &&& g.edge_types.len() == 3
            &&& forall|i: int|
                0 <= i < 3 ==> (#[trigger] g.vertex_types[i]).0 == seq![
                    LabelId { raw: (i + 1) as u32 },
                ] && g.vertex_types[i].1.labels == g.vertex_types[i].0
            &&& forall|i: int|
                0 <= i < 3 ==> (#[trigger] g.edge_types[i]).0 == seq![
                    LabelId { raw: (i + 4) as u32 },
                ] && g.edge_types[i].1.labels == g.edge_types[i].0
            &&& person.properties.len() == 3
            &&& person.properties[0].name == "name"@
            &&& person.properties[0].ty == LogicalType::String
            &&& person.properties[1].name == "age"@
            &&& person.properties[1].ty == LogicalType::Int8
            &&& person.properties[2].name == "embedding"@
            &&& person.properties[2].ty == LogicalType::Vector(104)
            &&& company.properties.len() == 2
            &&& company.properties[0].name == "name"@
            &&& company.properties[0].ty == LogicalType::String
            &&& company.properties[1].name == "revenue"@
            &&& company.properties[1].ty == LogicalType::Int64
            &&& city.properties.len() == 3
            &&& city.properties[0].name == "name"@
            &&& city.properties[0].ty == LogicalType::String
            &&& city.properties[1].name == "population"@
            &&& city.properties[1].ty == LogicalType::Int32
            &&& city.properties[2].name == "embedding105"@
            &&& city.properties[2].ty == LogicalType::Vector(105)
            &&& knows.src == person
            &&& knows.dst == person
            &&& works.src == person
            &&& works.dst == company
            &&& stands.src == company
            &&& stands.dst == city
            &&& knows.properties.len() == 1
            &&& knows.properties[0].name == "distance"@
            &&& knows.properties[0].ty == LogicalType::Int32
            &&& works.properties.len() == 1
            &&& works.properties[0].name == "since"@
            &&& works.properties[0].ty == LogicalType::Int32
            &&& stands.properties.len() == 1
            &&& stands.properties[0].name == "address"@
            &&& stands.properties[0].ty == LogicalType::String
            &&& forall|i: int|
                0 <= i < 3 ==> !(#[trigger] person.properties[i]).nullable
                    && !city.properties[i].nullable
            &&& !company.properties[0].nullable && !company.properties[1].nullable
            &&& !knows.properties[0].nullable && !works.properties[0].nullable
                && !stands.properties[0].nullable
        }),
{
    reveal_strlit("PERSON");
    reveal_strlit("COMPANY");
    reveal_strlit("CITY");
    reveal_strlit("FRIEND");
    reveal_strlit("WORKS_AT");
    reveal_strlit("LOCATED_IN");
    assert("PERSON"@[0] != "FRIEND"@[0]);
    assert("PERSON"@.len() == 6 && "COMPANY"@.len() == 7 && "CITY"@.len() == 4);
    assert("FRIEND"@.len() == 6 && "WORKS_AT"@.len() == 8 && "LOCATED_IN"@.len() == 10);
    let g = test_graph_type();
    assert forall|i: int| 0 <= i < 3 implies (#[trigger] g.vertex_types[i]).0 == seq![
        LabelId { raw: (i + 1) as u32 },
    ] && g.vertex_types[i].1.labels == g.vertex_types[i].0 by {
        assert(i == 0 || i == 1 || i == 2);
    }
    assert forall|i: int| 0 <= i < 3 implies (#[trigger] g.edge_types[i]).0 == seq![
        LabelId { raw: (i + 4) as u32 },
    ] && g.edge_types[i].1.labels == g.edge_types[i].0 by {
        assert(i == 0 || i == 1 || i == 2);
    }
}

} // verus!
