//! The neighbours of a vertex, in order.

use vstd::prelude::*;
use crossbeam_skiplist::SkipSet;
use crate::common::types::{EdgeId, LabelId, VertexId};

verus! {

/// The label of an edge, the vertex at its other end and its identifier. Neighbours are ordered
/// by these, the first that differs counts.
pub type NeighborKey = (u32, u64, u64);

/// A vertex at the other end of an edge.
#[derive(Clone, Copy, Debug, PartialEq, Eq, Structural)]
pub struct Neighbor {
    pub label_id: LabelId,
    pub neighbor_id: VertexId,
    pub eid: EdgeId,
}

impl Neighbor {
    pub fn new(label_id: LabelId, neighbor_id: VertexId, eid: EdgeId) -> (r: Self)
        ensures
            r == (Neighbor { label_id, neighbor_id, eid }),
    {
        Neighbor { label_id, neighbor_id, eid }
    }

    pub fn label_id(&self) -> (r: LabelId)
        ensures
            r == self.label_id,
    {
        self.label_id
    }

    pub fn neighbor_id(&self) -> (r: VertexId)
        ensures
            r == self.neighbor_id,
    {
        self.neighbor_id
    }

    pub fn eid(&self) -> (r: EdgeId)
        ensures
            r == self.eid,
    {
        self.eid
    }

    pub open spec fn spec_key(self) -> NeighborKey {
        (self.label_id.raw, self.neighbor_id, self.eid)
    }

    /// What the neighbour is ordered by.
    pub fn key(&self) -> (r: NeighborKey)
        ensures
            r == self.spec_key(),
    {
        (self.label_id.raw, self.neighbor_id, self.eid)
    }

    pub open spec fn of_key(key: NeighborKey) -> Neighbor {
        Neighbor { label_id: LabelId { raw: key.0 }, neighbor_id: key.1, eid: key.2 }
    }

    /// The neighbour that a key stands for.
    pub fn from_key(key: NeighborKey) -> (r: Neighbor)
        ensures
            r == Neighbor::of_key(key),
            r.spec_key() == key,
    {
        Neighbor { label_id: LabelId { raw: key.0 }, neighbor_id: key.1, eid: key.2 }
    }
}

/// The order of neighbours.
pub open spec fn key_less(a: NeighborKey, b: NeighborKey) -> bool {
    a.0 < b.0 || (a.0 == b.0 && (a.1 < b.1 || (a.1 == b.1 && a.2 < b.2)))
}

// ---------------------------------------------------------------------------------------------
// Skip lists
// ---------------------------------------------------------------------------------------------

/// `crossbeam_skiplist::SkipSet`, an ordered set. Only its contents are spoken of.
#[verifier::external_type_specification]
#[verifier::external_body]
#[verifier::reject_recursive_types(T)]
pub struct ExSkipSet<T>(crossbeam_skiplist::SkipSet<T>);

/// What a skip set of neighbours holds.
pub uninterp spec fn skip_keys(set: SkipSet<NeighborKey>) -> Set<NeighborKey>;

/// `SkipSet::new`: a set that holds nothing.
#[verifier::external_body]
fn skip_new() -> (r: SkipSet<NeighborKey>)
    ensures
        skip_keys(r) == Set::<NeighborKey>::empty(),
{
    SkipSet::new()
}

/// `SkipSet::insert`: the set then holds the key, and what it held before.
#[verifier::external_body]
fn skip_insert(set: &mut SkipSet<NeighborKey>, key: NeighborKey)
    ensures
        skip_keys(*final(set)) == skip_keys(*old(set)).insert(key),
{
    set.insert(key);
}

/// `SkipSet::remove`: the set then holds what it held before, but for the key.
#[verifier::external_body]
fn skip_remove(set: &mut SkipSet<NeighborKey>, key: NeighborKey)
    ensures
        skip_keys(*final(set)) == skip_keys(*old(set)).remove(key),
{
    set.remove(&key);
}

/// `SkipSet::is_empty`: whether the set holds nothing.
#[verifier::external_body]
fn skip_is_empty(set: &SkipSet<NeighborKey>) -> (r: bool)
    ensures
        r == (skip_keys(*set) == Set::<NeighborKey>::empty()),
{
    set.is_empty()
}

/// `SkipSet::front`: the smallest key, by the order of tuples.
#[verifier::external_body]
fn skip_front(set: &SkipSet<NeighborKey>) -> (r: Option<NeighborKey>)
    ensures
        match r {
            Some(key) => skip_keys(*set).contains(key) && forall|other: NeighborKey|
                skip_keys(*set).contains(other) ==> !#[trigger] key_less(other, key),
            None => skip_keys(*set) == Set::<NeighborKey>::empty(),
        },
{
    set.front().map(|entry| *entry.value())
}

/// `SkipSet::get`, then `Entry::next` on the entry that it gives: the smallest key that is
/// greater than one that the set holds. Of a key that the set does not hold there is no entry.
#[verifier::external_body]
fn skip_next(set: &SkipSet<NeighborKey>, key: NeighborKey) -> (r: Option<NeighborKey>)
    ensures
        match r {
            Some(next) => skip_keys(*set).contains(key) && skip_keys(*set).contains(next)
                && key_less(key, next) && forall|other: NeighborKey|
                skip_keys(*set).contains(other) && #[trigger] key_less(key, other) ==> !key_less(
                    other,
                    next,
                ),
            None => !skip_keys(*set).contains(key) || forall|other: NeighborKey|
                skip_keys(*set).contains(other) ==> !#[trigger] key_less(key, other),
        },
{
    let entry = set.get(&key)?;
    let next = entry.next()?;
    Some(*next.value())
}

// ---------------------------------------------------------------------------------------------
// Ordered lists
// ---------------------------------------------------------------------------------------------

/// The list of the keys of a set in ascending order.
pub open spec fn is_sorted_list(list: Seq<NeighborKey>, keys: Set<NeighborKey>) -> bool {
    &&& forall|i: int, j: int|
        0 <= i < j < list.len() ==> key_less(#[trigger] list[i], #[trigger] list[j])
    &&& forall|key: NeighborKey| #[trigger] list.contains(key) <==> keys.contains(key)
}

/// The keys of a set in ascending order.
pub open spec fn sorted(keys: Set<NeighborKey>) -> Seq<NeighborKey> {
    choose|list: Seq<NeighborKey>| is_sorted_list(list, keys)
}

/// The keys of a set that are greater than one of them.
pub open spec fn greater(keys: Set<NeighborKey>, than: NeighborKey) -> Set<NeighborKey> {
    keys.filter(|key: NeighborKey| key_less(than, key))
}

/// A smallest key of a set.
pub open spec fn is_least(keys: Set<NeighborKey>, key: NeighborKey) -> bool {
    keys.contains(key) && forall|other: NeighborKey|
        keys.contains(other) ==> !#[trigger] key_less(other, key)
}

proof fn lemma_least_exists(keys: Set<NeighborKey>) -> (least: NeighborKey)
    requires
        keys.finite(),
        !keys.is_empty(),
    ensures
        is_least(keys, least),
    decreases keys.len(),
{
    let a = keys.choose();
    let rest = keys.remove(a);
    if rest.is_empty() {
        assert(is_least(keys, a)) by {
            assert forall|other: NeighborKey| keys.contains(other) implies !#[trigger] key_less(
                other,
                a,
            ) by {
                if other != a {
                    assert(rest.contains(other));
                }
            }
        }
        a
    } else {
        let m = lemma_least_exists(rest);
        let least = if key_less(a, m) {
            a
        } else {
            m
        };
        assert forall|other: NeighborKey| keys.contains(other) implies !#[trigger] key_less(
            other,
            least,
        ) by {
            if other != a {
                assert(rest.contains(other));
                assert(!key_less(other, m));
            }
        }
        least
    }
}

/// Two ascending lists of the same keys are the same.
pub proof fn lemma_sorted_unique(a: Seq<NeighborKey>, b: Seq<NeighborKey>, keys: Set<NeighborKey>)
    requires
        is_sorted_list(a, keys),
        is_sorted_list(b, keys),
    ensures
        a == b,
    decreases a.len(),
{
    if a.len() == 0 {
        if b.len() > 0 {
            assert(b.contains(b[0]));
            assert(a.contains(b[0]));
        }
        assert(a =~= b);
    } else {
        assert(a.contains(a[0]));
        assert(b.contains(a[0]));
        assert(b.contains(b[0]));
        assert(a.contains(b[0]));
        let i = choose|i: int| 0 <= i < b.len() && b[i] == a[0];
        let j = choose|j: int| 0 <= j < a.len() && a[j] == b[0];
        if i > 0 && j > 0 {
            assert(key_less(b[0], b[i]));
            assert(key_less(a[0], a[j]));
        }
        assert(a[0] == b[0]);
        let rest = keys.remove(a[0]);
        lemma_rest_is_sorted(a, keys);
        lemma_rest_is_sorted(b, keys);
        lemma_sorted_unique(a.skip(1), b.skip(1), rest);
        assert(a =~= seq![a[0]] + a.skip(1));
        assert(b =~= seq![b[0]] + b.skip(1));
    }
}

proof fn lemma_rest_is_sorted(a: Seq<NeighborKey>, keys: Set<NeighborKey>)
    requires
        is_sorted_list(a, keys),
        a.len() > 0,
    ensures
        is_sorted_list(a.skip(1), keys.remove(a[0])),
{
    let rest = a.skip(1);
    assert forall|i: int, j: int| 0 <= i < j < rest.len() implies key_less(
        #[trigger] rest[i],
        #[trigger] rest[j],
    ) by {
        assert(key_less(a[i + 1], a[j + 1]));
    }
    assert forall|key: NeighborKey| #[trigger] rest.contains(key) <==> keys.remove(
        a[0],
    ).contains(key) by {
        if rest.contains(key) {
            let i = choose|i: int| 0 <= i < rest.len() && rest[i] == key;
            assert(key_less(a[0], a[i + 1]));
            assert(a.contains(a[i + 1]));
        }
        if keys.remove(a[0]).contains(key) {
            assert(a.contains(key));
            let i = choose|i: int| 0 <= i < a.len() && a[i] == key;
            assert(rest[i - 1] == key);
        }
    }
}

/// A list that starts with a smallest key and goes on with the others in order.
proof fn lemma_prepend(least: NeighborKey, rest: Seq<NeighborKey>, keys: Set<NeighborKey>)
    requires
        is_least(keys, least),
        is_sorted_list(rest, keys.remove(least)),
    ensures
        is_sorted_list(seq![least] + rest, keys),
{
    let list = seq![least] + rest;
    assert forall|i: int, j: int| 0 <= i < j < list.len() implies key_less(
        #[trigger] list[i],
        #[trigger] list[j],
    ) by {
        assert(list[j] == rest[j - 1]);
        assert(rest.contains(rest[j - 1]));
        if i > 0 {
            assert(list[i] == rest[i - 1]);
        } else {
            assert(keys.contains(rest[j - 1]));
            assert(!key_less(rest[j - 1], least));
        }
    }
    assert forall|key: NeighborKey| #[trigger] list.contains(key) <==> keys.contains(key) by {
        if keys.contains(key) {
            if key == least {
                assert(list[0] == key);
            } else {
                assert(rest.contains(key));
                let i = choose|i: int| 0 <= i < rest.len() && rest[i] == key;
                assert(list[i + 1] == key);
            }
        }
        if list.contains(key) {
            let i = choose|i: int| 0 <= i < list.len() && list[i] == key;
            if i > 0 {
                assert(rest.contains(rest[i - 1]));
            }
        }
    }
}

/// The keys of a finite set can be put in order.
pub proof fn lemma_sorted(keys: Set<NeighborKey>)
    requires
        keys.finite(),
    ensures
        is_sorted_list(sorted(keys), keys),
        sorted(keys).len() == keys.len(),
    decreases keys.len(),
{
    if keys.is_empty() {
        assert(is_sorted_list(Seq::<NeighborKey>::empty(), keys));
        lemma_sorted_unique(sorted(keys), Seq::<NeighborKey>::empty(), keys);
    } else {
        let least = lemma_least_exists(keys);
        let rest = keys.remove(least);
        lemma_sorted(rest);
        lemma_prepend(least, sorted(rest), keys);
        lemma_sorted_unique(sorted(keys), seq![least] + sorted(rest), keys);
    }
}

/// A smallest key comes first, and the greater keys follow it.
pub proof fn lemma_sorted_first(keys: Set<NeighborKey>, least: NeighborKey)
    requires
        keys.finite(),
        is_least(keys, least),
    ensures
        sorted(keys) == seq![least] + sorted(greater(keys, least)),
        greater(keys, least) == keys.remove(least),
{
    assert forall|key: NeighborKey| #[trigger] greater(keys, least).contains(key) <==> keys.remove(
        least,
    ).contains(key) by {
        if keys.contains(key) {
            assert(!key_less(key, least));
        }
    }
    assert(greater(keys, least) =~= keys.remove(least));
    lemma_sorted(keys);
    lemma_sorted(keys.remove(least));
    lemma_prepend(least, sorted(keys.remove(least)), keys);
    lemma_sorted_unique(sorted(keys), seq![least] + sorted(keys.remove(least)), keys);
}

// ---------------------------------------------------------------------------------------------
// Sets of neighbours
// ---------------------------------------------------------------------------------------------

/// An ordered set of neighbours.
pub struct NeighborSet {
    set: SkipSet<NeighborKey>,
}

impl View for NeighborSet {
    type V = Set<NeighborKey>;

    closed spec fn view(&self) -> Set<NeighborKey> {
        skip_keys(self.set)
    }
}

impl NeighborSet {
    pub open spec fn wf(&self) -> bool {
        self@.finite()
    }

    pub fn new() -> (r: Self)
        ensures
            r.wf(),
            r@ == Set::<NeighborKey>::empty(),
    {
        NeighborSet { set: skip_new() }
    }

    pub fn insert(&mut self, neighbor: Neighbor)
        requires
            old(self).wf(),
        ensures
            final(self).wf(),
            final(self)@ == old(self)@.insert(neighbor.spec_key()),
    {
        skip_insert(&mut self.set, neighbor.key());
    }

    pub fn remove(&mut self, neighbor: Neighbor)
        requires
            old(self).wf(),
        ensures
            final(self).wf(),
            final(self)@ == old(self)@.remove(neighbor.spec_key()),
    {
        skip_remove(&mut self.set, neighbor.key());
    }

    pub fn is_empty(&self) -> (r: bool)
        ensures
            r == (self@ == Set::<NeighborKey>::empty()),
    {
        skip_is_empty(&self.set)
    }

    /// The first neighbour.
    pub fn front(&self) -> (r: Option<Neighbor>)
        requires
            self.wf(),
        ensures
            match r {
                Some(n) => sorted(self@) == seq![n.spec_key()] + sorted(
                    greater(self@, n.spec_key()),
                ) && self@.contains(n.spec_key()) && greater(self@, n.spec_key())
                    == self@.remove(n.spec_key()),
                None => sorted(self@) == Seq::<NeighborKey>::empty() && self@ == Set::<
                    NeighborKey,
                >::empty(),
            },
    {
        match skip_front(&self.set) {
            Some(key) => {
                proof {
                    assert(is_least(self@, key));
                    lemma_sorted_first(self@, key);
                }
                Some(Neighbor::from_key(key))
            },
            None => {
                proof {
                    lemma_sorted(self@);
                    assert(sorted(self@) =~= Seq::<NeighborKey>::empty());
                }
                None
            },
        }
    }

    /// The neighbour after one that is in the set.
    pub fn next_after(&self, neighbor: Neighbor) -> (r: Option<Neighbor>)
        requires
            self.wf(),
            self@.contains(neighbor.spec_key()),
        ensures
            match r {
                Some(n) => sorted(greater(self@, neighbor.spec_key())) == seq![n.spec_key()]
                    + sorted(greater(self@, n.spec_key())) && self@.contains(n.spec_key())
                    && key_less(neighbor.spec_key(), n.spec_key()),
                None => sorted(greater(self@, neighbor.spec_key())) == Seq::<NeighborKey>::empty(),
            },
    {
        let ghost key = neighbor.spec_key();
        let ghost rest = greater(self@, key);
        match skip_next(&self.set, neighbor.key()) {
            Some(next) => {
                proof {
                    assert(is_least(rest, next)) by {
                        assert forall|other: NeighborKey| rest.contains(other) implies
                            !#[trigger] key_less(other, next) by {
                            assert(key_less(key, other));
                        }
                    }
                    lemma_sorted_first(rest, next);
                    assert(greater(rest, next) =~= greater(self@, next));
                }
                Some(Neighbor::from_key(next))
            },
            None => {
                proof {
                    assert forall|other: NeighborKey| !#[trigger] rest.contains(other) by {
                        if self@.contains(other) {
                            assert(!key_less(key, other));
                        }
                    }
                    assert(rest =~= Set::<NeighborKey>::empty());
                    lemma_sorted(rest);
                    assert(sorted(rest) =~= Seq::<NeighborKey>::empty());
                }
                None
            },
        }
    }

    /// Adds the neighbours of another set.
    pub fn insert_all(&mut self, other: &NeighborSet)
        requires
            old(self).wf(),
            other.wf(),
        ensures
            final(self).wf(),
            final(self)@ == old(self)@.union(other@),
    {
        let ghost before = self@;
        let mut next = other.front();
        let ghost mut left = other@;
        proof {
            match next {
                Some(n) => {
                    assert(left =~= greater(other@, n.spec_key()).insert(n.spec_key()));
                },
                None => {
                    assert(before.union(other@) =~= self@);
                },
            }
        }
        while next.is_some()
            invariant
                self.wf(),
                other.wf(),
                left.finite(),
                match next {
                    Some(n) => other@.contains(n.spec_key()) && left == greater(
                        other@,
                        n.spec_key(),
                    ).insert(n.spec_key()),
                    None => left == Set::<NeighborKey>::empty(),
                },
                self@.union(left) == before.union(other@),
            decreases left.len(),
        {
            let n = next.unwrap();
            self.insert(n);
            next = other.next_after(n);
            proof {
                let rest = greater(other@, n.spec_key());
                lemma_sorted(rest);
                let all = sorted(rest);
                assert(left.remove(n.spec_key()) =~= rest);
                assert(self@.union(rest) =~= before.union(other@));
                match next {
                    Some(m) => {
                        let tail = greater(other@, m.spec_key());
                        lemma_sorted(tail);
                        assert(all.contains(all[0]));
                        assert(rest =~= tail.insert(m.spec_key())) by {
                            assert forall|key: NeighborKey| #[trigger] rest.contains(
                                key,
                            ) implies tail.insert(m.spec_key()).contains(key) by {
                                assert(all.contains(key));
                                let i = choose|i: int| 0 <= i < all.len() && all[i] == key;
                                if i > 0 {
                                    assert(sorted(tail)[i - 1] == key);
                                    assert(sorted(tail).contains(key));
                                }
                            }
                        }
                    },
                    None => {
                        assert(rest =~= Set::<NeighborKey>::empty()) by {
                            assert forall|key: NeighborKey| !#[trigger] rest.contains(key) by {
                                if rest.contains(key) {
                                    assert(all.contains(key));
                                }
                            }
                        }
                    },
                }
                left = rest;
            }
        }
        assert(self@.union(left) =~= self@);
    }
}

} // verus!
