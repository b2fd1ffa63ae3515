//! The edges that a transaction sees.

use vstd::prelude::*;
use std::sync::Arc;
use crate::common::types::EdgeId;
use crate::storage::error::StorageResult;
use crate::storage::model::PropertyRecord;
use crate::storage::tp::transaction::{
    entry_index, lemma_write_index, write_index, Edge, EdgeEntry, MemTransaction, WriteKind,
};
use crate::transaction::txn::LockStrategy;

verus! {

// ---------------------------------------------------------------------------------------------
// Candidates
// ---------------------------------------------------------------------------------------------

impl MemTransaction {
    /// An edge of the graph as an optimistic transaction has written it.
    pub open spec fn is_own(&self, eid: EdgeId) -> bool {
        self.lock_strategy == LockStrategy::Optimistic && (self.write_to(eid) matches Some(write)
            && !(write is Other))
    }

    /// The edge at a position of the graph as the transaction sees it, if it does.
    pub open spec fn candidate(&self, i: int) -> Option<Edge> {
        let entry = self.edges@[i];
        if self.is_own(entry.eid) {
            match self.write_to(entry.eid)->0.written() {
                Some(edge) => if edge.is_tombstone {
                    None
                } else {
                    Some(edge)
                },
                None => None,
            }
        } else {
            entry.visible
        }
    }

    /// The edges that the first `n` writes insert and that the graph does not have yet.
    pub open spec fn pending(&self, n: int) -> Seq<Edge>
        decreases n,
    {
        if n <= 0 {
            Seq::empty()
        } else {
            let before = self.pending(n - 1);
            match self.edge_writes@[n - 1].1 {
                WriteKind::InsertEdge(edge) => if entry_index(
                    self.edges@,
                    self.edge_writes@[n - 1].0,
                    0,
                ) is None {
                    before.push(edge)
                } else {
                    before
                },
                _ => before,
            }
        }
    }

    /// All edges that an optimistic transaction is about to insert.
    pub open spec fn all_pending(&self) -> Seq<Edge> {
        if self.lock_strategy == LockStrategy::Optimistic {
            self.pending(self.edge_writes@.len() as int)
        } else {
            Seq::empty()
        }
    }

    /// Whether the graph has an edge.
    fn has_edge(&self, eid: EdgeId) -> (r: bool)
        ensures
            r == entry_index(self.edges@, eid, 0) is Some,
    {
        let mut i: usize = 0;
        while i < self.edges.len()
            invariant
                i <= self.edges@.len(),
                entry_index(self.edges@, eid, 0) == entry_index(self.edges@, eid, i as int),
            decreases self.edges.len() - i,
        {
            if self.edges[i].eid == eid {
                return true;
            }
            i = i + 1;
        }
        false
    }
}

// ---------------------------------------------------------------------------------------------
// The iterator
// ---------------------------------------------------------------------------------------------

/// Goes through the edges of the graph in the order in which the transaction lists them, then
/// through those that it is about to insert. It gives those that the transaction sees and that no
/// filter refuses.
pub struct EdgeIterator<'a, F: Fn(&Edge) -> bool> {
    pub txn: &'a MemTransaction,
    pub index: usize,
    pub filters: Vec<F>,
    pub current_edge: Option<Edge>,
    pub pending_inserts: Vec<Edge>,
    pub pending_index: usize,
    /// The edges of the graph that were given out, in order.
    pub edge_reads: Vec<EdgeId>,
}

/// Every filter can be asked about every edge.
pub open spec fn filters_ready<F: Fn(&Edge) -> bool>(filters: Seq<F>) -> bool {
    forall|i: int, e: Edge| 0 <= i < filters.len() ==> #[trigger] call_requires(filters[i], (&e,))
}

/// No filter refuses an edge.
pub open spec fn all_accept<F: Fn(&Edge) -> bool>(filters: Seq<F>, e: Edge) -> bool {
    forall|i: int| 0 <= i < filters.len() ==> call_ensures(#[trigger] filters[i], (&e,), true)
}

/// A filter refuses an edge.
pub open spec fn one_refuses<F: Fn(&Edge) -> bool>(filters: Seq<F>, e: Edge) -> bool {
    exists|i: int| 0 <= i < filters.len() && call_ensures(#[trigger] filters[i], (&e,), false)
}

impl<'a, F: Fn(&Edge) -> bool> EdgeIterator<'a, F> {
    pub open spec fn wf(&self) -> bool {
        &&& self.index <= self.txn.edges@.len()
        &&& self.pending_index <= self.pending_inserts@.len()
        &&& self.pending_inserts@ == self.txn.all_pending()
        &&& filters_ready(self.filters@)
    }

    /// The number of positions that have been gone through.
    pub open spec fn position(&self) -> int {
        self.index + self.pending_index
    }

    /// The number of positions.
    pub open spec fn length(&self) -> int {
        (self.txn.edges@.len() + self.pending_inserts@.len()) as int
    }

    /// The edge at a position: first those of the graph, then those about to be inserted.
    pub open spec fn at(&self, p: int) -> Option<Edge> {
        if p < self.txn.edges@.len() {
            self.txn.candidate(p)
        } else {
            Some(self.pending_inserts@[p - self.txn.edges@.len()])
        }
    }

    /// The edge at a position is given out.
    pub open spec fn passes(&self, p: int) -> bool {
        self.at(p) matches Some(e) && all_accept(self.filters@, e)
    }

    /// The position is passed over.
    pub open spec fn fails(&self, p: int) -> bool {
        self.at(p) matches Some(e) ==> one_refuses(self.filters@, e)
    }

    /// The edges of the graph are gone through before those about to be inserted.
    pub open spec fn in_order(&self) -> bool {
        self.pending_index > 0 ==> self.index == self.txn.edges@.len()
    }

    /// Only the position, the edge given out and the list of reads may have changed.
    pub open spec fn same_source(&self, other: &Self) -> bool {
        self.txn == other.txn && self.filters == other.filters && self.pending_inserts
            == other.pending_inserts
    }

    /// The reads after the edge at a position was given out: one of the graph is noted, unless
    /// the transaction has written it.
    pub open spec fn reads_after(&self, p: int) -> Seq<EdgeId> {
        if p < self.txn.edges@.len() && !self.txn.is_own(self.txn.edges@[p].eid) {
            self.edge_reads@.push(self.txn.edges@[p].eid)
        } else {
            self.edge_reads@
        }
    }

    /// The reads that are noted where the edges at some positions are given out, in order.
    pub open spec fn reads_of(&self, given: Seq<int>) -> Seq<EdgeId>
        decreases given.len(),
    {
        if given.len() == 0 {
            Seq::empty()
        } else {
            let before = self.reads_of(given.drop_last());
            let p = given.last();
            if p < self.txn.edges@.len() && !self.txn.is_own(self.txn.edges@[p].eid) {
                before.push(self.txn.edges@[p].eid)
            } else {
                before
            }
        }
    }

    /// From `self` on and before `end`, the edges at some positions are given out, in order, and
    /// the others are passed over.
    pub open spec fn gives(self, given: Seq<int>, end: int) -> bool {
        &&& forall|k: int|
            0 <= k < given.len() ==> self.position() <= #[trigger] given[k] < end && self.passes(
                given[k],
            )
        &&& forall|j: int, k: int|
            0 <= j < k < given.len() ==> #[trigger] given[j] < #[trigger] given[k]
        &&& forall|q: int|
            self.position() <= q < end ==> given.contains(q) || #[trigger] self.fails(q)
    }

    /// From `self` to `after`, the edges at some positions were given out, and their reads noted.
    pub open spec fn goes_to(self, after: Self, given: Seq<int>) -> bool {
        &&& self.gives(given, after.position())
        &&& after.edge_reads@ == self.edge_reads@ + self.reads_of(given)
    }

    /// From `self` on, the position is the first whose edge is given out; `after` stands behind
    /// it.
    pub open spec fn stops_at(self, after: Self, p: int) -> bool {
        &&& self.position() <= p < self.length()
        &&& self.passes(p)
        &&& forall|q: int| self.position() <= q < p ==> #[trigger] self.fails(q)
        &&& after.position() == p + 1
        &&& after.current_edge == self.at(p)
        &&& after.edge_reads@ == self.reads_after(p)
    }

    /// Whether no filter refuses an edge.
    fn accepts(&self, e: &Edge) -> (r: bool)
        requires
            filters_ready(self.filters@),
        ensures
            r ==> all_accept(self.filters@, *e),
            !r ==> one_refuses(self.filters@, *e),
    {
        let mut i: usize = 0;
        while i < self.filters.len()
            invariant
                i <= self.filters@.len(),
                filters_ready(self.filters@),
                forall|k: int|
                    0 <= k < i ==> call_ensures(#[trigger] self.filters@[k], (e,), true),
            decreases self.filters.len() - i,
        {
            let f = &self.filters[i];
            let ok = f(e);
            if !ok {
                assert(call_ensures(self.filters@[i as int], (e,), false));
                return false;
            }
            i = i + 1;
        }
        true
    }

    /// The edge at a position of the graph as the transaction sees it, and whether the
    /// transaction has written it.
    fn look_at(&self, i: usize) -> (r: (Option<Edge>, bool))
        requires
            i < self.txn.edges@.len(),
        ensures
            r.0 == self.txn.candidate(i as int),
            r.1 == self.txn.is_own(self.txn.edges@[i as int].eid),
    {
        let entry = &self.txn.edges[i];
        if self.txn.lock_strategy == LockStrategy::Optimistic {
            if let Some(write) = self.txn.lookup_edge_write(entry.eid) {
                match write {
                    WriteKind::InsertEdge(edge) => {
                        return (
                            if edge.is_tombstone {
                                None
                            } else {
                                Some(edge.clone())
                            },
                            true,
                        );
                    },
                    WriteKind::UpdateEdge { after, .. } => {
                        return (
                            if after.is_tombstone {
                                None
                            } else {
                                Some(after.clone())
                            },
                            true,
                        );
                    },
                    WriteKind::DeleteEdge { .. } => {
                        return (None, true);
                    },
                    WriteKind::Other => {},
                }
            }
        }
        (
            match &entry.visible {
                Some(edge) => Some(edge.clone()),
                None => None,
            },
            false,
        )
    }

    /// The next edge that the transaction sees and no filter refuses.
    pub fn next(&mut self) -> (r: Option<StorageResult<Edge>>)
        requires
            old(self).wf(),
            old(self).in_order(),
        ensures
            final(self).wf(),
            final(self).in_order(),
            final(self).same_source(old(self)),
            match r {
                Some(item) => item is Ok && exists|p: int| #[trigger]
                    old(self).stops_at(*final(self), p) && Some(item->Ok_0) == old(self).at(p),
                None => {
                    &&& forall|q: int|
                        old(self).position() <= q < old(self).length() ==> #[trigger] old(
                            self,
                        ).fails(q)
                    &&& final(self).position() == final(self).length()
                    &&& final(self).current_edge is None
                    &&& final(self).edge_reads == old(self).edge_reads
                },
            },
    {
        let ghost start = *self;
        while self.index < self.txn.edges.len()
            invariant
                start == *old(self),
                start.wf(),
                self.wf(),
                self.in_order(),
                self.same_source(&start),
                self.edge_reads == start.edge_reads,
                self.pending_index == start.pending_index,
                start.position() <= self.position() <= start.length(),
                forall|q: int| start.position() <= q < self.position() ==> #[trigger] start.fails(q),
            decreases self.txn.edges@.len() - self.index,
        {
            let i: usize = self.index;
            let eid: EdgeId = self.txn.edges[i].eid;
            let (found, own) = self.look_at(i);
            assert(self.pending_index == 0);
            self.index = i + 1;
            assert(start.at(i as int) == found);
            if let Some(edge) = found {
                if self.accepts(&edge) {
                    if !own {
                        self.edge_reads.push(eid);
                    }
                    self.current_edge = Some(edge.clone());
                    assert(start.passes(i as int));
                    assert(start.stops_at(*self, i as int));
                    return Some(Ok(edge));
                }
            }
            assert(start.fails(i as int));
        }
        while self.pending_index < self.pending_inserts.len()
            invariant
                start == *old(self),
                start.wf(),
                self.wf(),
                self.index == self.txn.edges@.len(),
                self.same_source(&start),
                self.edge_reads == start.edge_reads,
                start.position() <= self.position() <= start.length(),
                forall|q: int| start.position() <= q < self.position() ==> #[trigger] start.fails(q),
            decreases self.pending_inserts@.len() - self.pending_index,
        {
            let ghost p = self.position();
            let edge = self.pending_inserts[self.pending_index].clone();
            self.pending_index = self.pending_index + 1;
            assert(start.at(p) == Some(edge));
            if self.accepts(&edge) {
                self.current_edge = Some(edge.clone());
                assert(start.passes(p));
                assert(start.stops_at(*self, p));
                return Some(Ok(edge));
            }
            assert(start.fails(p));
        }
        self.current_edge = None;
        None
    }

    /// Adds a filter.
    pub fn filter(self, predicate: F) -> (r: Self)
        requires
            self.wf(),
            forall|e: Edge| #[trigger] call_requires(predicate, (&e,)),
        ensures
            r.wf(),
            r.filters@ == self.filters@.push(predicate),
            r.txn == self.txn,
            r.index == self.index,
            r.pending_inserts == self.pending_inserts,
            r.pending_index == self.pending_index,
            r.current_edge == self.current_edge,
            r.edge_reads == self.edge_reads,
    {
        let mut filters = self.filters;
        filters.push(predicate);
        EdgeIterator {
            txn: self.txn,
            index: self.index,
            filters,
            current_edge: self.current_edge,
            pending_inserts: self.pending_inserts,
            pending_index: self.pending_index,
            edge_reads: self.edge_reads,
        }
    }

    /// The edge at a position was the last to be given out, after those at other positions;
    /// `after` stands behind it.
    pub open spec fn lands_on(self, after: Self, p: int, given: Seq<int>) -> bool {
        &&& self.position() <= p < self.length()
        &&& self.passes(p)
        &&& given.len() > 0 && given.last() == p
        &&& self.goes_to(after, given)
        &&& after.position() == p + 1
        &&& after.current_edge == self.at(p)
    }

    /// Before the position, no edge with this identifier is given out.
    pub open spec fn none_matches(self, id: EdgeId, p: int) -> bool {
        forall|q: int|
            self.position() <= q < p ==> #[trigger] self.fails(q) || (self.passes(q)
                && self.at(q)->0.eid != id)
    }

    /// Before the position, only edges with smaller identifiers are given out.
    pub open spec fn all_smaller(self, id: EdgeId, p: int) -> bool {
        forall|q: int|
            self.position() <= q < p ==> #[trigger] self.fails(q) || (self.passes(q)
                && self.at(q)->0.eid < id)
    }

    /// From `self` on, the position is the first whose edge is given out and has a greater
    /// identifier; `after` stands behind it. A position at the end says that there is none.
    pub open spec fn passes_by(self, after: Self, id: EdgeId, p: int, given: Seq<int>) -> bool {
        &&& self.position() <= p <= self.length()
        &&& self.all_smaller(id, p)
        &&& if p < self.length() {
            self.lands_on(after, p, given) && self.at(p)->0.eid > id
        } else {
            &&& self.goes_to(after, given)
            &&& after.position() == after.length()
            &&& after.current_edge is None
        }
    }

    /// Goes on to the edge with an identifier, and says whether there is one. Where there is none,
    /// it goes on to the first edge with a greater identifier, or to the end. The edges that were
    /// given out on the way to where it stands are noted as read, and no others.
    pub fn seek(&mut self, id: EdgeId) -> (r: StorageResult<bool>)
        requires
            old(self).wf(),
            old(self).in_order(),
        ensures
            final(self).wf(),
            final(self).in_order(),
            final(self).same_source(old(self)),
            match r {
                Ok(true) => exists|p: int, given: Seq<int>| #[trigger]
                    old(self).lands_on(*final(self), p, given) && old(self).at(p)->0.eid == id
                        && old(self).none_matches(id, p),
                Ok(false) => {
                    &&& old(self).none_matches(id, old(self).length())
                    &&& exists|p: int, given: Seq<int>| #[trigger]
                        old(self).passes_by(*final(self), id, p, given)
                },
                Err(_) => false,
            },
    {
        let ghost start = *self;
        let ghost mut greater_state: Self = *self;
        let ghost mut greater_at: int = 0;
        let ghost mut greater_given: Seq<int> = Seq::empty();
        let ghost mut given: Seq<int> = Seq::empty();
        let mut kept: Option<(usize, usize, Option<Edge>, usize)> = None;
        assert(start.reads_of(given) =~= Seq::empty());
        assert(start.edge_reads@ + Seq::<EdgeId>::empty() =~= start.edge_reads@);
        loop
            invariant
                start == *old(self),
                start.wf(),
                self.wf(),
                self.in_order(),
                self.same_source(&start),
                start.goes_to(*self, given),
                start.position() <= self.position() <= start.length(),
                start.none_matches(id, self.position()),
                kept is None ==> start.all_smaller(id, self.position()),
                kept matches Some(state) ==> {
                    &&& greater_state.wf()
                    &&& greater_state.in_order()
                    &&& greater_state.same_source(&start)
                    &&& state.0 == greater_state.index
                    &&& state.1 == greater_state.pending_index
                    &&& state.2 == greater_state.current_edge
                    &&& state.3 <= self.edge_reads@.len()
                    &&& greater_state.edge_reads@ == self.edge_reads@.take(state.3 as int)
                    &&& greater_at < start.length()
                    &&& start.passes_by(greater_state, id, greater_at, greater_given)
                },
            decreases start.length() - self.position(),
        {
            let ghost here = *self;
            match self.next() {
                Some(Ok(edge)) => {
                    let ghost p = choose|p: int| #[trigger]
                        here.stops_at(*self, p) && Some(edge) == here.at(p);
                    proof {
                        assert forall|q: int| start.position() <= q < p implies #[trigger]
                            start.fails(q) || (start.passes(q) && start.at(q)->0.eid != id) by {
                            if q >= here.position() {
                                assert(here.fails(q));
                            }
                        }
                        if kept is None {
                            assert forall|q: int| start.position() <= q < p implies #[trigger]
                                start.fails(q) || (start.passes(q) && start.at(q)->0.eid < id) by {
                                if q >= here.position() {
                                    assert(here.fails(q));
                                }
                            }
                        }
                        assert(start.passes(p)) by {
                            assert(here.passes(p));
                        }
                        lemma_gives_one_more(start, here, *self, given, p);
                        given = given.push(p);
                        assert(start.lands_on(*self, p, given));
                        if kept is Some {
                            let reads = (kept->0).3 as int;
                            assert(self.edge_reads@.take(reads) =~= here.edge_reads@.take(reads));
                        }
                    }
                    if edge.eid == id {
                        return Ok(true);
                    }
                    if edge.eid > id && kept.is_none() {
                        let reads: usize = self.edge_reads.len();
                        kept = Some((self.index, self.pending_index, Some(edge.clone()), reads));
                        proof {
                            greater_state = *self;
                            greater_at = p;
                            greater_given = given;
                            assert(self.edge_reads@.take(reads as int) =~= self.edge_reads@);
                            assert(start.passes_by(
                                greater_state,
                                id,
                                greater_at,
                                greater_given,
                            ));
                        }
                    }
                },
                Some(Err(_)) => {
                    return Ok(false);
                },
                None => {
                    proof {
                        assert forall|q: int| start.position() <= q < start.length() implies
                            #[trigger] start.fails(q) || (start.passes(q) && start.at(q)->0.eid
                            != id) by {
                            if q >= here.position() {
                                assert(here.fails(q));
                            }
                        }
                    }
                    match kept {
                        Some((index, pending_index, current, reads)) => {
                            self.index = index;
                            self.pending_index = pending_index;
                            self.current_edge = current;
                            self.edge_reads.truncate(reads);
                            assert(self.edge_reads@ =~= greater_state.edge_reads@);
                            assert(start.passes_by(*self, id, greater_at, greater_given));
                        },
                        None => {
                            proof {
                                assert forall|q: int|
                                    start.position() <= q < start.length() implies
                                    #[trigger] start.fails(q) || (start.passes(q)
                                    && start.at(q)->0.eid < id) by {
                                    if q >= here.position() {
                                        assert(here.fails(q));
                                    }
                                }
                                assert(start.gives(given, start.length())) by {
                                    assert forall|q: int|
                                        start.position() <= q < start.length() implies
                                        given.contains(q) || #[trigger] start.fails(q) by {
                                        if q >= here.position() {
                                            assert(here.fails(q));
                                        }
                                    }
                                }
                                assert(start.passes_by(*self, id, start.length(), given));
                            }
                        },
                    }
                    return Ok(false);
                },
            }
        }
    }

    /// The edge that was given out last.
    pub fn edge(&self) -> (r: Option<&Edge>)
        ensures
            self.current_edge == (match r {
                Some(e) => Some(*e),
                None => None,
            }),
    {
        match &self.current_edge {
            Some(e) => Some(e),
            None => None,
        }
    }

    /// The properties of the edge that was given out last; nothing where there is none.
    pub fn properties(&self) -> (r: Vec<Arc<PropertyRecord>>)
        ensures
            r@ == (match self.current_edge {
                Some(e) => seq![e.properties],
                None => Seq::empty(),
            }),
    {
        let mut chunk: Vec<Arc<PropertyRecord>> = Vec::new();
        if let Some(e) = &self.current_edge {
            chunk.push(e.properties.clone());
            assert(chunk@ =~= seq![e.properties]);
        }
        chunk
    }
}

impl MemTransaction {
    /// Goes through the edges.
    pub fn iter_edges<'a, F: Fn(&Edge) -> bool>(&'a self) -> (r: EdgeIterator<'a, F>)
        ensures
            r.wf(),
            r.in_order(),
            r.txn == self,
            r.position() == 0,
            r.filters@.len() == 0,
            r.current_edge is None,
            r.edge_reads@.len() == 0,
            r.left() == walked(*self, 0),
    {
        let mut pending_inserts: Vec<Edge> = Vec::new();
        if self.lock_strategy == LockStrategy::Optimistic {
            let mut n: usize = 0;
            while n < self.edge_writes.len()
                invariant
                    n <= self.edge_writes@.len(),
                    pending_inserts@ == self.pending(n as int),
                decreases self.edge_writes.len() - n,
            {
                if let WriteKind::InsertEdge(edge) = &self.edge_writes[n].1 {
                    if !self.has_edge(self.edge_writes[n].0) {
                        pending_inserts.push(edge.clone());
                    }
                }
                n = n + 1;
            }
        }
        assert(pending_inserts@.skip(0) =~= pending_inserts@);
        EdgeIterator {
            txn: self,
            index: 0,
            filters: Vec::new(),
            current_edge: None,
            pending_inserts,
            pending_index: 0,
            edge_reads: Vec::new(),
        }
    }
}

/// One more step of a walk gives one more position.
proof fn lemma_gives_one_more<'a, F: Fn(&Edge) -> bool>(
    start: EdgeIterator<'a, F>,
    here: EdgeIterator<'a, F>,
    after: EdgeIterator<'a, F>,
    given: Seq<int>,
    p: int,
)
    requires
        start.goes_to(here, given),
        here.same_source(&start),
        start.position() <= here.position(),
        here.stops_at(after, p),
    ensures
        start.goes_to(after, given.push(p)),
{
    let more = given.push(p);
    assert(more.drop_last() =~= given);
    assert(more[given.len() as int] == p);
    assert(here.passes(p) == start.passes(p));
    assert forall|q: int| start.position() <= q < after.position() implies more.contains(q)
        || #[trigger] start.fails(q) by {
        if q < here.position() {
            assert(given.contains(q) || start.fails(q));
            if given.contains(q) {
                let k = choose|k: int| 0 <= k < given.len() && given[k] == q;
                assert(more[k] == q);
            }
        } else if q < p {
            assert(here.fails(q));
        }
    }
    assert(after.edge_reads@ =~= start.edge_reads@ + start.reads_of(more));
}

// ---------------------------------------------------------------------------------------------
// Laws
// ---------------------------------------------------------------------------------------------

/// The transaction sees an edge of the graph exactly where it is a candidate.
pub proof fn candidates_are_the_seen_edges(txn: &MemTransaction, i: int)
    requires
        0 <= i < txn.edges@.len(),
        entry_index(txn.edges@, txn.edges@[i].eid, 0) == Some(i),
    ensures
        txn.candidate(i) is Some <==> txn.sees(txn.edges@[i].eid),
{
}

/// An edge that an optimistic transaction is about to insert, and that the graph does not have,
/// is gone through.
pub proof fn own_insertions_are_gone_through(txn: &MemTransaction, i: int, edge: Edge)
    requires
        txn.lock_strategy == LockStrategy::Optimistic,
        0 <= i < txn.edge_writes@.len(),
        txn.edge_writes@[i].1 == WriteKind::InsertEdge(edge),
        entry_index(txn.edges@, txn.edge_writes@[i].0, 0) is None,
    ensures
        txn.all_pending().contains(edge),
{
    lemma_pending_holds(txn, i, edge, txn.edge_writes@.len() as int);
}

proof fn lemma_pending_holds(txn: &MemTransaction, i: int, edge: Edge, n: int)
    requires
        0 <= i < n <= txn.edge_writes@.len(),
        txn.edge_writes@[i].1 == WriteKind::InsertEdge(edge),
        entry_index(txn.edges@, txn.edge_writes@[i].0, 0) is None,
    ensures
        txn.pending(n).contains(edge),
    decreases n,
{
    if i == n - 1 {
        assert(txn.pending(n)[txn.pending(n - 1).len() as int] == edge);
    } else {
        lemma_pending_holds(txn, i, edge, n - 1);
        let before = txn.pending(n - 1);
        let k = choose|k: int| 0 <= k < before.len() && before[k] == edge;
        assert(txn.pending(n)[k] == edge);
    }
}

/// The edges that a walk without filters gives out from a position on, in order.
pub open spec fn walked(txn: MemTransaction, p: int) -> Seq<Edge>
    decreases txn.edges@.len() - p,
{
    if p >= txn.edges@.len() {
        txn.all_pending()
    } else {
        match txn.candidate(p) {
            Some(edge) => seq![edge] + walked(txn, p + 1),
            None => walked(txn, p + 1),
        }
    }
}

/// The edge is one that the transaction sees in the graph, at a position not before `p`.
pub open spec fn candidate_from(txn: MemTransaction, p: int, edge: Edge) -> bool {
    exists|i: int| p <= i < txn.edges@.len() && #[trigger] txn.candidate(i) == Some(edge)
}

proof fn lemma_walked(txn: &MemTransaction, p: int, edge: Edge)
    requires
        0 <= p <= txn.edges@.len(),
    ensures
        walked(*txn, p).contains(edge) <==> candidate_from(*txn, p, edge)
            || txn.all_pending().contains(edge),
    decreases txn.edges@.len() - p,
{
    if p < txn.edges@.len() {
        lemma_walked(txn, p + 1, edge);
        let rest = walked(*txn, p + 1);
        if candidate_from(*txn, p, edge) {
            let i = choose|i: int|
                p <= i < txn.edges@.len() && #[trigger] txn.candidate(i) == Some(edge);
            assert(i == p || candidate_from(*txn, p + 1, edge));
        }
        if candidate_from(*txn, p + 1, edge) {
            let i = choose|i: int|
                p + 1 <= i < txn.edges@.len() && #[trigger] txn.candidate(i) == Some(edge);
            assert(txn.candidate(i) == Some(edge));
        }
        if let Some(first) = txn.candidate(p) {
            let all = seq![first] + rest;
            assert(all[0] == first);
            if rest.contains(edge) {
                let k = choose|k: int| 0 <= k < rest.len() && rest[k] == edge;
                assert(all[k + 1] == edge);
            }
            if all.contains(edge) && edge != first {
                let k = choose|k: int| 0 <= k < all.len() && all[k] == edge;
                assert(rest[k - 1] == edge);
            }
        }
    }
}

/// The edges that the transaction sees or holds back carry the identifiers under which they are
/// kept, each of which occurs once.
pub open spec fn edges_keyed(txn: MemTransaction) -> bool {
    &&& forall|i: int|
        0 <= i < txn.edges@.len() ==> (txn.candidate(i) matches Some(edge) ==> edge.eid == (
        #[trigger] txn.edges@[i]).eid)
    &&& forall|i: int, j: int|
        0 <= i < j < txn.edges@.len() ==> (#[trigger] txn.edges@[i]).eid != (
        #[trigger] txn.edges@[j]).eid
    &&& forall|i: int|
        0 <= i < txn.edge_writes@.len() ==> ((#[trigger] txn.edge_writes@[i]).1 matches
            WriteKind::InsertEdge(edge) ==> edge.eid == txn.edge_writes@[i].0)
    &&& forall|i: int, j: int|
        0 <= i < j < txn.edge_writes@.len() ==> (#[trigger] txn.edge_writes@[i]).0 != (
        #[trigger] txn.edge_writes@[j]).0
}

/// The graph lists every edge once, under its own identifier.
pub open spec fn entries_keyed(entries: Seq<EdgeEntry>) -> bool {
    &&& forall|i: int|
        0 <= i < entries.len() ==> ((#[trigger] entries[i]).visible matches Some(edge) ==> edge.eid
            == entries[i].eid)
    &&& forall|i: int, j: int|
        0 <= i < j < entries.len() ==> (#[trigger] entries[i]).eid != (#[trigger] entries[j]).eid
}

proof fn lemma_edges_keyed(txn: &MemTransaction)
    requires
        txn.wf(),
        entries_keyed(txn.edges@),
    ensures
        edges_keyed(*txn),
{
    assert forall|i: int| 0 <= i < txn.edges@.len() implies (txn.candidate(i) matches Some(edge)
        ==> edge.eid == (#[trigger] txn.edges@[i]).eid) by {
        let eid = txn.edges@[i].eid;
        if txn.is_own(eid) {
            lemma_write_index(txn.edge_writes@, eid, 0);
            let k = write_index(txn.edge_writes@, eid, 0)->0;
            assert(txn.edge_writes@[k].0 == eid);
        }
    }
    assert forall|i: int| 0 <= i < txn.edge_writes@.len() implies (
    (#[trigger] txn.edge_writes@[i]).1 matches WriteKind::InsertEdge(edge) ==> edge.eid
        == txn.edge_writes@[i].0) by {
        assert(txn.edge_writes@[i].1.about() matches Some(eid) ==> eid == txn.edge_writes@[i].0);
    }
}

/// No edge with this identifier is among some edges.
pub open spec fn without_eid(edges: Seq<Edge>, eid: EdgeId) -> bool {
    forall|k: int| 0 <= k < edges.len() ==> (#[trigger] edges[k]).eid != eid
}

/// No identifier occurs twice.
pub open spec fn each_once(edges: Seq<Edge>) -> bool {
    forall|i: int, j: int|
        0 <= i < j < edges.len() ==> (#[trigger] edges[i]).eid != (#[trigger] edges[j]).eid
}

proof fn lemma_pending_once(txn: &MemTransaction, n: int)
    requires
        edges_keyed(*txn),
        0 <= n <= txn.edge_writes@.len(),
    ensures
        each_once(txn.pending(n)),
        forall|k: int|
            0 <= k < txn.pending(n).len() ==> entry_index(
                txn.edges@,
                (#[trigger] txn.pending(n)[k]).eid,
                0,
            ) is None,
        forall|i: int|
            n <= i < txn.edge_writes@.len() ==> without_eid(
                txn.pending(n),
                (#[trigger] txn.edge_writes@[i]).0,
            ),
    decreases n,
{
    if n > 0 {
        lemma_pending_once(txn, n - 1);
        let before = txn.pending(n - 1);
        assert(without_eid(before, txn.edge_writes@[n - 1].0));
        assert forall|i: int| n <= i < txn.edge_writes@.len() implies without_eid(
            txn.pending(n),
            (#[trigger] txn.edge_writes@[i]).0,
        ) by {
            assert(without_eid(before, txn.edge_writes@[i].0));
            assert(txn.edge_writes@[n - 1].0 != txn.edge_writes@[i].0);
        }
    }
}

/// An identifier that no entry has is found nowhere.
proof fn lemma_no_entry(txn: &MemTransaction, eid: EdgeId, from: int, i: int)
    requires
        0 <= from <= i < txn.edges@.len(),
        entry_index(txn.edges@, eid, from) is None,
    ensures
        txn.edges@[i].eid != eid,
    decreases i - from,
{
    if from < i {
        lemma_no_entry(txn, eid, from + 1, i);
    }
}

proof fn lemma_walked_once(txn: &MemTransaction, p: int)
    requires
        edges_keyed(*txn),
        0 <= p <= txn.edges@.len(),
    ensures
        each_once(walked(*txn, p)),
        forall|i: int|
            0 <= i < p ==> without_eid(walked(*txn, p), (#[trigger] txn.edges@[i]).eid),
    decreases txn.edges@.len() - p,
{
    if p < txn.edges@.len() {
        lemma_walked_once(txn, p + 1);
        let rest = walked(*txn, p + 1);
        assert(without_eid(rest, txn.edges@[p].eid));
        assert forall|i: int| 0 <= i < p implies without_eid(
            walked(*txn, p),
            (#[trigger] txn.edges@[i]).eid,
        ) by {
            assert(without_eid(rest, txn.edges@[i].eid));
            assert(txn.edges@[i].eid != txn.edges@[p].eid);
        }
    } else {
        lemma_pending_once(txn, txn.edge_writes@.len() as int);
        let pending = txn.all_pending();
        assert forall|i: int| 0 <= i < p implies without_eid(
            walked(*txn, p),
            (#[trigger] txn.edges@[i]).eid,
        ) by {
            assert forall|k: int| 0 <= k < pending.len() implies (#[trigger] pending[k]).eid
                != txn.edges@[i].eid by {
                lemma_no_entry(txn, pending[k].eid, 0, i);
            }
        }
    }
}

/// A walk without filters gives exactly the edges that the transaction sees in the graph and those
/// that it is about to insert, each of them once.
pub proof fn walk_gives_every_edge_once(txn: &MemTransaction, edge: Edge)
    requires
        txn.wf(),
        entries_keyed(txn.edges@),
    ensures
        walked(*txn, 0).contains(edge) <==> candidate_from(*txn, 0, edge)
            || txn.all_pending().contains(edge),
        each_once(walked(*txn, 0)),
{
    lemma_walked(txn, 0, edge);
    lemma_edges_keyed(txn);
    lemma_walked_once(txn, 0);
}

/// The filters keep exactly the edges that a predicate keeps.
pub open spec fn keeps<F: Fn(&Edge) -> bool>(filters: Seq<F>, keep: spec_fn(Edge) -> bool) -> bool {
    forall|e: Edge|
        (#[trigger] all_accept(filters, e) ==> keep(e)) && (one_refuses(filters, e) ==> !keep(e))
}

proof fn lemma_filter_once(edges: Seq<Edge>, keep: spec_fn(Edge) -> bool)
    requires
        each_once(edges),
    ensures
        each_once(edges.filter(keep)),
        forall|e: Edge| #[trigger]
            edges.filter(keep).contains(e) <==> edges.contains(e) && keep(e),
    decreases edges.len(),
{
    reveal(Seq::filter);
    if edges.len() > 0 {
        let shorter = edges.drop_last();
        let last = edges.last();
        let rest = shorter.filter(keep);
        assert(each_once(shorter)) by {
            assert forall|i: int, j: int| 0 <= i < j < shorter.len() implies (
            #[trigger] shorter[i]).eid != (#[trigger] shorter[j]).eid by {
                assert(edges[i].eid != edges[j].eid);
            }
        }
        lemma_filter_once(shorter, keep);
        assert forall|e: Edge| #[trigger] edges.contains(e) <==> shorter.contains(e) || e
            == last by {
            if edges.contains(e) {
                let k = choose|k: int| 0 <= k < edges.len() && edges[k] == e;
                if k < shorter.len() {
                    assert(shorter[k] == e);
                }
            }
            if shorter.contains(e) {
                let k = choose|k: int| 0 <= k < shorter.len() && shorter[k] == e;
                assert(edges[k] == e);
            }
            assert(edges[edges.len() - 1] == last);
        }
        if keep(last) {
            let all = rest.push(last);
            assert forall|k: int| 0 <= k < rest.len() implies (
            #[trigger] rest[k]).eid != last.eid by {
                assert(rest.contains(rest[k]));
                let i = choose|i: int| 0 <= i < shorter.len() && shorter[i] == rest[k];
                assert(edges[i].eid != edges[edges.len() - 1].eid);
            }
            assert forall|e: Edge| #[trigger] all.contains(e) <==> rest.contains(e) || e
                == last by {
                if rest.contains(e) {
                    let k = choose|k: int| 0 <= k < rest.len() && rest[k] == e;
                    assert(all[k] == e);
                }
                assert(all[rest.len() as int] == last);
            }
        }
    }
}

/// A walk with filters gives exactly those edges that the filters keep, of the edges that the
/// transaction sees in the graph and those that it is about to insert, each of them once.
pub proof fn filtered_walk_gives_every_edge_once(
    txn: &MemTransaction,
    keep: spec_fn(Edge) -> bool,
    edge: Edge,
)
    requires
        txn.wf(),
        entries_keyed(txn.edges@),
    ensures
        walked(*txn, 0).filter(keep).contains(edge) <==> keep(edge) && (candidate_from(
            *txn,
            0,
            edge,
        ) || txn.all_pending().contains(edge)),
        each_once(walked(*txn, 0).filter(keep)),
{
    walk_gives_every_edge_once(txn, edge);
    lemma_filter_once(walked(*txn, 0), keep);
}

/// What a walk with filters gives from a position in the walk on: one step gives the first of the
/// edges that the filters keep and leaves the others, and where there are none the walk has ended.
pub proof fn filtered_walk_steps_through<'a, F: Fn(&Edge) -> bool>(
    before: EdgeIterator<'a, F>,
    after: EdgeIterator<'a, F>,
    p: int,
    keep: spec_fn(Edge) -> bool,
)
    requires
        before.wf(),
        before.in_order(),
        keeps(before.filters@, keep),
        after.same_source(&before),
        after.wf(),
        after.in_order(),
    ensures
        before.stops_at(after, p) ==> before.left().filter(keep) == seq![before.at(p)->0]
            + after.left().filter(keep),
        (forall|q: int| before.position() <= q < before.length() ==> #[trigger] before.fails(q))
            ==> before.left().filter(keep) == Seq::<Edge>::empty(),
{
    reveal(Seq::filter);
    if before.stops_at(after, p) {
        lemma_kept_skips(before, before.position(), p, keep);
        lemma_left_step(before, p);
        let edge = before.at(p)->0;
        assert(all_accept(before.filters@, edge));
        lemma_filter_first(edge, before.left_from(p + 1), keep);
        if p < before.txn.edges@.len() {
            assert(after.pending_index == 0) by {
                if after.pending_index > 0 {
                    assert(after.position() > before.txn.edges@.len());
                }
            }
        }
    }
    if forall|q: int| before.position() <= q < before.length() ==> #[trigger] before.fails(q) {
        lemma_kept_skips(before, before.position(), before.length(), keep);
        assert(before.left_from(before.length()) =~= Seq::<Edge>::empty());
    }
}

/// The first of some edges stays where it is kept, and goes where it is not.
proof fn lemma_filter_first(edge: Edge, rest: Seq<Edge>, keep: spec_fn(Edge) -> bool)
    ensures
        (seq![edge] + rest).filter(keep) == (if keep(edge) {
            seq![edge] + rest.filter(keep)
        } else {
            rest.filter(keep)
        }),
{
    Seq::filter_distributes_over_add(seq![edge], rest, keep);
    assert(seq![edge].filter(keep) =~= (if keep(edge) {
        seq![edge]
    } else {
        Seq::empty()
    })) by {
        reveal_with_fuel(Seq::filter, 2);
        assert(seq![edge].drop_last() =~= Seq::empty());
        assert(Seq::<Edge>::empty().push(edge) =~= seq![edge]);
    }
    assert(Seq::<Edge>::empty() + rest.filter(keep) =~= rest.filter(keep));
}

/// The edges from a position on: the one that is there, and those behind it.
proof fn lemma_left_step<'a, F: Fn(&Edge) -> bool>(it: EdgeIterator<'a, F>, p: int)
    requires
        it.wf(),
        0 <= p < it.length(),
    ensures
        it.left_from(p) == (match it.at(p) {
            Some(edge) => seq![edge] + it.left_from(p + 1),
            None => it.left_from(p + 1),
        }),
{
    let n = it.txn.edges@.len();
    assert(it.pending_inserts@.skip(0) =~= it.pending_inserts@);
    assert(walked(*it.txn, n as int) == it.txn.all_pending());
    if p >= n {
        assert(it.pending_inserts@.skip(p - n) =~= seq![it.pending_inserts@[p - n]]
            + it.pending_inserts@.skip(p + 1 - n));
    }
}

/// Positions that are passed over hold no edge that the filters keep.
proof fn lemma_kept_skips<'a, F: Fn(&Edge) -> bool>(
    it: EdgeIterator<'a, F>,
    p: int,
    end: int,
    keep: spec_fn(Edge) -> bool,
)
    requires
        it.wf(),
        keeps(it.filters@, keep),
        0 <= p <= end <= it.length(),
        forall|q: int| p <= q < end ==> #[trigger] it.fails(q),
    ensures
        it.left_from(p).filter(keep) == it.left_from(end).filter(keep),
    decreases end - p,
{
    if p < end {
        assert(it.fails(p));
        lemma_left_step(it, p);
        lemma_kept_skips(it, p + 1, end, keep);
        if let Some(edge) = it.at(p) {
            assert(one_refuses(it.filters@, edge));
            assert(all_accept(it.filters@, edge) ==> keep(edge));
            assert(!keep(edge));
            lemma_filter_first(edge, it.left_from(p + 1), keep);
            assert(it.left_from(p).filter(keep) == it.left_from(p + 1).filter(keep));
        } else {
            assert(it.left_from(p) == it.left_from(p + 1));
        }
    }
}

/// What a walk without filters gives from a position in the walk on: one step gives the first of
/// these edges and leaves the others, and where there are none the walk has ended.
pub proof fn walk_steps_through<'a, F: Fn(&Edge) -> bool>(
    before: EdgeIterator<'a, F>,
    after: EdgeIterator<'a, F>,
    p: int,
)
    requires
        before.wf(),
        before.in_order(),
        before.filters@.len() == 0,
        after.same_source(&before),
        after.wf(),
        after.in_order(),
    ensures
        before.stops_at(after, p) ==> before.left() == seq![before.at(p)->0] + after.left(),
        (forall|q: int| before.position() <= q < before.length() ==> #[trigger] before.fails(q))
            ==> before.left() == Seq::<Edge>::empty(),
{
    if before.stops_at(after, p) {
        lemma_left_skips(before, before.position(), p);
        if p < before.txn.edges@.len() {
            assert(after.pending_index == 0) by {
                if after.pending_index > 0 {
                    assert(after.position() > before.txn.edges@.len());
                }
            }
        }
        assert(before.pending_inserts@.skip(0) =~= before.pending_inserts@);
        assert(walked(*before.txn, before.txn.edges@.len() as int) == before.txn.all_pending());
        let n = before.txn.edges@.len();
        if p >= n {
            assert(before.pending_inserts@.skip(p - n) =~= seq![before.pending_inserts@[p - n]]
                + before.pending_inserts@.skip(p + 1 - n));
        }
    }
    if forall|q: int| before.position() <= q < before.length() ==> #[trigger] before.fails(q) {
        lemma_left_skips(before, before.position(), before.length());
        assert(before.left_from(before.length()) =~= Seq::<Edge>::empty());
    }
}

/// Without filters, positions that are passed over hold no edge.
proof fn lemma_left_skips<'a, F: Fn(&Edge) -> bool>(it: EdgeIterator<'a, F>, p: int, end: int)
    requires
        it.wf(),
        it.filters@.len() == 0,
        0 <= p <= end <= it.length(),
        forall|q: int| p <= q < end ==> #[trigger] it.fails(q),
    ensures
        it.left_from(p) == it.left_from(end),
    decreases end - p,
{
    if p < end {
        assert(it.fails(p));
        assert(it.at(p) is None);
        lemma_left_skips(it, p + 1, end);
        assert(it.pending_inserts@.skip(0) =~= it.pending_inserts@);
        assert(walked(*it.txn, it.txn.edges@.len() as int) == it.txn.all_pending());
    }
}

impl<'a, F: Fn(&Edge) -> bool> EdgeIterator<'a, F> {
    /// The edges at the positions from `p` on.
    pub open spec fn left_from(&self, p: int) -> Seq<Edge> {
        if p < self.txn.edges@.len() {
            walked(*self.txn, p)
        } else {
            self.pending_inserts@.skip(p - self.txn.edges@.len())
        }
    }

    /// The edges at the positions that have not been gone through.
    pub open spec fn left(&self) -> Seq<Edge> {
        self.left_from(self.position())
    }
}

} // verus!
