//! Sets of labels.

use vstd::prelude::*;
use std::sync::Arc;
use crate::common::types::LabelId;

verus! {

/// A set of labels, as the ascending list of its members.
#[derive(Debug)]
pub struct LabelSet {
    pub ids: Arc<Vec<LabelId>>,
}

/// The list ascends, so no label occurs twice.
pub open spec fn ascending(ids: Seq<LabelId>) -> bool {
    forall|i: int, j: int|
        0 <= i < j < ids.len() ==> (#[trigger] ids[i]).raw < (#[trigger] ids[j]).raw
}

/// An ascending list is determined by its members.
pub proof fn lemma_ascending_unique(a: Seq<LabelId>, b: Seq<LabelId>)
    requires
        ascending(a),
        ascending(b),
        forall|id: LabelId| #[trigger] a.contains(id) <==> b.contains(id),
    ensures
        a == b,
    decreases a.len(),
{
    if a.len() == 0 {
        if b.len() > 0 {
            assert(b.contains(b[0]));
            assert(a.contains(b[0]));
        }
        assert(a =~= b);
    } else {
        assert(a.contains(a.last()));
        assert(b.contains(a.last()));
        assert(b.len() > 0);
        assert(b.contains(b.last()));
        assert(a.contains(b.last()));
        let i = choose|i: int| 0 <= i < b.len() && b[i] == a.last();
        let j = choose|j: int| 0 <= j < a.len() && a[j] == b.last();
        if i < b.len() - 1 {
            assert(b[i].raw < b[b.len() - 1].raw);
            if j < a.len() - 1 {
                assert(a[j].raw < a[a.len() - 1].raw);
            }
        }
        assert(a.last() == b.last());
        let x = a.drop_last();
        let y = b.drop_last();
        assert(ascending(x)) by {
            assert forall|i: int, j: int| 0 <= i < j < x.len() implies (#[trigger] x[i]).raw < (
            #[trigger] x[j]).raw by {
                assert(a[i].raw < a[j].raw);
            }
        }
        assert(ascending(y)) by {
            assert forall|i: int, j: int| 0 <= i < j < y.len() implies (#[trigger] y[i]).raw < (
            #[trigger] y[j]).raw by {
                assert(b[i].raw < b[j].raw);
            }
        }
        assert forall|id: LabelId| #[trigger] x.contains(id) <==> y.contains(id) by {
            if x.contains(id) {
                let k = choose|k: int| 0 <= k < x.len() && x[k] == id;
                assert(a[k].raw < a[a.len() - 1].raw);
                assert(a.contains(a[k]));
                assert(b.contains(id));
                let m = choose|m: int| 0 <= m < b.len() && b[m] == id;
                assert(m < b.len() - 1);
                assert(y[m] == id);
            }
            if y.contains(id) {
                let k = choose|k: int| 0 <= k < y.len() && y[k] == id;
                assert(b[k].raw < b[b.len() - 1].raw);
                assert(b.contains(b[k]));
                assert(a.contains(id));
                let m = choose|m: int| 0 <= m < a.len() && a[m] == id;
                assert(m < a.len() - 1);
                assert(x[m] == id);
            }
        }
        lemma_ascending_unique(x, y);
        assert(a =~= x.push(a.last()));
        assert(b =~= y.push(b.last()));
    }
}

/// The ascending list of the labels in a list.
pub open spec fn label_set_of(ids: Seq<LabelId>) -> Seq<LabelId> {
    choose|set: Seq<LabelId>|
        ascending(set) && forall|id: LabelId| #[trigger] set.contains(id) <==> ids.contains(id)
}

/// An ascending list with the labels of a list is the set of that list.
pub proof fn lemma_label_set_of(set: Seq<LabelId>, ids: Seq<LabelId>)
    requires
        ascending(set),
        forall|id: LabelId| #[trigger] set.contains(id) <==> ids.contains(id),
    ensures
        label_set_of(ids) == set,
{
    lemma_ascending_unique(label_set_of(ids), set);
}

impl Clone for LabelSet {
    fn clone(&self) -> (r: Self)
        ensures
            r == *self,
    {
        LabelSet { ids: self.ids.clone() }
    }
}

impl View for LabelSet {
    type V = Seq<LabelId>;

    open spec fn view(&self) -> Seq<LabelId> {
        self.ids@
    }
}

impl LabelSet {
    pub open spec fn wf(&self) -> bool {
        ascending(self@)
    }

    /// The set without labels.
    pub fn new() -> (r: Self)
        ensures
            r.wf(),
            r@ == Seq::<LabelId>::empty(),
    {
        LabelSet { ids: Arc::new(Vec::new()) }
    }

    /// The set of the labels in a list.
    pub fn from_ids(list: &Vec<LabelId>) -> (r: Self)
        ensures
            r.wf(),
            forall|id: LabelId| #[trigger] r@.contains(id) <==> list@.contains(id),
            r@ == label_set_of(list@),
    {
        let mut ids: Vec<LabelId> = Vec::new();
        let mut i: usize = 0;
        while i < list.len()
            invariant
                i <= list.len(),
                ascending(ids@),
                forall|id: LabelId| #[trigger]
                    ids@.contains(id) <==> list@.take(i as int).contains(id),
            decreases list.len() - i,
        {
            let ghost before = ids@;
            insert_label(&mut ids, list[i]);
            proof {
                let taken = list@.take(i as int);
                let next = list@.take(i + 1);
                assert(next =~= taken.push(list@[i as int]));
                assert forall|id: LabelId| #[trigger] ids@.contains(id) <==> next.contains(id) by {
                    if next.contains(id) {
                        let k = choose|k: int| 0 <= k < next.len() && next[k] == id;
                        if k < i {
                            assert(taken[k] == id);
                            assert(taken.contains(id));
                            assert(before.contains(id));
                        }
                    }
                    if ids@.contains(id) {
                        if before.contains(id) {
                            assert(taken.contains(id));
                            let k = choose|k: int| 0 <= k < taken.len() && taken[k] == id;
                            assert(next[k] == id);
                        } else {
                            assert(next[i as int] == id);
                        }
                    }
                }
            }
            i = i + 1;
        }
        assert(list@.take(i as int) =~= list@);
        proof {
            lemma_label_set_of(ids@, list@);
        }
        LabelSet { ids: Arc::new(ids) }
    }

    /// The set of one label.
    pub fn single(label_id: LabelId) -> (r: Self)
        ensures
            r.wf(),
            r@ == seq![label_id],
    {
        let mut ids: Vec<LabelId> = Vec::new();
        ids.push(label_id);
        assert(ids@ =~= seq![label_id]);
        LabelSet { ids: Arc::new(ids) }
    }

    pub fn is_empty(&self) -> (r: bool)
        ensures
            r == (self@.len() == 0),
    {
        self.ids.len() == 0
    }

    /// Whether two sets have the same labels.
    pub fn equals(&self, other: &LabelSet) -> (r: bool)
        ensures
            r == (self@ == other@),
    {
        if self.ids.len() != other.ids.len() {
            return false;
        }
        let mut i: usize = 0;
        while i < self.ids.len()
            invariant
                i <= self@.len() == other@.len(),
                forall|k: int| 0 <= k < i ==> self@[k] == other@[k],
            decreases self.ids.len() - i,
        {
            if self.ids[i] != other.ids[i] {
                assert(self@[i as int] != other@[i as int]);
                return false;
            }
            i = i + 1;
        }
        assert(self@ =~= other@);
        true
    }
}

/// Puts a label into an ascending list, unless it is there.
fn insert_label(ids: &mut Vec<LabelId>, label: LabelId)
    requires
        ascending(old(ids)@),
    ensures
        ascending(final(ids)@),
        forall|id: LabelId| #[trigger]
            final(ids)@.contains(id) <==> old(ids)@.contains(id) || id == label,
{
    let ghost before = ids@;
    let mut pos: usize = 0;
    while pos < ids.len() && ids[pos].raw < label.raw
        invariant
            pos <= ids.len(),
            forall|k: int| 0 <= k < pos ==> (#[trigger] ids@[k]).raw < label.raw,
        decreases ids.len() - pos,
    {
        pos = pos + 1;
    }
    if pos < ids.len() && ids[pos].raw == label.raw {
        assert(ids@[pos as int] == label);
        assert(before.contains(label));
        return;
    }
    ids.insert(pos, label);
    proof {
        let after = ids@;
        assert forall|i: int, j: int| 0 <= i < j < after.len() implies (#[trigger] after[i]).raw < (
        #[trigger] after[j]).raw by {
            let oi = if i < pos {
                i
            } else {
                i - 1
            };
            let oj = if j < pos {
                j
            } else {
                j - 1
            };
            if i != pos && j != pos {
                assert(before[oi].raw < before[oj].raw);
            } else if i == pos {
                if oj > pos {
                    assert(before[pos as int].raw < before[oj].raw);
                }
            }
        }
        assert forall|id: LabelId| #[trigger] after.contains(id) <==> before.contains(id) || id
            == label by {
            if before.contains(id) {
                let k = choose|k: int| 0 <= k < before.len() && before[k] == id;
                if k < pos {
                    assert(after[k] == id);
                } else {
                    assert(after[k + 1] == id);
                }
            }
            if id == label {
                assert(after[pos as int] == id);
            }
            if after.contains(id) && id != label {
                let k = choose|k: int| 0 <= k < after.len() && after[k] == id;
                if k < pos {
                    assert(before[k] == id);
                } else {
                    assert(before[k - 1] == id);
                }
            }
        }
    }
}

} // verus!
