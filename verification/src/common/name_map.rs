//! A map from names to values.

use vstd::prelude::*;
use crate::common::text::strings_equal;

verus! {

/// A map from names to values: no name occurs twice.
#[derive(Debug)]
pub struct NameMap<V> {
    pub entries: Vec<(String, V)>,
}

/// The entries as a map; of two entries with one name the first counts.
pub open spec fn entries_map<V>(entries: Seq<(String, V)>) -> Map<Seq<char>, V>
    decreases entries.len(),
{
    if entries.len() == 0 {
        Map::empty()
    } else {
        let rest = entries_map(entries.drop_last());
        if rest.dom().contains(entries.last().0@) {
            rest
        } else {
            rest.insert(entries.last().0@, entries.last().1)
        }
    }
}

/// No name occurs twice.
pub open spec fn distinct_names<V>(entries: Seq<(String, V)>) -> bool {
    forall|i: int, j: int|
        0 <= i < j < entries.len() ==> (#[trigger] entries[i]).0@ != (#[trigger] entries[j]).0@
}

impl<V> View for NameMap<V> {
    type V = Map<Seq<char>, V>;

    open spec fn view(&self) -> Map<Seq<char>, V> {
        entries_map(self.entries@)
    }
}

/// What the map of entries holds.
pub proof fn lemma_entries_map<V>(entries: Seq<(String, V)>)
    requires
        distinct_names(entries),
    ensures
        forall|i: int|
            0 <= i < entries.len() ==> entries_map(entries).dom().contains(
                (#[trigger] entries[i]).0@,
            ) && entries_map(entries)[entries[i].0@] == entries[i].1,
        forall|name: Seq<char>| #[trigger]
            entries_map(entries).dom().contains(name) ==> exists|i: int|
                0 <= i < entries.len() && (#[trigger] entries[i]).0@ == name,
    decreases entries.len(),
{
    if entries.len() > 0 {
        let before = entries.drop_last();
        assert(distinct_names(before)) by {
            assert forall|i: int, j: int| 0 <= i < j < before.len() implies (
            #[trigger] before[i]).0@ != (#[trigger] before[j]).0@ by {
                assert(entries[i].0@ != entries[j].0@);
            }
        }
        lemma_entries_map(before);
        let last = entries.last();
        assert(!entries_map(before).dom().contains(last.0@)) by {
            if entries_map(before).dom().contains(last.0@) {
                let i = choose|i: int|
                    0 <= i < before.len() && (#[trigger] before[i]).0@ == last.0@;
                assert(entries[i].0@ != entries[entries.len() - 1].0@);
            }
        }
        assert forall|i: int| 0 <= i < entries.len() implies entries_map(entries).dom().contains(
            (#[trigger] entries[i]).0@,
        ) && entries_map(entries)[entries[i].0@] == entries[i].1 by {
            if i < entries.len() - 1 {
                assert(before[i] == entries[i]);
                assert(entries[i].0@ != entries[entries.len() - 1].0@);
            }
        }
        assert forall|name: Seq<char>| #[trigger]
            entries_map(entries).dom().contains(name) implies exists|i: int|
            0 <= i < entries.len() && (#[trigger] entries[i]).0@ == name by {
            if name == last.0@ {
                assert(entries[entries.len() - 1].0@ == name);
            } else {
                let i = choose|i: int| 0 <= i < before.len() && (#[trigger] before[i]).0@ == name;
                assert(entries[i].0@ == name);
            }
        }
    }
}

/// Of the entries with a name the first counts; without one the name has no value.
proof fn lemma_first_counts<V>(entries: Seq<(String, V)>, name: Seq<char>, i: int)
    requires
        0 <= i <= entries.len(),
        forall|k: int| 0 <= k < i ==> (#[trigger] entries[k]).0@ != name,
        i < entries.len() ==> entries[i].0@ == name,
    ensures
        entries_map(entries).dom().contains(name) <==> i < entries.len(),
        i < entries.len() ==> entries_map(entries)[name] == entries[i].1,
    decreases entries.len(),
{
    if entries.len() > 0 {
        let before = entries.drop_last();
        if i == entries.len() {
            assert(entries[i - 1].0@ != name);
            lemma_first_counts(before, name, i - 1);
        } else {
            lemma_first_counts(before, name, i);
        }
    }
}

/// Two lists of entries with distinct names and the same entries have the same map.
proof fn lemma_same_entries<V>(a: Seq<(String, V)>, m: Map<Seq<char>, V>)
    requires
        distinct_names(a),
        forall|i: int|
            0 <= i < a.len() ==> m.dom().contains((#[trigger] a[i]).0@) && m[a[i].0@] == a[i].1,
        forall|name: Seq<char>| #[trigger]
            m.dom().contains(name) ==> exists|i: int|
                0 <= i < a.len() && (#[trigger] a[i]).0@ == name,
    ensures
        entries_map(a) == m,
{
    lemma_entries_map(a);
    assert forall|name: Seq<char>| #[trigger] m.dom().contains(name) implies entries_map(
        a,
    ).dom().contains(name) && entries_map(a)[name] == m[name] by {
        let i = choose|i: int| 0 <= i < a.len() && (#[trigger] a[i]).0@ == name;
        assert(entries_map(a).dom().contains(a[i].0@));
    }
    assert forall|name: Seq<char>| #[trigger] entries_map(a).dom().contains(
        name,
    ) implies m.dom().contains(name) by {
        let i = choose|i: int| 0 <= i < a.len() && (#[trigger] a[i]).0@ == name;
        assert(m.dom().contains(a[i].0@));
    }
    assert(entries_map(a) =~= m);
}

impl<V> NameMap<V> {
    pub open spec fn wf(&self) -> bool {
        distinct_names(self.entries@)
    }

    pub fn new() -> (r: Self)
        ensures
            r.wf(),
            r@ == Map::<Seq<char>, V>::empty(),
    {
        NameMap { entries: Vec::new() }
    }

    /// The position of the first entry with a name.
    fn position(&self, name: &str) -> (r: Option<usize>)
        ensures
            match r {
                Some(i) => i < self.entries@.len() && self.entries@[i as int].0@ == name@
                    && self@.dom().contains(name@) && self@[name@] == self.entries@[i as int].1,
                None => !self@.dom().contains(name@),
            },
    {
        let mut i: usize = 0;
        while i < self.entries.len()
            invariant
                i <= self.entries.len(),
                forall|k: int| 0 <= k < i ==> (#[trigger] self.entries@[k]).0@ != name@,
            decreases self.entries.len() - i,
        {
            if strings_equal(self.entries[i].0.as_str(), name) {
                proof {
                    lemma_first_counts(self.entries@, name@, i as int);
                }
                return Some(i);
            }
            i = i + 1;
        }
        proof {
            lemma_first_counts(self.entries@, name@, i as int);
        }
        None
    }

    /// Whether a name has a value.
    pub fn contains(&self, name: &str) -> (r: bool)
        ensures
            r == self@.dom().contains(name@),
    {
        self.position(name).is_some()
    }

    /// The value of a name.
    pub fn get(&self, name: &str) -> (r: Option<&V>)
        ensures
            r == (if self@.dom().contains(name@) {
                Some(&self@[name@])
            } else {
                None
            }),
    {
        match self.position(name) {
            Some(i) => Some(&self.entries[i].1),
            None => None,
        }
    }

    /// Gives a name a value, in place of the one it had.
    pub fn insert(&mut self, name: String, value: V)
        requires
            old(self).wf(),
        ensures
            final(self).wf(),
            final(self)@ == old(self)@.insert(name@, value),
    {
        let ghost before = self.entries@;
        let ghost m = self@;
        proof {
            lemma_entries_map(before);
        }
        match self.position(name.as_str()) {
            Some(i) => {
                self.entries[i].1 = value;
                let ghost after = self.entries@;
                proof {
                    assert(after =~= before.update(i as int, (before[i as int].0, value)));
                    assert(distinct_names(after)) by {
                        assert forall|j: int, k: int| 0 <= j < k < after.len() implies (
                        #[trigger] after[j]).0@ != (#[trigger] after[k]).0@ by {
                            assert(before[j].0@ != before[k].0@);
                        }
                    }
                    let target = m.insert(name@, value);
                    assert forall|k: int| 0 <= k < after.len() implies target.dom().contains(
                        (#[trigger] after[k]).0@,
                    ) && target[after[k].0@] == after[k].1 by {
                        assert(m.dom().contains(before[k].0@));
                        if k < i {
                            assert(before[k].0@ != before[i as int].0@);
                        } else if k > i {
                            assert(before[i as int].0@ != before[k].0@);
                        }
                    }
                    assert forall|n: Seq<char>| #[trigger] target.dom().contains(n) implies exists|
                        k: int,
                    |
                        0 <= k < after.len() && (#[trigger] after[k]).0@ == n by {
                        if n == name@ {
                            assert(after[i as int].0@ == n);
                        } else {
                            let k = choose|k: int|
                                0 <= k < before.len() && (#[trigger] before[k]).0@ == n;
                            assert(after[k].0@ == n);
                        }
                    }
                    lemma_same_entries(after, target);
                }
            },
            None => {
                self.entries.push((name, value));
                let ghost after = self.entries@;
                proof {
                    assert(after.drop_last() =~= before);
                    assert(distinct_names(after)) by {
                        assert forall|j: int, k: int| 0 <= j < k < after.len() implies (
                        #[trigger] after[j]).0@ != (#[trigger] after[k]).0@ by {
                            if k < before.len() {
                                assert(before[j].0@ != before[k].0@);
                            } else {
                                assert(m.dom().contains(before[j].0@));
                            }
                        }
                    }
                }
            },
        }
    }

    /// Takes a name out; says whether it was there.
    pub fn remove(&mut self, name: &str) -> (r: bool)
        requires
            old(self).wf(),
        ensures
            final(self).wf(),
            final(self)@ == old(self)@.remove(name@),
            r == old(self)@.dom().contains(name@),
    {
        let ghost before = self.entries@;
        let ghost m = self@;
        proof {
            lemma_entries_map(before);
        }
        match self.position(name) {
            Some(i) => {
                let _ = self.entries.remove(i);
                let ghost after = self.entries@;
                proof {
                    assert forall|k: int| 0 <= k < after.len() implies #[trigger] after[k] == (if k
                        < i {
                        before[k]
                    } else {
                        before[k + 1]
                    }) by {}
                    assert(distinct_names(after)) by {
                        assert forall|j: int, k: int| 0 <= j < k < after.len() implies (
                        #[trigger] after[j]).0@ != (#[trigger] after[k]).0@ by {
                            let oj = if j < i {
                                j
                            } else {
                                j + 1
                            };
                            let ok = if k < i {
                                k
                            } else {
                                k + 1
                            };
                            assert(before[oj].0@ != before[ok].0@);
                        }
                    }
                    let target = m.remove(name@);
                    assert forall|k: int| 0 <= k < after.len() implies target.dom().contains(
                        (#[trigger] after[k]).0@,
                    ) && target[after[k].0@] == after[k].1 by {
                        if k < i {
                            assert(before[k].0@ != before[i as int].0@);
                            assert(m.dom().contains(before[k].0@));
                        } else {
                            assert(before[i as int].0@ != before[k + 1].0@);
                            assert(m.dom().contains(before[k + 1].0@));
                        }
                    }
                    assert forall|n: Seq<char>| #[trigger] target.dom().contains(n) implies exists|
                        k: int,
                    |
                        0 <= k < after.len() && (#[trigger] after[k]).0@ == n by {
                        assert(m.dom().contains(n));
                        let k = choose|k: int|
                            0 <= k < before.len() && (#[trigger] before[k]).0@ == n;
                        if k < i {
                            assert(after[k].0@ == n);
                        } else {
                            assert(after[k - 1].0@ == n);
                        }
                    }
                    lemma_same_entries(after, target);
                }
                true
            },
            None => {
                assert(m.remove(name@) =~= m);
                false
            },
        }
    }

    /// The names, each once, in the order of their first insertion.
    pub fn names(&self) -> (r: Vec<String>)
        requires
            self.wf(),
        ensures
            forall|i: int, j: int|
                0 <= i < j < r@.len() ==> (#[trigger] r@[i])@ != (#[trigger] r@[j])@,
            forall|i: int| 0 <= i < r@.len() ==> self@.dom().contains((#[trigger] r@[i])@),
            forall|name: Seq<char>| #[trigger]
                self@.dom().contains(name) ==> exists|i: int|
                    0 <= i < r@.len() && (#[trigger] r@[i])@ == name,
    {
        proof {
            lemma_entries_map(self.entries@);
        }
        let mut r: Vec<String> = Vec::new();
        let mut i: usize = 0;
        while i < self.entries.len()
            invariant
                i <= self.entries.len(),
                r@.len() == i,
                forall|k: int| 0 <= k < i ==> #[trigger] r@[k] == self.entries@[k].0,
            decreases self.entries.len() - i,
        {
            r.push(self.entries[i].0.clone());
            i = i + 1;
        }
        proof {
            assert forall|j: int, k: int| 0 <= j < k < r@.len() implies (#[trigger] r@[j])@ != (
            #[trigger] r@[k])@ by {
                assert(self.entries@[j].0@ != self.entries@[k].0@);
            }
            assert forall|k: int| 0 <= k < r@.len() implies self@.dom().contains(
                (#[trigger] r@[k])@,
            ) by {
                assert(self@.dom().contains(self.entries@[k].0@));
            }
            assert forall|name: Seq<char>| #[trigger] self@.dom().contains(name) implies exists|
                k: int,
            |
                0 <= k < r@.len() && (#[trigger] r@[k])@ == name by {
                let k = choose|k: int|
                    0 <= k < self.entries@.len() && (#[trigger] self.entries@[k]).0@ == name;
                assert(r@[k]@ == name);
            }
        }
        r
    }
}

} // verus!
