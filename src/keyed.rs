//! A small map from device names to values that remembers the order in
//! which names first arrived.

use vstd::prelude::*;
use crate::text::same_text;

verus! {

pub struct Keyed<V> {
    entries: Vec<(String, V)>,
}

impl<V> Keyed<V> {
    /// The names, in order of first arrival.
    pub closed spec fn keys(&self) -> Seq<Seq<char>> {
        self.entries@.map_values(|e: (String, V)| e.0@)
    }

    /// No name appears twice.
    pub closed spec fn wf(&self) -> bool {
        forall|i: int, j: int|
            0 <= i < self.entries@.len() && 0 <= j < self.entries@.len() && (#[trigger] self.entries@[i]).0@
                == (#[trigger] self.entries@[j]).0@ ==> i == j
    }

    /// The value held under each name.
    pub closed spec fn view(&self) -> Map<Seq<char>, V> {
        Map::new(
            |k: Seq<char>| exists|i: int| 0 <= i < self.entries@.len() && (#[trigger] self.entries@[i]).0@ == k,
            |k: Seq<char>|
                self.entries@[choose|i: int| 0 <= i < self.entries@.len() && (#[trigger] self.entries@[i]).0@ == k].1,
        )
    }

    /// The names and the map agree.
    pub proof fn lemma_keys(&self)
        requires
            self.wf(),
        ensures
            self.keys().no_duplicates(),
            forall|k: Seq<char>| self.view().contains_key(k) <==> self.keys().contains(k),
            forall|i: int| 0 <= i < self.keys().len() ==> self.view().contains_key(#[trigger] self.keys()[i]),
    {
        assert forall|k: Seq<char>| self.view().contains_key(k) <==> self.keys().contains(k) by {
            if self.view().contains_key(k) {
                let i = choose|i: int| 0 <= i < self.entries@.len() && (#[trigger] self.entries@[i]).0@ == k;
                assert(self.keys()[i] == k);
            }
            if self.keys().contains(k) {
                let i = choose|i: int| 0 <= i < self.keys().len() && self.keys()[i] == k;
                assert(self.entries@[i].0@ == k);
            }
        }
        assert forall|i: int| 0 <= i < self.keys().len() implies self.view().contains_key(#[trigger] self.keys()[i]) by {
            assert(self.entries@[i].0@ == self.keys()[i]);
        }
    }

    pub fn new() -> (m: Keyed<V>)
        ensures
            m.wf(),
            m.view() == Map::<Seq<char>, V>::empty(),
            m.keys() == Seq::<Seq<char>>::empty(),
    {
        let m = Keyed { entries: Vec::new() };
        assert(m.view() =~= Map::<Seq<char>, V>::empty());
        assert(m.keys() =~= Seq::<Seq<char>>::empty());
        m
    }

    pub fn len(&self) -> (r: usize)
        ensures
            r == self.keys().len(),
    {
        self.entries.len()
    }

    fn position(&self, k: &str) -> (r: Option<usize>)
        ensures
            r matches Some(i) ==> i < self.entries@.len() && self.entries@[i as int].0@ == k@,
            r is None ==> forall|i: int|
                0 <= i < self.entries@.len() ==> (#[trigger] self.entries@[i]).0@ != k@,
    {
        let mut i: usize = 0;
        while i < self.entries.len()
            invariant
                i <= self.entries@.len(),
                forall|j: int| 0 <= j < i ==> (#[trigger] self.entries@[j]).0@ != k@,
            decreases self.entries@.len() - i,
        {
            if same_text(self.entries[i].0.as_str(), k) {
                return Some(i);
            }
            i += 1;
        }
        None
    }

    pub fn get(&self, k: &str) -> (r: Option<&V>)
        requires
            self.wf(),
        ensures
            self.view().contains_key(k@) ==> r == Some(&self.view()[k@]),
            !self.view().contains_key(k@) ==> r is None,
    {
        match self.position(k) {
            Some(i) => {
                assert(self.view().contains_key(k@));
                Some(&self.entries[i].1)
            },
            None => None,
        }
    }

    /// The name and value at position `i` in order of arrival.
    pub fn entry_at(&self, i: usize) -> (r: (&String, &V))
        requires
            self.wf(),
            i < self.keys().len(),
        ensures
            r.0@ == self.keys()[i as int],
            *r.1 == self.view()[self.keys()[i as int]],
    {
        assert(self.entries@[i as int].0@ == self.keys()[i as int]);
        assert(self.view().contains_key(self.keys()[i as int]));
        (&self.entries[i].0, &self.entries[i].1)
    }

    /// Puts `v` under `k`: a known name keeps its place, a new one goes last.
    pub fn insert(&mut self, k: &str, v: V)
        requires
            old(self).wf(),
        ensures
            final(self).wf(),
            final(self).view() == old(self).view().insert(k@, v),
            old(self).view().contains_key(k@) ==> final(self).keys() == old(self).keys(),
            !old(self).view().contains_key(k@) ==> final(self).keys() == old(self).keys().push(k@),
    {
        let ghost before = *self;
        match self.position(k) {
            Some(i) => {
                assert(before.view().contains_key(k@));
                let name = String::from_str(k);
                self.entries.set(i, (name, v));
                proof {
                    lemma_view_update(before, *self, i as int, v);
                }
                assert(self.keys() =~= before.keys());
            },
            None => {
                self.entries.push((String::from_str(k), v));
                proof {
                    lemma_view_push(before, *self, v);
                }
                assert(self.keys() =~= before.keys().push(k@));
            },
        }
    }

    /// Exchanges the value held under `k` with `*v`, when `k` is known.
    pub fn swap_value(&mut self, k: &str, v: &mut V) -> (found: bool)
        requires
            old(self).wf(),
        ensures
            found == old(self).view().contains_key(k@),
            final(self).wf(),
            final(self).keys() == old(self).keys(),
            found ==> *final(v) == old(self).view()[k@] && final(self).view() == old(self).view().insert(k@, *old(v)),
            !found ==> *final(v) == *old(v) && final(self).view() == old(self).view(),
    {
        let ghost before = *self;
        match self.position(k) {
            Some(i) => {
                assert(before.view().contains_key(k@));
                let ghost given = *v;
                std::mem::swap(&mut self.entries[i].1, v);
                proof {
                    lemma_view_update(before, *self, i as int, given);
                }
                assert(self.keys() =~= before.keys());
                true
            },
            None => false,
        }
    }

    pub fn clear(&mut self)
        ensures
            final(self).wf(),
            final(self).view() == Map::<Seq<char>, V>::empty(),
            final(self).keys() == Seq::<Seq<char>>::empty(),
    {
        self.entries.clear();
        assert(self.view() =~= Map::<Seq<char>, V>::empty());
        assert(self.keys() =~= Seq::<Seq<char>>::empty());
    }
}

proof fn lemma_view_update<V>(before: Keyed<V>, after: Keyed<V>, i: int, v: V)
    requires
        before.wf(),
        0 <= i < before.entries@.len(),
        after.entries@.len() == before.entries@.len(),
        after.entries@[i].0@ == before.entries@[i].0@,
        after.entries@[i].1 == v,
        forall|j: int| 0 <= j < before.entries@.len() && j != i ==> after.entries@[j] == before.entries@[j],
    ensures
        after.wf(),
        after.view() == before.view().insert(before.entries@[i].0@, v),
{
    let n = before.entries@[i].0@;
    assert(after.wf()) by {
        assert forall|a: int, b: int|
            0 <= a < after.entries@.len() && 0 <= b < after.entries@.len() && (#[trigger] after.entries@[a]).0@
                == (#[trigger] after.entries@[b]).0@ implies a == b by {
            assert(before.entries@[a].0@ == before.entries@[b].0@);
        }
    }
    assert forall|k: Seq<char>| after.view().contains_key(k) <==> before.view().insert(n, v).contains_key(k) by {
        if after.view().contains_key(k) {
            let j = choose|j: int| 0 <= j < after.entries@.len() && (#[trigger] after.entries@[j]).0@ == k;
            assert(before.entries@[j].0@ == k);
        }
        if before.view().contains_key(k) {
            let j = choose|j: int| 0 <= j < before.entries@.len() && (#[trigger] before.entries@[j]).0@ == k;
            assert(after.entries@[j].0@ == k);
        }
        if k == n {
            assert(after.entries@[i].0@ == k);
        }
    }
    assert forall|k: Seq<char>| after.view().contains_key(k) implies after.view()[k] == before.view().insert(n, v)[k] by {
        let j = choose|j: int| 0 <= j < after.entries@.len() && (#[trigger] after.entries@[j]).0@ == k;
        if k == n {
            assert(after.entries@[i].0@ == k);
        } else {
            assert(before.entries@[j].0@ == k);
            let j2 = choose|j: int| 0 <= j < before.entries@.len() && (#[trigger] before.entries@[j]).0@ == k;
            assert(j == j2);
        }
    }
    assert(after.view() =~= before.view().insert(n, v));
}

proof fn lemma_view_push<V>(before: Keyed<V>, after: Keyed<V>, v: V)
    requires
        before.wf(),
        after.entries@.len() == before.entries@.len() + 1,
        forall|j: int| 0 <= j < before.entries@.len() ==> after.entries@[j] == before.entries@[j],
        after.entries@.last().1 == v,
        forall|j: int| 0 <= j < before.entries@.len() ==> (#[trigger] before.entries@[j]).0@
            != after.entries@.last().0@,
    ensures
        after.wf(),
        after.view() == before.view().insert(after.entries@.last().0@, v),
{
    let n = after.entries@.last().0@;
    let last = before.entries@.len() as int;
    assert(after.wf()) by {
        assert forall|a: int, b: int|
            0 <= a < after.entries@.len() && 0 <= b < after.entries@.len() && (#[trigger] after.entries@[a]).0@
                == (#[trigger] after.entries@[b]).0@ implies a == b by {
            if a < last && b < last {
                assert(before.entries@[a].0@ == before.entries@[b].0@);
            } else if a < last {
                assert(before.entries@[a].0@ != n);
            } else if b < last {
                assert(before.entries@[b].0@ != n);
            }
        }
    }
    assert forall|k: Seq<char>| after.view().contains_key(k) <==> before.view().insert(n, v).contains_key(k) by {
        if after.view().contains_key(k) {
            let j = choose|j: int| 0 <= j < after.entries@.len() && (#[trigger] after.entries@[j]).0@ == k;
            if j < last {
                assert(before.entries@[j].0@ == k);
            }
        }
        if before.view().contains_key(k) {
            let j = choose|j: int| 0 <= j < before.entries@.len() && (#[trigger] before.entries@[j]).0@ == k;
            assert(after.entries@[j].0@ == k);
        }
        if k == n {
            assert(after.entries@[last].0@ == k);
        }
    }
    assert forall|k: Seq<char>| after.view().contains_key(k) implies after.view()[k] == before.view().insert(n, v)[k] by {
        let j = choose|j: int| 0 <= j < after.entries@.len() && (#[trigger] after.entries@[j]).0@ == k;
        if k == n {
            assert(after.entries@[last].0@ == k);
        } else {
            assert(j != last);
            assert(before.entries@[j].0@ == k);
            let j2 = choose|j: int| 0 <= j < before.entries@.len() && (#[trigger] before.entries@[j]).0@ == k;
            assert(after.entries@[j2].0@ == k);
        }
    }
    assert(after.view() =~= before.view().insert(n, v));
}

} // verus!
