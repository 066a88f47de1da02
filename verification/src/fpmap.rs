//! A map keyed by 64-bit fingerprints, held as a vector of entries in
//! strictly ascending key order, so that walking the entries visits the
//! fingerprints in their natural total order and is deterministic across
//! runs on the same input.

use vstd::prelude::*;

verus! {

#[derive(Debug)]
pub struct FpMap<V> {
    entries: Vec<(u64, V)>,
}

impl<V> View for FpMap<V> {
    type V = Map<u64, V>;

    closed spec fn view(&self) -> Map<u64, V> {
        Map::new(
            |k: u64| exists|i: int| 0 <= i < self.entries@.len() && self.entries@[i].0 == k,
            |k: u64| self.entries@[self.key_index(k)].1,
        )
    }
}

impl<V> FpMap<V> {
    /// The entries as they stand, in walking order.
    pub closed spec fn entry_seq(&self) -> Seq<(u64, V)> {
        self.entries@
    }

    /// The position of a key among the entries.
    closed spec fn key_index(&self, k: u64) -> int {
        choose|i: int| 0 <= i < self.entries@.len() && self.entries@[i].0 == k
    }

    /// Keys strictly ascend along the entry vector.
    pub open spec fn wf(&self) -> bool {
        forall|i: int, j: int|
            0 <= i < j < self.entry_seq().len() ==> (#[trigger] self.entry_seq()[i]).0 < (
            #[trigger] self.entry_seq()[j]).0
    }

    /// Each entry is in the map, under its own key.
    pub proof fn lemma_entry_at(&self, i: int)
        requires
            self.wf(),
            0 <= i < self.entry_seq().len(),
        ensures
            self@.contains_key(self.entry_seq()[i].0),
            self@[self.entry_seq()[i].0] == self.entry_seq()[i].1,
    {
        let k = self.entry_seq()[i].0;
        assert(exists|j: int| 0 <= j < self.entries@.len() && self.entries@[j].0 == k);
        let j = self.key_index(k);
        if j < i {
            assert(self.entry_seq()[j].0 < self.entry_seq()[i].0);
        } else if j > i {
            assert(self.entry_seq()[i].0 < self.entry_seq()[j].0);
        }
    }

    pub fn new() -> (m: Self)
        ensures
            m.wf(),
            m@ == Map::<u64, V>::empty(),
            m.entry_seq() == Seq::<(u64, V)>::empty(),
    {
        let m = FpMap { entries: Vec::new() };
        proof {
            assert(m@ =~= Map::<u64, V>::empty());
            assert(m.entry_seq() =~= Seq::<(u64, V)>::empty());
        }
        m
    }

    pub fn len(&self) -> (n: usize)
        ensures
            n == self.entry_seq().len(),
    {
        self.entries.len()
    }

    /// The entry at a position of the walking order.
    pub fn entry_at(&self, i: usize) -> (e: (u64, &V))
        requires
            self.wf(),
            i < self.entry_seq().len(),
        ensures
            e.0 == self.entry_seq()[i as int].0,
            *e.1 == self.entry_seq()[i as int].1,
            self@.contains_key(e.0),
            self@[e.0] == *e.1,
    {
        proof {
            self.lemma_entry_at(i as int);
        }
        let pair = &self.entries[i];
        (pair.0, &pair.1)
    }

    pub fn contains_key(&self, k: u64) -> (r: bool)
        ensures
            r == self@.contains_key(k),
    {
        let n = self.entries.len();
        let mut i: usize = 0;
        while i < n
            invariant
                0 <= i <= n,
                n == self.entries@.len(),
                forall|j: int| 0 <= j < i ==> (#[trigger] self.entries@[j]).0 != k,
            decreases n - i,
        {
            if self.entries[i].0 == k {
                return true;
            }
            i += 1;
        }
        false
    }

    pub fn get(&self, k: u64) -> (r: Option<&V>)
        requires
            self.wf(),
        ensures
            match r {
                Some(v) => self@.contains_key(k) && *v == self@[k],
                None => !self@.contains_key(k),
            },
    {
        let n = self.entries.len();
        let mut i: usize = 0;
        while i < n
            invariant
                0 <= i <= n,
                n == self.entries@.len(),
                self.wf(),
                forall|j: int| 0 <= j < i ==> (#[trigger] self.entries@[j]).0 != k,
            decreases n - i,
        {
            let pair = &self.entries[i];
            if pair.0 == k {
                proof {
                    self.lemma_entry_at(i as int);
                }
                return Some(&pair.1);
            }
            i += 1;
        }
        None
    }

    /// The first position whose key is not below `k`.
    fn lower_bound(&self, k: u64) -> (i: usize)
        requires
            self.wf(),
        ensures
            0 <= i <= self.entry_seq().len(),
            forall|j: int| 0 <= j < i ==> (#[trigger] self.entry_seq()[j]).0 < k,
            i < self.entry_seq().len() ==> self.entry_seq()[i as int].0 >= k,
    {
        let n = self.entries.len();
        let mut i: usize = 0;
        while i < n && self.entries[i].0 < k
            invariant
                0 <= i <= n,
                n == self.entries@.len(),
                forall|j: int| 0 <= j < i ==> (#[trigger] self.entries@[j]).0 < k,
            decreases n - i,
        {
            i += 1;
        }
        i
    }

    /// Adds an entry when the key is absent; an entry already under the key
    /// stays as it was.
    pub fn insert_if_absent(&mut self, k: u64, value: V)
        requires
            old(self).wf(),
        ensures
            final(self).wf(),
            old(self)@.contains_key(k) ==> final(self)@ == old(self)@ && final(self).entry_seq()
                == old(self).entry_seq(),
            !old(self)@.contains_key(k) ==> final(self)@ == old(self)@.insert(k, value),
            final(self)@.contains_key(k),
    {
        let i = self.lower_bound(k);
        if i < self.entries.len() && self.entries[i].0 == k {
            proof {
                self.lemma_entry_at(i as int);
            }
            return ;
        }
        proof {
            assert forall|j: int| i <= j < self.entries@.len() implies (
            #[trigger] self.entries@[j]).0 > k by {
                if j > i {
                    assert(self.entries@[i as int].0 < self.entries@[j].0);
                }
            }
            assert(!old(self)@.contains_key(k));
        }
        let ghost old_seq = self.entries@;
        self.entries.insert(i, (k, value));
        proof {
            old_seq.insert_ensures(i as int, (k, value));
            let new_seq = self.entries@;
            assert forall|a: int, b: int| 0 <= a < b < new_seq.len() implies (
            #[trigger] new_seq[a]).0 < (#[trigger] new_seq[b]).0 by {
                if b < i {
                    assert(new_seq[a] == old_seq[a] && new_seq[b] == old_seq[b]);
                } else if b == i {
                    assert(new_seq[a] == old_seq[a] && old_seq[a].0 < k);
                } else {
                    assert(new_seq[b] == old_seq[b - 1]);
                    if a < i {
                        assert(new_seq[a] == old_seq[a]);
                        if i <= b - 1 {
                            assert(old_seq[b - 1].0 > k);
                        }
                    } else if a == i {
                        assert(old_seq[b - 1].0 > k);
                    } else {
                        assert(new_seq[a] == old_seq[a - 1]);
                    }
                }
            }
            self.lemma_view_after_insert(old(self), i as int, k, value);
        }
    }

    /// After inserting an absent key at its sorted position, the map is the
    /// old map with that one binding added.
    proof fn lemma_view_after_insert(&self, prior: &Self, i: int, k: u64, value: V)
        requires
            prior.wf(),
            self.wf(),
            !prior@.contains_key(k),
            0 <= i <= prior.entry_seq().len(),
            self.entry_seq() == prior.entry_seq().insert(i, (k, value)),
        ensures
            self@ == prior@.insert(k, value),
    {
        let os = prior.entry_seq();
        let ns = self.entry_seq();
        os.insert_ensures(i, (k, value));
        assert forall|k2: u64| #[trigger] self@.contains_key(k2) implies prior@.insert(
            k,
            value,
        ).contains_key(k2) && self@[k2] == prior@.insert(k, value)[k2] by {
            let x = choose|x: int| 0 <= x < ns.len() && ns[x].0 == k2;
            self.lemma_entry_at(x);
            if x == i {
                assert(k2 == k);
                assert(prior@.insert(k, value)[k2] == value);
            } else if x < i {
                assert(ns[x] == os[x]);
                prior.lemma_entry_at(x);
                assert(k2 != k);
            } else {
                assert(ns[x] == os[x - 1]);
                prior.lemma_entry_at(x - 1);
                assert(k2 != k);
            }
        }
        assert forall|k2: u64| #[trigger] prior@.insert(k, value).contains_key(
            k2,
        ) implies self@.contains_key(k2) by {
            if k2 == k {
                assert(ns[i].0 == k);
                assert(0 <= i < ns.len() && ns[i].0 == k2);
            } else {
                assert(prior@.contains_key(k2));
                let y = choose|y: int| 0 <= y < os.len() && os[y].0 == k2;
                if y < i {
                    assert(ns[y] == os[y]);
                    assert(0 <= y < ns.len() && ns[y].0 == k2);
                } else {
                    assert(ns[y + 1] == os[y]);
                    assert(0 <= y + 1 < ns.len() && ns[y + 1].0 == k2);
                }
            }
        }
        assert(self@ =~= prior@.insert(k, value));
    }
}

} // verus!
