//! A table keyed by text whose entries can be walked by position.

use vstd::hash_map::StringHashMap;
use vstd::prelude::*;

verus! {

/// A map from texts to values. Each entry has a slot, so that the entries can
/// be visited one after another; removing an entry moves the last one into its
/// slot.
pub struct PathTable<V> {
    slots: Vec<(String, V)>,
    index: StringHashMap<usize>,
}

impl<V> View for PathTable<V> {
    type V = Map<Seq<char>, V>;

    closed spec fn view(&self) -> Map<Seq<char>, V> {
        Map::new(
            |k: Seq<char>| self.index@.contains_key(k),
            |k: Seq<char>| self.slots@[self.index@[k] as int].1,
        )
    }
}

impl<V> PathTable<V> {
    /// The index and the slots agree: every indexed key has its own slot, and
    /// every slot is indexed.
    pub closed spec fn wf(&self) -> bool {
        &&& forall|k: Seq<char>| #[trigger]
            self.index@.contains_key(k) ==> self.index@[k] < self.slots@.len()
                && self.slots@[self.index@[k] as int].0@ == k
        &&& forall|i: int|
            0 <= i < self.slots@.len() ==> self.index@.contains_key((#[trigger] self.slots@[i]).0@)
                && self.index@[self.slots@[i].0@] == i
    }

    /// The keys in slot order.
    pub closed spec fn keys(&self) -> Seq<Seq<char>> {
        self.slots@.map_values(|e: (String, V)| e.0@)
    }

    /// The slots hold each key of the table, and each of them once.
    pub proof fn lemma_keys(&self)
        requires
            self.wf(),
        ensures
            forall|i: int| 0 <= i < self.keys().len() ==> self@.contains_key(#[trigger] self.keys()[i]),
            forall|k: Seq<char>| self@.contains_key(k) ==> self.keys().contains(k),
            self.keys().no_duplicates(),
    {
        assert forall|k: Seq<char>| self@.contains_key(k) implies self.keys().contains(k) by {
            assert(self.index@.contains_key(k));
            assert(self.keys()[self.index@[k] as int] == k);
        }
        assert forall|i: int| 0 <= i < self.keys().len() implies self@.contains_key(
            #[trigger] self.keys()[i],
        ) by {
            assert(self.index@.contains_key(self.slots@[i].0@));
        }
        assert forall|i: int, j: int|
            0 <= i < self.keys().len() && 0 <= j < self.keys().len() && i
                != j implies self.keys()[i] != self.keys()[j] by {
            assert(self.index@[self.slots@[i].0@] == i);
            assert(self.index@[self.slots@[j].0@] == j);
        }
    }

    /// A table without entries.
    pub fn new() -> (t: Self)
        ensures
            t.wf(),
            t@ == Map::<Seq<char>, V>::empty(),
            t.keys().len() == 0,
    {
        let t = PathTable { slots: Vec::new(), index: StringHashMap::new() };
        assert(t@ =~= Map::<Seq<char>, V>::empty());
        t
    }

    /// The number of entries.
    pub fn len(&self) -> (n: usize)
        ensures
            n == self.keys().len(),
    {
        self.slots.len()
    }

    /// Whether the table has no entry.
    pub fn is_empty(&self) -> (r: bool)
        requires
            self.wf(),
        ensures
            r == (self@ == Map::<Seq<char>, V>::empty()),
    {
        proof {
            self.lemma_keys();
            if self.slots@.len() == 0 {
                assert(self@ =~= Map::<Seq<char>, V>::empty());
            } else {
                assert(self@.contains_key(self.keys()[0]));
            }
        }
        self.slots.len() == 0
    }

    /// The key in slot `i`.
    pub fn key_at(&self, i: usize) -> (k: &String)
        requires
            i < self.keys().len(),
        ensures
            k@ == self.keys()[i as int],
    {
        &self.slots[i].0
    }

    /// Whether `k` has an entry.
    pub fn contains_key(&self, k: &str) -> (r: bool)
        ensures
            r == self@.contains_key(k@),
    {
        self.index.contains_key(k)
    }

    /// The value of `k`.
    pub fn get(&self, k: &str) -> (r: Option<&V>)
        requires
            self.wf(),
        ensures
            match r {
                Some(v) => self@.contains_key(k@) && *v == self@[k@],
                None => !self@.contains_key(k@),
            },
    {
        match self.index.get(k) {
            Some(i) => Some(&self.slots[*i].1),
            None => None,
        }
    }

    /// Gives `k` the value `v`, whether it had one before or not.
    pub fn insert(&mut self, k: String, v: V)
        requires
            old(self).wf(),
        ensures
            final(self).wf(),
            final(self)@ == old(self)@.insert(k@, v),
            old(self)@.contains_key(k@) ==> final(self).keys() == old(self).keys(),
            !old(self)@.contains_key(k@) ==> final(self).keys() == old(self).keys().push(k@),
            final(self)@.contains_key(k@) && final(self)@[k@] == v,
            forall|p: Seq<char>|
                p != k@ ==> (#[trigger] final(self)@.contains_key(p) <==> old(self)@.contains_key(p)),
            forall|p: Seq<char>|
                p != k@ && #[trigger] old(self)@.contains_key(p) ==> final(self)@[p] == old(self)@[p],
    {
        let found: Option<usize> = match self.index.get(k.as_str()) {
            Some(i) => Some(*i),
            None => None,
        };
        match found {
            Some(i) => {
                self.slots.set(i, (k, v));
                assert(self.keys() =~= old(self).keys());
            },
            None => {
                let at: usize = self.slots.len();
                self.index.insert(k.clone(), at);
                self.slots.push((k, v));
                assert(self.keys() =~= old(self).keys().push(k@));
            },
        }
        assert(self@ =~= old(self)@.insert(k@, v));
    }

    /// Takes the entry in slot `i` out.
    pub fn remove_at(&mut self, i: usize) -> (v: V)
        requires
            old(self).wf(),
            i < old(self).keys().len(),
        ensures
            final(self).wf(),
            old(self)@.contains_key(old(self).keys()[i as int]),
            v == old(self)@[old(self).keys()[i as int]],
            final(self)@ == old(self)@.remove(old(self).keys()[i as int]),
            final(self).keys() == old(self).keys().update(
                i as int,
                old(self).keys().last(),
            ).drop_last(),
    {
        proof {
            self.lemma_keys();
        }
        let ghost before = *self;
        let ghost gone = self.slots@[i as int].0@;
        let last: usize = self.slots.len() - 1;
        let ghost moved = self.slots@[last as int].0@;
        assert(before.index@[gone] == i);
        assert(before.index@[moved] == last);
        let moved_key = self.slots[last].0.clone();
        let (gone_key, value) = self.slots.swap_remove(i);
        self.index.insert(moved_key, i);
        self.index.remove(gone_key.as_str());
        assert(self.slots@ =~= before.slots@.update(i as int, before.slots@.last()).drop_last());
        assert forall|k: Seq<char>| #[trigger] self.index@.contains_key(k) implies self.index@[k]
            < self.slots@.len() && self.slots@[self.index@[k] as int].0@ == k by {
            assert(before.index@.contains_key(k));
            if k != moved {
                assert(before.index@[k] != i);
                assert(before.index@[k] != last);
            }
        }
        assert forall|j: int| 0 <= j < self.slots@.len() implies self.index@.contains_key(
            (#[trigger] self.slots@[j]).0@,
        ) && self.index@[self.slots@[j].0@] == j by {
            if j == i {
                assert(self.slots@[j].0@ == moved);
                assert(moved != gone);
            } else {
                assert(self.slots@[j] == before.slots@[j]);
                assert(before.index@[before.slots@[j].0@] == j);
            }
        }
        assert(self@ =~= before@.remove(gone)) by {
            assert forall|k: Seq<char>| before@.remove(gone).contains_key(k) implies self@[k]
                == before@[k] by {
                assert(before.index@.contains_key(k));
                if k == moved {
                    assert(self.index@[k] == i);
                } else {
                    assert(before.index@[k] != i);
                    assert(before.index@[k] != last);
                }
            }
        }
        assert(self.keys() =~= before.keys().update(i as int, before.keys().last()).drop_last());
        value
    }

    /// Takes the entry of `k` out.
    pub fn remove(&mut self, k: &str) -> (r: Option<V>)
        requires
            old(self).wf(),
        ensures
            final(self).wf(),
            final(self)@ == old(self)@.remove(k@),
            match r {
                Some(v) => old(self)@.contains_key(k@) && v == old(self)@[k@],
                None => !old(self)@.contains_key(k@),
            },
            !final(self)@.contains_key(k@),
            forall|p: Seq<char>|
                p != k@ ==> (#[trigger] final(self)@.contains_key(p) <==> old(self)@.contains_key(p)),
            forall|p: Seq<char>|
                p != k@ && #[trigger] old(self)@.contains_key(p) ==> final(self)@[p] == old(self)@[p],
    {
        let found: Option<usize> = match self.index.get(k) {
            Some(i) => Some(*i),
            None => None,
        };
        match found {
            Some(i) => {
                assert(self.keys()[i as int] == k@);
                Some(self.remove_at(i))
            },
            None => {
                assert(self@.remove(k@) =~= self@);
                None
            },
        }
    }

    /// Takes every entry out.
    pub fn clear(&mut self)
        ensures
            final(self).wf(),
            final(self)@ == Map::<Seq<char>, V>::empty(),
            final(self).keys().len() == 0,
    {
        self.slots.clear();
        self.index.clear();
        assert(self@ =~= Map::<Seq<char>, V>::empty());
    }
}

} // verus!
