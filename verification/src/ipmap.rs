//! A small insertion-ordered map keyed by IPv4 address (host byte order).

use vstd::prelude::*;

verus! {

/// Map from IPv4 address to `V` that remembers the order in which keys
/// were first inserted.
pub struct IpMap<V> {
    keys: Vec<u32>,
    vals: Vec<V>,
}

impl<V> IpMap<V> {
    /// Keys and values are paired index by index and no key occurs twice.
    pub closed spec fn wf(&self) -> bool {
        &&& self.keys@.len() == self.vals@.len()
        &&& self.keys@.no_duplicates()
    }

    /// The keys in insertion order.
    pub closed spec fn key_seq(&self) -> Seq<u32> {
        self.keys@
    }

    /// The values, in the order of `key_seq`.
    pub closed spec fn val_seq(&self) -> Seq<V> {
        self.vals@
    }

    /// The map this value stands for.
    pub open spec fn view(&self) -> Map<u32, V> {
        Map::new(
            |k: u32| self.key_seq().contains(k),
            |k: u32| self.val_seq()[self.key_seq().index_of(k)],
        )
    }

    /// Relates the map to the two sequences it is read from.
    pub proof fn lemma_view(&self)
        requires
            self.wf(),
        ensures
            self.key_seq().len() == self.val_seq().len(),
            self.key_seq().no_duplicates(),
            self@.dom().finite(),
            self@.dom() == self.key_seq().to_set(),
            self@.len() == self.key_seq().len(),
            forall|i: int|
                0 <= i < self.key_seq().len() ==> self@.contains_key(#[trigger] self.key_seq()[i])
                    && self@[self.key_seq()[i]] == self.val_seq()[i],
            forall|k: u32| #[trigger]
                self@.contains_key(k) ==> 0 <= self.key_seq().index_of(k) < self.key_seq().len()
                    && self.key_seq()[self.key_seq().index_of(k)] == k,
    {
        let ks = self.key_seq();
        assert(self@.dom() =~= ks.to_set());
        ks.unique_seq_to_set();
        assert forall|i: int| 0 <= i < ks.len() implies self@.contains_key(#[trigger] ks[i])
            && self@[ks[i]] == self.val_seq()[i] by {
            assert(ks.contains(ks[i]));
            let j = ks.index_of(ks[i]);
            assert(ks[j] == ks[i]);
        }
    }

    pub fn new() -> (m: Self)
        ensures
            m.wf(),
            m@ == Map::<u32, V>::empty(),
            m.key_seq() == Seq::<u32>::empty(),
    {
        let m = IpMap { keys: Vec::new(), vals: Vec::new() };
        assert(m@ =~= Map::<u32, V>::empty());
        m
    }

    pub fn len(&self) -> (n: usize)
        requires
            self.wf(),
        ensures
            n == self@.len(),
            n == self.key_seq().len(),
    {
        proof {
            self.lemma_view();
        }
        self.keys.len()
    }

    /// Position of `key` in insertion order, if it is present.
    pub fn position(&self, key: u32) -> (r: Option<usize>)
        requires
            self.wf(),
        ensures
            r is Some <==> self@.contains_key(key),
            r matches Some(i) ==> i < self.key_seq().len() && self.key_seq()[i as int] == key,
    {
        let mut i: usize = 0;
        while i < self.keys.len()
            invariant
                i <= self.keys@.len(),
                forall|j: int| 0 <= j < i ==> self.keys@[j] != key,
            decreases self.keys@.len() - i,
        {
            if self.keys[i] == key {
                assert(self.keys@.contains(key));
                return Some(i);
            }
            i += 1;
        }
        None
    }

    pub fn contains_key(&self, key: u32) -> (b: bool)
        requires
            self.wf(),
        ensures
            b == self@.contains_key(key),
    {
        self.position(key).is_some()
    }

    pub fn get(&self, key: u32) -> (r: Option<&V>)
        requires
            self.wf(),
        ensures
            r is Some <==> self@.contains_key(key),
            r matches Some(v) ==> *v == self@[key],
    {
        match self.position(key) {
            Some(i) => {
                proof {
                    self.lemma_view();
                }
                Some(&self.vals[i])
            },
            None => None,
        }
    }

    /// The key at position `i` of the insertion order.
    pub fn key_at(&self, i: usize) -> (k: u32)
        requires
            self.wf(),
            i < self.key_seq().len(),
        ensures
            k == self.key_seq()[i as int],
            self@.contains_key(k),
    {
        proof {
            self.lemma_view();
        }
        self.keys[i]
    }

    /// The value at position `i` of the insertion order.
    pub fn value_at(&self, i: usize) -> (v: &V)
        requires
            self.wf(),
            i < self.key_seq().len(),
        ensures
            *v == self.val_seq()[i as int],
            *v == self@[self.key_seq()[i as int]],
    {
        proof {
            self.lemma_view();
        }
        &self.vals[i]
    }

    /// Binds `key` to `value`. A key that is already present keeps its
    /// place in the order; a new key goes to the end.
    pub fn insert(&mut self, key: u32, value: V)
        requires
            old(self).wf(),
        ensures
            final(self).wf(),
            final(self)@ == old(self)@.insert(key, value),
            old(self)@.contains_key(key) ==> final(self).key_seq() == old(self).key_seq(),
            !old(self)@.contains_key(key) ==> final(self).key_seq() == old(self).key_seq().push(key),
    {
        let ghost before = *self;
        proof {
            before.lemma_view();
        }
        match self.position(key) {
            Some(i) => {
                self.vals.set(i, value);
                proof {
                    self.lemma_view();
                    assert(self@ =~= before@.insert(key, value)) by {
                        assert forall|k: u32| self@.contains_key(k) implies #[trigger] self@[k]
                            == before@.insert(key, value)[k] by {
                            let j = self.keys@.index_of(k);
                            assert(self.keys@[j] == k);
                        }
                    }
                }
            },
            None => {
                self.keys.push(key);
                self.vals.push(value);
                proof {
                    assert(self.keys@.no_duplicates()) by {
                        assert forall|a: int, b: int|
                            0 <= a < self.keys@.len() && 0 <= b < self.keys@.len() && a
                                != b implies self.keys@[a] != self.keys@[b] by {
                            if a < before.keys@.len() {
                                assert(before.keys@.contains(before.keys@[a]));
                            }
                            if b < before.keys@.len() {
                                assert(before.keys@.contains(before.keys@[b]));
                            }
                        }
                    }
                    self.lemma_view();
                    assert(self@ =~= before@.insert(key, value)) by {
                        assert forall|k: u32| before@.insert(key, value).contains_key(k) implies
                            self@.contains_key(k) by {
                            if k == key {
                                assert(self.keys@[before.keys@.len() as int] == key);
                            } else {
                                let j = before.keys@.index_of(k);
                                assert(self.keys@[j] == k);
                            }
                        }
                        assert forall|k: u32| self@.contains_key(k) implies before@.insert(
                            key,
                            value,
                        ).contains_key(k) && #[trigger] self@[k] == before@.insert(key, value)[k] by {
                            let j = self.keys@.index_of(k);
                            assert(self.keys@[j] == k);
                            if j < before.keys@.len() {
                                assert(before.keys@[j] == k);
                                assert(before.keys@.contains(k));
                            }
                        }
                    }
                }
            },
        }
    }

    /// Unbinds `key`; the remaining keys keep their relative order.
    pub fn remove(&mut self, key: u32) -> (was_present: bool)
        requires
            old(self).wf(),
        ensures
            final(self).wf(),
            was_present == old(self)@.contains_key(key),
            final(self)@ == old(self)@.remove(key),
            !was_present ==> final(self).key_seq() == old(self).key_seq(),
            was_present ==> final(self).key_seq() == old(self).key_seq().remove(
                old(self).key_seq().index_of(key),
            ),
    {
        let ghost before = *self;
        proof {
            before.lemma_view();
        }
        match self.position(key) {
            Some(i) => {
                self.keys.remove(i);
                self.vals.remove(i);
                proof {
                    assert(before.keys@.index_of(key) == i as int);
                    assert(self.keys@.no_duplicates()) by {
                        assert forall|a: int, b: int|
                            0 <= a < self.keys@.len() && 0 <= b < self.keys@.len() && a
                                != b implies self.keys@[a] != self.keys@[b] by {
                            let a0 = if a < i { a } else { a + 1 };
                            let b0 = if b < i { b } else { b + 1 };
                            assert(self.keys@[a] == before.keys@[a0]);
                            assert(self.keys@[b] == before.keys@[b0]);
                        }
                    }
                    self.lemma_view();
                    assert(self@ =~= before@.remove(key)) by {
                        assert forall|k: u32| before@.remove(key).contains_key(k) implies
                            self@.contains_key(k) by {
                            let j = before.keys@.index_of(k);
                            assert(before.keys@[j] == k);
                            let j1 = if j < i { j } else { j - 1 };
                            assert(self.keys@[j1] == k);
                        }
                        assert forall|k: u32| self@.contains_key(k) implies before@.remove(
                            key,
                        ).contains_key(k) && #[trigger] self@[k] == before@.remove(key)[k] by {
                            let j = self.keys@.index_of(k);
                            assert(self.keys@[j] == k);
                            let j0 = if j < i { j } else { j + 1 };
                            assert(before.keys@[j0] == k);
                            assert(before.keys@.contains(k));
                        }
                    }
                }
                true
            },
            None => {
                assert(self@ =~= before@.remove(key));
                false
            },
        }
    }
}

} // verus!
