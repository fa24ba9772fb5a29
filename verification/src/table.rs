//! A small map from `u32` keys to values that keeps insertion order:
//! two parallel vectors, no key twice.
use vstd::prelude::*;

verus! {

/// Values by `u32` key, in the order the keys were first inserted.
pub struct KeyTable<T> {
    keys: Vec<u32>,
    vals: Vec<T>,
}

impl<T> KeyTable<T> {
    #[verifier::type_invariant]
    spec fn inv(self) -> bool {
        &&& self.keys@.len() == self.vals@.len()
        &&& forall|i: int, j: int| 0 <= i < self.keys@.len() && 0 <= j < self.keys@.len() && i != j ==>
                self.keys@[i] != self.keys@[j]
    }

    /// The keys, in order.
    pub closed spec fn keys(&self) -> Seq<u32> {
        self.keys@
    }

    /// The values, in the order of their keys.
    pub closed spec fn vals(&self) -> Seq<T> {
        self.vals@
    }

    /// The table as a map.
    pub closed spec fn view(&self) -> Map<u32, T> {
        Map::new(|k: u32| self.keys@.contains(k),
            |k: u32| self.vals@[choose|i: int| 0 <= i < self.keys@.len() && self.keys@[i] == k])
    }

    /// An empty table.
    pub fn new() -> (t: Self)
        ensures
            t@ == Map::<u32, T>::empty(),
            t.keys().len() == 0,
    {
        let t = KeyTable { keys: Vec::new(), vals: Vec::new() };
        proof { assert(t@ =~= Map::<u32, T>::empty()); }
        t
    }

    /// The number of keys. The keys and values line up, no key occurs
    /// twice, and the map is what they say.
    pub fn len(&self) -> (n: usize)
        ensures
            n == self.keys().len(),
            self.keys().len() == self.vals().len(),
            forall|i: int, j: int| 0 <= i < self.keys().len() && 0 <= j < self.keys().len() && i != j ==>
                self.keys()[i] != self.keys()[j],
            forall|k: u32| #[trigger] self@.dom().contains(k) <==> self.keys().contains(k),
            forall|i: int| 0 <= i < self.keys().len() ==> #[trigger] self@[self.keys()[i]] == self.vals()[i],
    {
        proof {
            use_type_invariant(self);
            assert forall|i: int| 0 <= i < self.keys().len() implies #[trigger] self@[self.keys()[i]] == self.vals()[i] by {
                let k = self.keys@[i];
                assert(self.keys@.contains(k));
                let j = choose|j: int| 0 <= j < self.keys@.len() && self.keys@[j] == k;
                assert(j == i);
            }
        }
        self.keys.len()
    }

    /// The `i`th key.
    pub fn key_at(&self, i: usize) -> (k: u32)
        requires
            i < self.keys().len(),
        ensures
            k == self.keys()[i as int],
    {
        self.keys[i]
    }

    /// The `i`th value.
    pub fn value_at(&self, i: usize) -> (v: &T)
        requires
            i < self.keys().len(),
        ensures
            *v == self.vals()[i as int],
    {
        proof { use_type_invariant(self); }
        &self.vals[i]
    }

    fn index_of(&self, key: u32) -> (r: Option<usize>)
        ensures
            r is Some <==> self.keys@.contains(key),
            r matches Some(i) ==> i < self.keys@.len() && self.keys@[i as int] == key,
    {
        let mut i: usize = 0;
        while i < self.keys.len()
            invariant
                0 <= i <= self.keys@.len(),
                forall|j: int| 0 <= j < i ==> self.keys@[j] != key,
            decreases self.keys@.len() - i,
        {
            if self.keys[i] == key {
                return Some(i);
            }
            i = i + 1;
        }
        None
    }

    /// The value under `key`.
    pub fn get(&self, key: u32) -> (r: Option<&T>)
        ensures
            r is Some <==> self@.dom().contains(key),
            r matches Some(v) ==> *v == self@[key],
    {
        proof { use_type_invariant(self); }
        match self.index_of(key) {
            Some(i) => Some(&self.vals[i]),
            None => None,
        }
    }

    /// Put `val` under `key`, in place of the value there if any (which
    /// keeps its position); a new key goes last.
    pub fn insert(&mut self, key: u32, val: T)
        ensures
            final(self)@ == old(self)@.insert(key, val),
            old(self)@.dom().contains(key) ==> final(self).keys() == old(self).keys(),
            !old(self)@.dom().contains(key) ==> final(self).keys() == old(self).keys().push(key),
    {
        proof { use_type_invariant(&*self); }
        match self.index_of(key) {
            Some(i) => {
                let mut whole = KeyTable { keys: Vec::new(), vals: Vec::new() };
                std::mem::swap(&mut whole, self);
                let KeyTable { keys, mut vals } = whole;
                vals.set(i, val);
                *self = KeyTable { keys, vals };
                proof {
                    assert forall|k: u32| #[trigger] self@.dom().contains(k) implies self@[k] == old(self)@.insert(key, val)[k] by {
                        let j = choose|j: int| 0 <= j < self.keys@.len() && self.keys@[j] == k;
                        if k == key {
                            assert(j == i);
                        } else {
                            let j0 = choose|j0: int| 0 <= j0 < old(self).keys@.len() && old(self).keys@[j0] == k;
                            assert(j0 == j);
                        }
                    }
                    assert(self@ =~= old(self)@.insert(key, val));
                }
            }
            None => {
                let ghost k0 = self.keys@;
                let mut whole = KeyTable { keys: Vec::new(), vals: Vec::new() };
                std::mem::swap(&mut whole, self);
                let KeyTable { mut keys, mut vals } = whole;
                keys.push(key);
                vals.push(val);
                proof {
                    assert forall|a: int, b: int| 0 <= a < keys@.len() && 0 <= b < keys@.len() && a != b implies keys@[a] != keys@[b] by {
                        if a < k0.len() && b < k0.len() {
                        } else if a < k0.len() {
                            assert(k0.contains(keys@[a]));
                        } else {
                            assert(k0.contains(keys@[b]));
                        }
                    }
                }
                *self = KeyTable { keys, vals };
                proof {
                    assert forall|k: u32| #[trigger] self@.dom().contains(k) implies self@[k] == old(self)@.insert(key, val)[k] by {
                        let j = choose|j: int| 0 <= j < self.keys@.len() && self.keys@[j] == k;
                        if k == key {
                            assert(j == k0.len());
                        } else {
                            assert(j < k0.len());
                            assert(k0[j] == k);
                            let j0 = choose|j0: int| 0 <= j0 < k0.len() && k0[j0] == k;
                            assert(j0 == j);
                        }
                    }
                    assert forall|k: u32| #[trigger] self@.dom().contains(k) <==> old(self)@.insert(key, val).dom().contains(k) by {
                        if k != key && old(self)@.dom().contains(k) {
                            let j0 = choose|j0: int| 0 <= j0 < k0.len() && k0[j0] == k;
                            assert(self.keys@[j0] == k);
                        }
                        if self@.dom().contains(k) && k != key {
                            let j = choose|j: int| 0 <= j < self.keys@.len() && self.keys@[j] == k;
                            assert(k0[j] == k);
                        }
                        if k == key { assert(self.keys@[k0.len() as int] == key); }
                    }
                    assert(self@ =~= old(self)@.insert(key, val));
                }
            }
        }
    }

    /// Take out the value under `key`, if any; the other keys keep their
    /// order.
    pub fn remove(&mut self, key: u32) -> (gone: Option<T>)
        ensures
            final(self)@ == old(self)@.remove(key),
            gone is Some <==> old(self)@.dom().contains(key),
            gone matches Some(v) ==> v == old(self)@[key],
    {
        proof { use_type_invariant(&*self); }
        match self.index_of(key) {
            None => {
                proof { assert(self@ =~= old(self)@.remove(key)); }
                None
            }
            Some(i) => {
                let mut whole = KeyTable { keys: Vec::new(), vals: Vec::new() };
                std::mem::swap(&mut whole, self);
                let KeyTable { mut keys, mut vals } = whole;
                let ghost k0 = keys@;
                let ghost v0 = vals@;
                let _ = keys.remove(i);
                let v = vals.remove(i);
                proof {
                    assert forall|a: int, b: int| 0 <= a < keys@.len() && 0 <= b < keys@.len() && a != b
                        implies keys@[a] != keys@[b] by {
                        let a0 = if a < i { a } else { a + 1 };
                        let b0 = if b < i { b } else { b + 1 };
                        assert(keys@[a] == k0[a0]);
                        assert(keys@[b] == k0[b0]);
                    }
                    assert(old(self)@[key] == v0[i as int]) by {
                        let j = choose|j: int| 0 <= j < k0.len() && k0[j] == key;
                        assert(j == i);
                    }
                }
                *self = KeyTable { keys, vals };
                proof {
                    assert forall|k: u32| #[trigger] self@.dom().contains(k) <==> old(self)@.remove(key).dom().contains(k) by {
                        if self@.dom().contains(k) {
                            let j = choose|j: int| 0 <= j < self.keys@.len() && self.keys@[j] == k;
                            let j0 = if j < i { j } else { j + 1 };
                            assert(k0[j0] == k);
                            assert(j0 != i);
                        }
                        if old(self)@.remove(key).dom().contains(k) {
                            let j0 = choose|j0: int| 0 <= j0 < k0.len() && k0[j0] == k;
                            assert(j0 != i);
                            let j = if j0 < i { j0 } else { j0 - 1 };
                            assert(self.keys@[j] == k);
                        }
                    }
                    assert forall|k: u32| #[trigger] self@.dom().contains(k) implies self@[k] == old(self)@.remove(key)[k] by {
                        let j = choose|j: int| 0 <= j < self.keys@.len() && self.keys@[j] == k;
                        let j0 = if j < i { j } else { j + 1 };
                        assert(k0[j0] == k);
                        let c0 = choose|c0: int| 0 <= c0 < k0.len() && k0[c0] == k;
                        assert(c0 == j0);
                    }
                    assert(self@ =~= old(self)@.remove(key));
                }
                Some(v)
            }
        }
    }
}

} // verus!
