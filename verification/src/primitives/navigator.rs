//! The navigator handler registry: one handler factory per navigator
//! type, keyed by the type's tag.
use vstd::prelude::*;

verus! {

/// Factories of navigator handlers, by navigator type tag.
pub struct NavigatorRegistry<F> {
    keys: Vec<u64>,
    factories: Vec<F>,
}

impl<F> NavigatorRegistry<F> {
    #[verifier::type_invariant]
    spec fn inv(self) -> bool {
        &&& self.keys@.len() == self.factories@.len()
        &&& forall|i: int, j: int| 0 <= i < self.keys@.len() && 0 <= j < self.keys@.len() && i != j ==>
                self.keys@[i] != self.keys@[j]
    }

    /// The registered factories by tag.
    pub closed spec fn view(&self) -> Map<u64, F> {
        Map::new(|k: u64| self.keys@.contains(k),
            |k: u64| self.factories@[choose|i: int| 0 <= i < self.keys@.len() && self.keys@[i] == k])
    }

    /// An empty registry.
    pub fn new() -> (r: Self)
        ensures
            r@ == Map::<u64, F>::empty(),
    {
        let r = NavigatorRegistry { keys: Vec::new(), factories: Vec::new() };
        proof { assert(r@ =~= Map::<u64, F>::empty()); }
        r
    }

    fn index_of(&self, key: u64) -> (r: Option<usize>)
        ensures
            r is Some <==> self.keys@.contains(key),
            r matches Some(i) ==> i < self.keys@.len() && self.keys@[i as int] == key,
    {
        let mut i: usize = 0;
        while i < self.keys.len()
            invariant
                0 <= i <= self.keys@.len(),
                forall|j: int| 0 <= j < i ==> self.keys@[j] != key,
            decreases self.keys@.len() - i,
        {
            if self.keys[i] == key {
                return Some(i);
            }
            i = i + 1;
        }
        None
    }

    /// Register `factory` for type tag `key`, handing back the factory it
    /// replaces.
    pub fn register(&mut self, key: u64, factory: F) -> (prev: Option<F>)
        ensures
            final(self)@ == old(self)@.insert(key, factory),
            prev == (if old(self)@.dom().contains(key) { Some(old(self)@[key]) } else { None }),
    {
        proof { use_type_invariant(&*self); }
        match self.index_of(key) {
            Some(i) => {
                let mut whole = NavigatorRegistry { keys: Vec::new(), factories: Vec::new() };
                std::mem::swap(&mut whole, self);
                let NavigatorRegistry { keys, mut factories } = whole;
                let ghost f0 = factories@;
                let mut slot = factory;
                std::mem::swap(&mut slot, &mut factories[i]);
                proof {
                    assert(old(self)@[key] == f0[i as int]) by {
                        let j = choose|j: int| 0 <= j < keys@.len() && keys@[j] == key;
                        assert(j == i);
                    }
                }
                *self = NavigatorRegistry { keys, factories };
                proof {
                    assert(self.factories@[i as int] == factory);
                    assert forall|k: u64| #[trigger] self@.dom().contains(k) implies self@[k] == old(self)@.insert(key, factory)[k] by {
                        let j = choose|j: int| 0 <= j < self.keys@.len() && self.keys@[j] == k;
                        if k == key {
                            assert(j == i);
                        } else {
                            assert(j != i);
                            assert(old(self).keys@[j] == k);
                            let j0 = choose|j0: int| 0 <= j0 < old(self).keys@.len() && old(self).keys@[j0] == k;
                            assert(j0 == j);
                        }
                    }
                    assert(self@ =~= old(self)@.insert(key, factory));
                }
                Some(slot)
            }
            None => {
                let ghost k0 = self.keys@;
                let ghost f0 = self.factories@;
                let mut whole = NavigatorRegistry { keys: Vec::new(), factories: Vec::new() };
                std::mem::swap(&mut whole, self);
                let NavigatorRegistry { mut keys, mut factories } = whole;
                keys.push(key);
                factories.push(factory);
                proof {
                    assert forall|a: int, b: int| 0 <= a < keys@.len() && 0 <= b < keys@.len() && a != b implies keys@[a] != keys@[b] by {
                        if a < k0.len() && b < k0.len() {
                        } else if a < k0.len() {
                            assert(k0.contains(keys@[a]));
                        } else {
                            assert(k0.contains(keys@[b]));
                        }
                    }
                }
                *self = NavigatorRegistry { keys, factories };
                proof {
                    assert forall|k: u64| #[trigger] self@.dom().contains(k) implies self@[k] == old(self)@.insert(key, factory)[k] by {
                        let j = choose|j: int| 0 <= j < self.keys@.len() && self.keys@[j] == k;
                        if k == key {
                            assert(j == k0.len());
                        } else {
                            assert(j < k0.len());
                            assert(k0[j] == k);
                            let j0 = choose|j0: int| 0 <= j0 < k0.len() && k0[j0] == k;
                            assert(j0 == j);
                        }
                    }
                    assert forall|k: u64| #[trigger] self@.dom().contains(k) <==> old(self)@.insert(key, factory).dom().contains(k) by {
                        if k != key && old(self)@.dom().contains(k) {
                            let j0 = choose|j0: int| 0 <= j0 < k0.len() && k0[j0] == k;
                            assert(self.keys@[j0] == k);
                        }
                        if self@.dom().contains(k) && k != key {
                            let j = choose|j: int| 0 <= j < self.keys@.len() && self.keys@[j] == k;
                            assert(k0[j] == k);
                        }
                        if k == key { assert(self.keys@[k0.len() as int] == key); }
                    }
                    assert(self@ =~= old(self)@.insert(key, factory));
                }
                None
            }
        }
    }

    /// The factory for type tag `key`.
    pub fn get(&self, key: u64) -> (r: Option<&F>)
        ensures
            r is Some <==> self@.dom().contains(key),
            r matches Some(f) ==> *f == self@[key],
    {
        proof { use_type_invariant(self); }
        match self.index_of(key) {
            Some(i) => Some(&self.factories[i]),
            None => None,
        }
    }

    /// Whether a factory is registered for type tag `key`.
    pub fn has(&self, key: u64) -> (b: bool)
        ensures
            b == self@.dom().contains(key),
    {
        self.index_of(key).is_some()
    }

    /// As `has`.
    pub fn has_id(&self, key: u64) -> (b: bool)
        ensures
            b == self@.dom().contains(key),
    {
        self.has(key)
    }
}

} // verus!
