//! A value that is either fixed or recomputed on each read.
use vstd::prelude::*;
use crate::reactive::state::Signal;
use crate::reactive::runtime::{Reaction, Runtime};

verus! {

/// Either a fixed value or a computation read anew on every `get`.
pub enum Reactive<T, D> {
    Static(T),
    Dynamic(D),
}

impl<T, D> Reactive<T, D> {
    /// A value recomputed by `f` on each read.
    pub fn derive(f: D) -> (r: Self)
        ensures
            r == Reactive::<T, D>::Dynamic(f),
    {
        Reactive::Dynamic(f)
    }

    /// Whether the value is fixed.
    pub fn is_static(&self) -> (b: bool)
        ensures
            b == self is Static,
    {
        match self {
            Reactive::Static(_) => true,
            Reactive::Dynamic(_) => false,
        }
    }
}

impl<T: Clone, D: Fn() -> T> Reactive<T, D> {
    /// The current value: a copy of the fixed one, or a fresh computation.
    pub fn get(&self) -> (r: T)
        requires
            self matches Reactive::Dynamic(f) ==> f.requires(()),
        ensures
            self matches Reactive::Static(v) ==> cloned(*v, r),
            self matches Reactive::Dynamic(f) ==> f.ensures((), r),
    {
        match self {
            Reactive::Static(v) => v.clone(),
            Reactive::Dynamic(f) => f(),
        }
    }

    /// A closure producing the value on each call.
    pub fn into_closure(self) -> (c: impl Fn() -> T)
        requires
            self matches Reactive::Dynamic(f) ==> f.requires(()),
        ensures
            c.requires(()),
            forall|r: T| #[trigger] c.ensures((), r) ==> match self {
                Reactive::Static(v) => cloned(v, r),
                Reactive::Dynamic(f) => f.ensures((), r),
            },
    {
        move || -> (r: T)
            requires
                self matches Reactive::Dynamic(f) ==> f.requires(()),
            ensures
                match self {
                    Reactive::Static(v) => cloned(v, r),
                    Reactive::Dynamic(f) => f.ensures((), r),
                },
        { self.get() }
    }
}

impl<T> Reactive<T, Signal> {
    /// A value read from signal `sig` on every `read`.
    pub fn from_signal(sig: Signal) -> (r: Self)
        ensures
            r == Reactive::<T, Signal>::Dynamic(sig),
    {
        Reactive::Dynamic(sig)
    }
}

impl<V: Clone + PartialEq> Reactive<V, Signal> {
    /// The current value: a copy of the fixed one, or the signal's value,
    /// read so that the running effect (if any) subscribes to it.
    pub fn read<B: Reaction<V>>(&self, rt: &mut Runtime<V, B>) -> (r: V)
        requires
            self matches Reactive::Dynamic(s) ==> old(rt).state().live(*s),
        ensures
            self matches Reactive::Static(v) ==> cloned(*v, r) && *final(rt) == *old(rt),
            self matches Reactive::Dynamic(s) ==> {
                &&& cloned(old(rt).state().arena.sig_value(s.id), r)
                &&& final(rt).state().arena.values == old(rt).state().arena.values
                &&& (old(rt).state().current is Some && old(rt).state().arena.eff_live(old(rt).state().current->Some_0) ==>
                        final(rt).state().arena.subscribers(s.id).contains(old(rt).state().current->Some_0))
                &&& (!(old(rt).state().current is Some && old(rt).state().arena.eff_live(old(rt).state().current->Some_0)) ==>
                        final(rt).state().arena == old(rt).state().arena)
            },
    {
        match self {
            Reactive::Static(v) => v.clone(),
            Reactive::Dynamic(s) => s.get(rt),
        }
    }
}

impl<T, D> From<T> for Reactive<T, D> {
    fn from(v: T) -> (r: Self) {
        Reactive::Static(v)
    }
}

impl<T, D> vstd::std_specs::convert::FromSpecImpl<T> for Reactive<T, D> {
    open spec fn obeys_from_spec() -> bool {
        true
    }

    open spec fn from_spec(v: T) -> Self {
        Reactive::Static(v)
    }
}

impl<T: Default, D> Default for Reactive<T, D> {
    /// The fixed default value.
    fn default() -> (r: Self)
        ensures
            r is Static,
    {
        Reactive::Static(T::default())
    }
}

} // verus!
