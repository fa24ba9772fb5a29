//! Slot storage for signals, effects and refs, with generation-checked
//! signal slots, free lists, and the two-sided subscriber/dependency links.
use vstd::prelude::*;
use crate::seqs::{no_dup, contains_id, without_id, insert_id};

verus! {

/// Largest slot count: every id must stay below the detached sentinel.
pub const MAX_SLOTS: u32 = 0xFFFF_FFFE;

/// Id that names no slot (the detached `Default` handle).
pub const DETACHED: u32 = 0xFFFF_FFFF;

/// The generation a slot takes when it is freed (wrapping).
pub open spec fn next_gen(g: u32) -> u32 {
    if g == 0xFFFF_FFFFu32 { 0 } else { (g + 1) as u32 }
}

/// What ref slot `id` holds: the handle once filled, else nothing.
pub open spec fn ref_contents<V>(refs: Seq<Option<Option<V>>>, id: u32) -> Option<V> {
    if id < refs.len() {
        match refs[id as int] {
            Some(Some(v)) => Some(v),
            _ => None,
        }
    } else {
        None
    }
}

/// Number of occupied entries.
pub open spec fn count_some<T>(s: Seq<Option<T>>) -> nat
    decreases s.len(),
{
    if s.len() == 0 {
        0
    } else {
        count_some(s.drop_last()) + if s.last() is Some { 1nat } else { 0nat }
    }
}

/// Number of live effect slots.
pub open spec fn count_live<V, B>(s: Seq<EffectSlot<V, B>>) -> nat
    decreases s.len(),
{
    if s.len() == 0 {
        0
    } else {
        count_live(s.drop_last()) + if s.last().live { 1nat } else { 0nat }
    }
}

/// Sum of the lengths of the inner lists.
pub open spec fn total_len(s: Seq<Vec<u32>>) -> nat
    decreases s.len(),
{
    if s.len() == 0 {
        0
    } else {
        total_len(s.drop_last()) + s.last()@.len()
    }
}

/// What a run of an effect does around its body.
#[derive(Clone)]
pub enum EffectKind<V> {
    /// Run the body with tracking on.
    Plain,
    /// Recompute a derived value; write it to `out` only when it differs
    /// from `last` (by `==`, or by the body's own answer when `custom_eq`).
    Memo { out_id: u32, out_gen: u32, last: V, custom_eq: bool },
    /// Track exactly `deps`, then run the body untracked with the new and
    /// previous values; with `defer`, skip the body on the first run.
    On { dep_ids: Vec<u32>, dep_gens: Vec<u32>, prev: Option<Vec<V>>, defer: bool },
}

impl<V: Clone> EffectKind<V> {
    /// A copy of this kind (values cloned), of the same variant.
    pub fn copy(&self) -> (k: EffectKind<V>)
        ensures
            (k is Plain) == (self is Plain),
            (k is On) == (self is On),
            self is On ==> k->dep_ids@ == self->dep_ids@ && k->dep_gens@ == self->dep_gens@
                && k->defer == self->defer && (k->prev is None <==> self->prev is None)
                && (self->prev is Some ==> cloned(self->prev->Some_0, k->prev->Some_0)),
    {
        match self {
            EffectKind::Plain => EffectKind::Plain,
            EffectKind::Memo { out_id, out_gen, last, custom_eq } =>
                EffectKind::Memo { out_id: *out_id, out_gen: *out_gen, last: last.clone(), custom_eq: *custom_eq },
            EffectKind::On { dep_ids, dep_gens, prev, defer } => {
                let i2 = dep_ids.clone();
                let g2 = dep_gens.clone();
                proof {
                    assert(i2@ =~= dep_ids@);
                    assert(g2@ =~= dep_gens@);
                }
                EffectKind::On { dep_ids: i2, dep_gens: g2, prev: prev.clone(), defer: *defer }
            },
        }
    }
}

/// Per-effect bookkeeping.
pub struct EffectSlot<V, B> {
    /// How a run of this effect is driven.
    pub kind: EffectKind<V>,
    /// The slot holds an effect (not freed).
    pub live: bool,
    /// The body; `None` while it runs (it is lent out) or once freed.
    pub body: Option<B>,
    /// Skip dependency clearing and tracking on re-runs.
    pub stable_deps: bool,
    /// Active-scope stack at creation, restored around each re-run.
    pub owners: Vec<u32>,
    /// Callbacks registered during the last run, fired before the next
    /// run and on disposal.
    pub cleanups: Vec<B>,
}

/// The slot tables.
pub struct Arena<V, B> {
    pub values: Vec<Option<V>>,
    pub gens: Vec<u32>,
    pub subs: Vec<Vec<u32>>,
    pub sig_free: Vec<u32>,
    pub effects: Vec<EffectSlot<V, B>>,
    pub deps: Vec<Vec<u32>>,
    pub eff_free: Vec<u32>,
    pub refs: Vec<Option<Option<V>>>,
    pub ref_free: Vec<u32>,
}

impl<V, B> Arena<V, B> {
    pub open spec fn n_signals(&self) -> nat {
        self.values@.len()
    }

    pub open spec fn n_effects(&self) -> nat {
        self.effects@.len()
    }

    /// Slot `id` holds a value and its generation is `gen`.
    pub open spec fn sig_live(&self, id: u32, gen: u32) -> bool {
        &&& id < self.values@.len()
        &&& self.gens@[id as int] == gen
        &&& self.values@[id as int] is Some
    }

    /// Current value of slot `id`.
    pub open spec fn sig_value(&self, id: u32) -> V {
        self.values@[id as int]->Some_0
    }

    /// Effects subscribed to signal slot `id`.
    pub open spec fn subscribers(&self, id: u32) -> Seq<u32> {
        self.subs@[id as int]@
    }

    /// Signals the effect read on its last run.
    pub open spec fn dependencies(&self, e: u32) -> Seq<u32> {
        self.deps@[e as int]@
    }

    pub open spec fn eff_live(&self, e: u32) -> bool {
        e < self.effects@.len() && self.effects@[e as int].live
    }

    pub open spec fn signals_wf(&self) -> bool {
        &&& self.gens@.len() == self.values@.len()
        &&& self.subs@.len() == self.values@.len()
        &&& self.values@.len() <= MAX_SLOTS
        &&& no_dup(self.sig_free@)
        &&& forall|k: int| 0 <= k < self.sig_free@.len() ==>
                (#[trigger] self.sig_free@[k]) < self.values@.len()
                && self.values@[self.sig_free@[k] as int] is None
    }

    pub open spec fn effects_wf(&self) -> bool {
        &&& self.deps@.len() == self.effects@.len()
        &&& self.effects@.len() <= MAX_SLOTS
        &&& no_dup(self.eff_free@)
        &&& forall|k: int| 0 <= k < self.eff_free@.len() ==>
                (#[trigger] self.eff_free@[k]) < self.effects@.len()
                && !self.effects@[self.eff_free@[k] as int].live
        &&& forall|e: int| 0 <= e < self.effects@.len() ==>
                no_dup(#[trigger] self.deps@[e]@)
        &&& forall|e: int| 0 <= e < self.effects@.len() && !(#[trigger] self.effects@[e]).live ==>
                self.deps@[e]@.len() == 0
        &&& forall|e: int, s: u32| 0 <= e < self.effects@.len() && #[trigger] self.deps@[e]@.contains(s) ==>
                s < self.values@.len()
    }

    /// Every subscriber link has its dependency link, and points at a live effect.
    pub open spec fn links_wf(&self) -> bool {
        &&& forall|s: int| 0 <= s < self.subs@.len() ==> no_dup(#[trigger] self.subs@[s]@)
        &&& forall|s: int, e: u32| 0 <= s < self.subs@.len() && #[trigger] self.subs@[s]@.contains(e) ==>
                e < self.effects@.len() && self.effects@[e as int].live
                && self.deps@[e as int]@.contains(s as u32)
    }

    pub open spec fn refs_wf(&self) -> bool {
        &&& self.refs@.len() <= MAX_SLOTS
        &&& no_dup(self.ref_free@)
        &&& forall|k: int| 0 <= k < self.ref_free@.len() ==>
                (#[trigger] self.ref_free@[k]) < self.refs@.len()
                && self.refs@[self.ref_free@[k] as int] is None
    }

    pub open spec fn wf(&self) -> bool {
        &&& self.signals_wf()
        &&& self.effects_wf()
        &&& self.links_wf()
        &&& self.refs_wf()
    }

    /// An empty arena.
    pub fn new() -> (a: Self)
        ensures
            a.wf(),
            a.n_signals() == 0,
            a.n_effects() == 0,
            a.refs@.len() == 0,
    {
        Arena {
            values: Vec::new(),
            gens: Vec::new(),
            subs: Vec::new(),
            sig_free: Vec::new(),
            effects: Vec::new(),
            deps: Vec::new(),
            eff_free: Vec::new(),
            refs: Vec::new(),
            ref_free: Vec::new(),
        }
    }

    /// Room for one more signal: a freed slot to recycle or space to grow.
    pub open spec fn can_insert_signal(&self) -> bool {
        self.sig_free@.len() > 0 || self.values@.len() < MAX_SLOTS
    }

    /// Store `value` in a recycled slot (last freed first) or a new one.
    /// Returns the slot id and the generation to stamp into the handle.
    pub fn insert_signal(&mut self, value: V) -> (r: (u32, u32))
        requires
            old(self).wf(),
            old(self).can_insert_signal(),
        ensures
            final(self).wf(),
            final(self).sig_live(r.0, r.1),
            final(self).sig_value(r.0) == value,
            final(self).subscribers(r.0).len() == 0,
            old(self).sig_free@.len() > 0 ==> r.0 == old(self).sig_free@.last()
                && r.1 == old(self).gens@[r.0 as int]
                && final(self).n_signals() == old(self).n_signals(),
            old(self).sig_free@.len() == 0 ==> r.0 == old(self).n_signals() && r.1 == 0
                && final(self).n_signals() == old(self).n_signals() + 1,
            old(self).values@[r.0 as int] is None || r.0 == old(self).n_signals(),
            forall|s: int| 0 <= s < old(self).n_signals() && s != r.0 ==>
                final(self).values@[s] == old(self).values@[s]
                && final(self).gens@[s] == old(self).gens@[s]
                && final(self).subs@[s] == old(self).subs@[s],
            final(self).effects == old(self).effects,
            final(self).deps == old(self).deps,
            final(self).refs == old(self).refs,
            final(self).ref_free == old(self).ref_free,
            final(self).eff_free == old(self).eff_free,
    {
        if self.sig_free.len() > 0 {
            let idx = self.sig_free.pop().unwrap();
            proof {
                assert(old(self).sig_free@[old(self).sig_free@.len() - 1] == idx);
                assert(self.sig_free@ == old(self).sig_free@.drop_last());
                assert forall|k: int| 0 <= k < self.sig_free@.len() implies self.sig_free@[k] != idx by {
                    assert(old(self).sig_free@[k] != old(self).sig_free@[old(self).sig_free@.len() - 1]);
                }
            }
            self.values.set(idx as usize, Some(value));
            self.subs.set(idx as usize, Vec::new());
            let g = self.gens[idx as usize];
            proof {
                assert forall|s: int, e: u32| 0 <= s < self.subs@.len() && #[trigger] self.subs@[s]@.contains(e) implies
                    e < self.effects@.len() && self.effects@[e as int].live
                    && self.deps@[e as int]@.contains(s as u32) by {
                    if s != idx {
                        assert(old(self).subs@[s]@.contains(e));
                    }
                }
            }
            (idx, g)
        } else {
            let idx = self.values.len() as u32;
            self.values.push(Some(value));
            self.gens.push(0);
            self.subs.push(Vec::new());
            proof {
                assert forall|s: int, e: u32| 0 <= s < self.subs@.len() && #[trigger] self.subs@[s]@.contains(e) implies
                    e < self.effects@.len() && self.effects@[e as int].live
                    && self.deps@[e as int]@.contains(s as u32) by {
                    if s != idx {
                        assert(old(self).subs@[s]@.contains(e));
                    }
                }
                assert forall|e: int, s: u32| 0 <= e < self.effects@.len() && #[trigger] self.deps@[e]@.contains(s) implies
                    s < self.values@.len() by {
                    assert(old(self).deps@[e]@.contains(s));
                }
            }
            (idx, 0)
        }
    }

    /// Free signal slot `id`: drop its subscriber set, take its value out,
    /// advance its generation (so outstanding handles turn stale) and put
    /// the id on the free list. A slot that is already empty is left as is
    /// apart from its subscriber set.
    pub fn free_signal(&mut self, id: u32) -> (taken: Option<V>)
        requires
            old(self).wf(),
            id < old(self).n_signals(),
        ensures
            final(self).wf(),
            taken == old(self).values@[id as int],
            final(self).values@[id as int] is None,
            final(self).subscribers(id).len() == 0,
            taken is Some ==> final(self).gens@[id as int] == next_gen(old(self).gens@[id as int])
                && final(self).sig_free@ == old(self).sig_free@.push(id),
            taken is None ==> final(self).gens@[id as int] == old(self).gens@[id as int]
                && final(self).sig_free@ == old(self).sig_free@,
            final(self).n_signals() == old(self).n_signals(),
            forall|s: int| #![trigger final(self).values@[s]] #![trigger final(self).gens@[s]] #![trigger final(self).subs@[s]]
                0 <= s < old(self).n_signals() && s != id ==>
                final(self).values@[s] == old(self).values@[s]
                && final(self).gens@[s] == old(self).gens@[s]
                && final(self).subs@[s] == old(self).subs@[s],
            final(self).effects == old(self).effects,
            final(self).deps == old(self).deps,
            final(self).refs == old(self).refs,
            final(self).ref_free == old(self).ref_free,
            final(self).eff_free == old(self).eff_free,
    {
        self.subs.set(id as usize, Vec::new());
        proof {
            assert forall|s: int, e: u32| 0 <= s < self.subs@.len() && #[trigger] self.subs@[s]@.contains(e) implies
                e < self.effects@.len() && self.effects@[e as int].live
                && self.deps@[e as int]@.contains(s as u32) by {
                if s != id {
                    assert(old(self).subs@[s]@.contains(e));
                }
            }
        }
        let taken = self.values[id as usize].take();
        if taken.is_some() {
            let g = self.gens[id as usize];
            let ng = if g == 0xFFFF_FFFFu32 { 0u32 } else { g + 1 };
            self.gens.set(id as usize, ng);
            proof {
                assert(!self.sig_free@.contains(id)) by {
                    if self.sig_free@.contains(id) {
                        let k = choose|k: int| 0 <= k < self.sig_free@.len() && self.sig_free@[k] == id;
                        assert(old(self).values@[self.sig_free@[k] as int] is None);
                    }
                }
            }
            let ghost fl = self.sig_free@;
            self.sig_free.push(id);
            proof {
                assert forall|i: int, j: int| 0 <= i < self.sig_free@.len() && 0 <= j < self.sig_free@.len() && i != j
                    implies self.sig_free@[i] != self.sig_free@[j] by {
                    if i < fl.len() && j < fl.len() {
                    } else if i < fl.len() {
                        assert(fl[i] == self.sig_free@[i]);
                        assert(fl.contains(fl[i]));
                    } else {
                        assert(fl[j] == self.sig_free@[j]);
                        assert(fl.contains(fl[j]));
                    }
                }
            }
        }
        taken
    }

    /// Record that effect `e` read signal slot `s` (both directions).
    pub fn link(&mut self, e: u32, s: u32)
        requires
            old(self).wf(),
            old(self).eff_live(e),
            s < old(self).n_signals(),
        ensures
            final(self).wf(),
            final(self).subscribers(s).contains(e),
            final(self).dependencies(e).contains(s),
            forall|x: u32| #[trigger] final(self).subscribers(s).contains(x) <==>
                (old(self).subscribers(s).contains(x) || x == e),
            forall|x: u32| #[trigger] final(self).dependencies(e).contains(x) <==>
                (old(self).dependencies(e).contains(x) || x == s),
            forall|t: int| 0 <= t < old(self).n_signals() && t != s ==> final(self).subs@[t] == old(self).subs@[t],
            forall|f: int| 0 <= f < old(self).n_effects() && f != e ==> final(self).deps@[f] == old(self).deps@[f],
            final(self).values == old(self).values,
            final(self).gens == old(self).gens,
            final(self).sig_free == old(self).sig_free,
            final(self).effects == old(self).effects,
            final(self).eff_free == old(self).eff_free,
            final(self).refs == old(self).refs,
            final(self).ref_free == old(self).ref_free,
    {
        let mut sv = self.subs[s as usize].clone();
        insert_id(&mut sv, e);
        self.subs.set(s as usize, sv);
        let mut dv = self.deps[e as usize].clone();
        insert_id(&mut dv, s);
        self.deps.set(e as usize, dv);
        proof {
            assert(self.subs@[s as int]@.contains(e));
            assert(self.deps@[e as int]@.contains(s));
            assert forall|t: int, x: u32| 0 <= t < self.subs@.len() && #[trigger] self.subs@[t]@.contains(x) implies
                x < self.effects@.len() && self.effects@[x as int].live
                && self.deps@[x as int]@.contains(t as u32) by {
                if t != s {
                    assert(old(self).subs@[t]@.contains(x));
                } else if x != e {
                    assert(old(self).subs@[t]@.contains(x));
                }
                if x != e {
                    assert(self.deps@[x as int] == old(self).deps@[x as int]);
                }
            }
            assert forall|f: int, t: u32| 0 <= f < self.effects@.len() && #[trigger] self.deps@[f]@.contains(t) implies
                t < self.values@.len() by {
                if f != e || t != s {
                    assert(old(self).deps@[f]@.contains(t));
                }
            }
            assert forall|f: int| 0 <= f < self.effects@.len() implies no_dup(#[trigger] self.deps@[f]@) by {
                if f != e { assert(self.deps@[f] == old(self).deps@[f]); }
            }
            assert forall|t: int| 0 <= t < self.subs@.len() implies no_dup(#[trigger] self.subs@[t]@) by {
                if t != s { assert(self.subs@[t] == old(self).subs@[t]); }
            }
        }
    }

    /// Drop every link of effect `e`: remove it from each signal it read
    /// and empty its dependency set.
    pub fn unsubscribe(&mut self, e: u32)
        requires
            old(self).wf(),
            e < old(self).n_effects(),
        ensures
            final(self).wf(),
            final(self).dependencies(e).len() == 0,
            forall|s: int, x: u32| 0 <= s < final(self).subs@.len() ==>
                (#[trigger] final(self).subs@[s]@.contains(x) <==> (old(self).subs@[s]@.contains(x) && x != e)),
            forall|f: int| 0 <= f < old(self).n_effects() && f != e ==> final(self).deps@[f] == old(self).deps@[f],
            final(self).subs@.len() == old(self).subs@.len(),
            final(self).values == old(self).values,
            final(self).gens == old(self).gens,
            final(self).sig_free == old(self).sig_free,
            final(self).effects == old(self).effects,
            final(self).eff_free == old(self).eff_free,
            final(self).refs == old(self).refs,
            final(self).ref_free == old(self).ref_free,
    {
        let d = self.deps[e as usize].clone();
        let mut i: usize = 0;
        while i < d.len()
            invariant
                self.wf(),
                e < self.n_effects(),
                d@ == old(self).deps@[e as int]@,
                self.deps == old(self).deps,
                0 <= i <= d@.len(),
                self.subs@.len() == old(self).subs@.len(),
                forall|s: int, x: u32| 0 <= s < self.subs@.len() ==>
                    (#[trigger] self.subs@[s]@.contains(x) <==> (old(self).subs@[s]@.contains(x)
                        && !(x == e && d@.subrange(0, i as int).contains(s as u32)))),
                self.values == old(self).values,
                self.gens == old(self).gens,
                self.sig_free == old(self).sig_free,
                self.effects == old(self).effects,
                self.eff_free == old(self).eff_free,
                self.refs == old(self).refs,
                self.ref_free == old(self).ref_free,
            decreases d@.len() - i,
        {
            let s = d[i];
            proof {
                assert(d@.contains(s));
                assert(self.deps@[e as int]@.contains(s));
                assert(d@.subrange(0, i + 1) == d@.subrange(0, i as int).push(s));
            }
            let ghost before = self.subs@;
            let nv = without_id(&self.subs[s as usize], e);
            self.subs.set(s as usize, nv);
            proof {
                assert forall|t: int, x: u32| 0 <= t < self.subs@.len() implies
                    (#[trigger] self.subs@[t]@.contains(x) <==> (old(self).subs@[t]@.contains(x)
                        && !(x == e && d@.subrange(0, i + 1).contains(t as u32)))) by {
                    if t == s {
                        let pre = d@.subrange(0, i as int);
                        assert(d@.subrange(0, i + 1) == pre.push(s));
                        assert(pre.push(s)[pre.len() as int] == s);
                        assert(pre.push(s).contains(s));
                        assert(before[t]@.contains(x) <==> (old(self).subs@[t]@.contains(x)
                            && !(x == e && pre.contains(t as u32))));
                    } else {
                        let pre = d@.subrange(0, i as int);
                        assert(d@.subrange(0, i + 1) == pre.push(s));
                        assert(pre.push(s).contains(t as u32) <==> pre.contains(t as u32)) by {
                            if pre.push(s).contains(t as u32) {
                                let k = choose|k: int| 0 <= k < pre.len() + 1 && #[trigger] pre.push(s)[k] == t as u32;
                                if k < pre.len() {
                                    assert(pre[k] == t as u32);
                                }
                            }
                            if pre.contains(t as u32) {
                                let k = choose|k: int| 0 <= k < pre.len() && #[trigger] pre[k] == t as u32;
                                assert(pre.push(s)[k] == t as u32);
                            }
                        }
                    }
                }
                assert forall|t: int| 0 <= t < self.subs@.len() implies no_dup(#[trigger] self.subs@[t]@) by {
                    if t != s { }
                }
            }
            i = i + 1;
        }
        proof {
            assert(d@.subrange(0, d@.len() as int) == d@);
        }
        self.deps.set(e as usize, Vec::new());
        proof {
            assert forall|s: int, x: u32| 0 <= s < self.subs@.len() implies
                (#[trigger] self.subs@[s]@.contains(x) <==> (old(self).subs@[s]@.contains(x) && x != e)) by {
                if old(self).subs@[s]@.contains(x) && x == e {
                    assert(old(self).deps@[e as int]@.contains(s as u32));
                }
            }
            assert forall|s: int, x: u32| 0 <= s < self.subs@.len() && #[trigger] self.subs@[s]@.contains(x) implies
                x < self.effects@.len() && self.effects@[x as int].live
                && self.deps@[x as int]@.contains(s as u32) by {
                assert(old(self).subs@[s]@.contains(x));
            }
            assert forall|f: int, t: u32| 0 <= f < self.effects@.len() && #[trigger] self.deps@[f]@.contains(t) implies
                t < self.values@.len() by {
                assert(old(self).deps@[f]@.contains(t));
            }
            assert forall|f: int| 0 <= f < self.effects@.len() implies no_dup(#[trigger] self.deps@[f]@) by {
                if f != e { assert(self.deps@[f] == old(self).deps@[f]); }
            }
        }
    }

    pub open spec fn can_insert_effect(&self) -> bool {
        self.eff_free@.len() > 0 || self.effects@.len() < MAX_SLOTS
    }

    /// Store a new effect (recycling the last freed id first). It starts
    /// with no dependencies, no cleanups and the given owner stack.
    pub fn insert_effect(&mut self, body: B, owners: Vec<u32>, kind: EffectKind<V>) -> (id: u32)
        requires
            old(self).wf(),
            old(self).can_insert_effect(),
        ensures
            final(self).wf(),
            final(self).eff_live(id),
            !old(self).eff_live(id),
            final(self).effects@[id as int].body == Some(body),
            final(self).effects@[id as int].owners == owners,
            final(self).effects@[id as int].kind == kind,
            final(self).effects@[id as int].cleanups@.len() == 0,
            !final(self).effects@[id as int].stable_deps,
            final(self).dependencies(id).len() == 0,
            old(self).eff_free@.len() > 0 ==> id == old(self).eff_free@.last()
                && final(self).n_effects() == old(self).n_effects(),
            old(self).eff_free@.len() == 0 ==> id == old(self).n_effects()
                && final(self).n_effects() == old(self).n_effects() + 1,
            forall|f: int| 0 <= f < old(self).n_effects() && f != id ==>
                final(self).effects@[f] == old(self).effects@[f] && final(self).deps@[f] == old(self).deps@[f],
            final(self).values == old(self).values,
            final(self).gens == old(self).gens,
            final(self).subs == old(self).subs,
            final(self).sig_free == old(self).sig_free,
            final(self).refs == old(self).refs,
            final(self).ref_free == old(self).ref_free,
    {
        let slot = EffectSlot { kind, live: true, body: Some(body), stable_deps: false, owners, cleanups: Vec::new() };
        if self.eff_free.len() > 0 {
            let idx = self.eff_free.pop().unwrap();
            proof {
                assert(old(self).eff_free@[old(self).eff_free@.len() - 1] == idx);
                assert(self.eff_free@ == old(self).eff_free@.drop_last());
                assert forall|k: int| 0 <= k < self.eff_free@.len() implies self.eff_free@[k] != idx by {
                    assert(old(self).eff_free@[k] != old(self).eff_free@[old(self).eff_free@.len() - 1]);
                }
            }
            self.effects.set(idx as usize, slot);
            proof {
                assert forall|s: int, e: u32| 0 <= s < self.subs@.len() && #[trigger] self.subs@[s]@.contains(e) implies
                    e < self.effects@.len() && self.effects@[e as int].live
                    && self.deps@[e as int]@.contains(s as u32) by {
                    assert(old(self).subs@[s]@.contains(e));
                }
            }
            idx
        } else {
            let idx = self.effects.len() as u32;
            self.effects.push(slot);
            self.deps.push(Vec::new());
            proof {
                assert forall|s: int, e: u32| 0 <= s < self.subs@.len() && #[trigger] self.subs@[s]@.contains(e) implies
                    e < self.effects@.len() && self.effects@[e as int].live
                    && self.deps@[e as int]@.contains(s as u32) by {
                    assert(old(self).subs@[s]@.contains(e));
                }
                assert forall|f: int, t: u32| 0 <= f < self.effects@.len() && #[trigger] self.deps@[f]@.contains(t) implies
                    t < self.values@.len() by {
                    if f < old(self).effects@.len() {
                        assert(old(self).deps@[f]@.contains(t));
                    }
                }
                assert forall|f: int| 0 <= f < self.effects@.len() implies no_dup(#[trigger] self.deps@[f]@) by {
                    if f < old(self).effects@.len() { assert(self.deps@[f] == old(self).deps@[f]); }
                }
            }
            idx
        }
    }

    /// Free effect `e`: unlink it, mark the slot free and hand back its
    /// body (if it was not lent out) and its pending cleanups. `None` when
    /// the slot was already free.
    pub fn free_effect(&mut self, e: u32) -> (r: Option<(Option<B>, Vec<B>)>)
        requires
            old(self).wf(),
            e < old(self).n_effects(),
        ensures
            final(self).wf(),
            !final(self).eff_live(e),
            final(self).dependencies(e).len() == 0,
            r is Some <==> old(self).eff_live(e),
            r matches Some(p) ==> p.0 == old(self).effects@[e as int].body
                && p.1 == old(self).effects@[e as int].cleanups,
            old(self).eff_live(e) ==> final(self).eff_free@ == old(self).eff_free@.push(e),
            !old(self).eff_live(e) ==> final(self).eff_free@ == old(self).eff_free@,
            forall|s: int, x: u32| 0 <= s < final(self).subs@.len() ==>
                (#[trigger] final(self).subs@[s]@.contains(x) <==> (old(self).subs@[s]@.contains(x) && x != e)),
            forall|f: int| #![trigger final(self).effects@[f]] #![trigger final(self).deps@[f]]
                0 <= f < old(self).n_effects() && f != e ==>
                final(self).effects@[f] == old(self).effects@[f] && final(self).deps@[f] == old(self).deps@[f],
            final(self).n_effects() == old(self).n_effects(),
            final(self).subs@.len() == old(self).subs@.len(),
            final(self).values == old(self).values,
            final(self).gens == old(self).gens,
            final(self).sig_free == old(self).sig_free,
            final(self).refs == old(self).refs,
            final(self).ref_free == old(self).ref_free,
    {
        self.unsubscribe(e);
        if !self.effects[e as usize].live {
            return None;
        }
        let mut slot = EffectSlot { kind: EffectKind::Plain, live: false, body: None, stable_deps: false, owners: Vec::new(), cleanups: Vec::new() };
        std::mem::swap(&mut slot, &mut self.effects[e as usize]);
        proof {
            assert(!self.eff_free@.contains(e)) by {
                if self.eff_free@.contains(e) {
                    let k = choose|k: int| 0 <= k < self.eff_free@.len() && self.eff_free@[k] == e;
                    assert(!old(self).effects@[self.eff_free@[k] as int].live);
                }
            }
        }
        let ghost fl = self.eff_free@;
        self.eff_free.push(e);
        proof {
            assert forall|i: int, j: int| 0 <= i < self.eff_free@.len() && 0 <= j < self.eff_free@.len() && i != j
                implies self.eff_free@[i] != self.eff_free@[j] by {
                if i < fl.len() && j < fl.len() {
                } else if i < fl.len() {
                    assert(fl[i] == self.eff_free@[i]);
                    assert(fl.contains(fl[i]));
                } else {
                    assert(fl[j] == self.eff_free@[j]);
                    assert(fl.contains(fl[j]));
                }
            }
            assert forall|s: int, x: u32| 0 <= s < self.subs@.len() && #[trigger] self.subs@[s]@.contains(x) implies
                x < self.effects@.len() && self.effects@[x as int].live
                && self.deps@[x as int]@.contains(s as u32) by {
            }
        }
        Some((slot.body, slot.cleanups))
    }

    /// Lend the body of live effect `e` out for a run.
    pub fn take_body(&mut self, e: u32) -> (b: Option<B>)
        requires
            old(self).wf(),
            e < old(self).n_effects(),
        ensures
            final(self).wf(),
            b == old(self).effects@[e as int].body,
            final(self).effects@[e as int].body is None,
            final(self).effects@[e as int].live == old(self).effects@[e as int].live,
            final(self).effects@[e as int].owners == old(self).effects@[e as int].owners,
            final(self).effects@[e as int].kind == old(self).effects@[e as int].kind,
            final(self).effects@[e as int].cleanups == old(self).effects@[e as int].cleanups,
            final(self).effects@[e as int].stable_deps == old(self).effects@[e as int].stable_deps,
            forall|f: int| 0 <= f < old(self).n_effects() && f != e ==> final(self).effects@[f] == old(self).effects@[f],
            final(self).effects@.len() == old(self).effects@.len(),
            final(self).deps == old(self).deps,
            final(self).subs == old(self).subs,
            final(self).values == old(self).values,
            final(self).gens == old(self).gens,
            final(self).sig_free == old(self).sig_free,
            final(self).eff_free == old(self).eff_free,
            final(self).refs == old(self).refs,
            final(self).ref_free == old(self).ref_free,
    {
        let b = self.effects[e as usize].body.take();
        proof {
            assert forall|s: int, x: u32| 0 <= s < self.subs@.len() && #[trigger] self.subs@[s]@.contains(x) implies
                x < self.effects@.len() && self.effects@[x as int].live
                && self.deps@[x as int]@.contains(s as u32) by {
                assert(old(self).subs@[s]@.contains(x));
            }
        }
        b
    }

    /// Return a lent body to effect `e` if the slot is still live (an
    /// effect freed during its own run keeps its slot empty).
    pub fn restore_body(&mut self, e: u32, b: B) -> (kept: bool)
        requires
            old(self).wf(),
            e < old(self).n_effects(),
        ensures
            final(self).wf(),
            kept == old(self).effects@[e as int].live,
            kept ==> final(self).effects@[e as int].body == Some(b),
            !kept ==> final(self).effects@[e as int] == old(self).effects@[e as int],
            final(self).effects@[e as int].live == old(self).effects@[e as int].live,
            final(self).effects@[e as int].owners == old(self).effects@[e as int].owners,
            final(self).effects@[e as int].kind == old(self).effects@[e as int].kind,
            final(self).effects@[e as int].cleanups == old(self).effects@[e as int].cleanups,
            final(self).effects@[e as int].stable_deps == old(self).effects@[e as int].stable_deps,
            forall|f: int| 0 <= f < old(self).n_effects() && f != e ==> final(self).effects@[f] == old(self).effects@[f],
            final(self).effects@.len() == old(self).effects@.len(),
            final(self).deps == old(self).deps,
            final(self).subs == old(self).subs,
            final(self).values == old(self).values,
            final(self).gens == old(self).gens,
            final(self).sig_free == old(self).sig_free,
            final(self).eff_free == old(self).eff_free,
            final(self).refs == old(self).refs,
            final(self).ref_free == old(self).ref_free,
    {
        if !self.effects[e as usize].live {
            return false;
        }
        self.effects[e as usize].body = Some(b);
        proof {
            assert forall|s: int, x: u32| 0 <= s < self.subs@.len() && #[trigger] self.subs@[s]@.contains(x) implies
                x < self.effects@.len() && self.effects@[x as int].live
                && self.deps@[x as int]@.contains(s as u32) by {
                assert(old(self).subs@[s]@.contains(x));
            }
        }
        true
    }

    /// Take the pending cleanups of effect `e`, leaving none.
    pub fn take_cleanups(&mut self, e: u32) -> (c: Vec<B>)
        requires
            old(self).wf(),
            e < old(self).n_effects(),
        ensures
            final(self).wf(),
            c == old(self).effects@[e as int].cleanups,
            final(self).effects@[e as int].cleanups@.len() == 0,
            final(self).effects@[e as int].live == old(self).effects@[e as int].live,
            final(self).effects@[e as int].body == old(self).effects@[e as int].body,
            final(self).effects@[e as int].owners == old(self).effects@[e as int].owners,
            final(self).effects@[e as int].kind == old(self).effects@[e as int].kind,
            final(self).effects@[e as int].stable_deps == old(self).effects@[e as int].stable_deps,
            forall|f: int| 0 <= f < old(self).n_effects() && f != e ==> final(self).effects@[f] == old(self).effects@[f],
            final(self).effects@.len() == old(self).effects@.len(),
            final(self).deps == old(self).deps,
            final(self).subs == old(self).subs,
            final(self).values == old(self).values,
            final(self).gens == old(self).gens,
            final(self).sig_free == old(self).sig_free,
            final(self).eff_free == old(self).eff_free,
            final(self).refs == old(self).refs,
            final(self).ref_free == old(self).ref_free,
    {
        let mut c: Vec<B> = Vec::new();
        std::mem::swap(&mut c, &mut self.effects[e as usize].cleanups);
        proof {
            assert forall|s: int, x: u32| 0 <= s < self.subs@.len() && #[trigger] self.subs@[s]@.contains(x) implies
                x < self.effects@.len() && self.effects@[x as int].live
                && self.deps@[x as int]@.contains(s as u32) by {
                assert(old(self).subs@[s]@.contains(x));
            }
        }
        c
    }

    /// Attach a cleanup to live effect `e`.
    pub fn push_cleanup(&mut self, e: u32, cb: B)
        requires
            old(self).wf(),
            e < old(self).n_effects(),
        ensures
            final(self).wf(),
            final(self).effects@[e as int].cleanups@ == old(self).effects@[e as int].cleanups@.push(cb),
            final(self).effects@[e as int].live == old(self).effects@[e as int].live,
            final(self).effects@[e as int].body == old(self).effects@[e as int].body,
            final(self).effects@[e as int].owners == old(self).effects@[e as int].owners,
            final(self).effects@[e as int].kind == old(self).effects@[e as int].kind,
            final(self).effects@[e as int].stable_deps == old(self).effects@[e as int].stable_deps,
            forall|f: int| 0 <= f < old(self).n_effects() && f != e ==> final(self).effects@[f] == old(self).effects@[f],
            final(self).effects@.len() == old(self).effects@.len(),
            final(self).deps == old(self).deps,
            final(self).subs == old(self).subs,
            final(self).values == old(self).values,
            final(self).gens == old(self).gens,
            final(self).sig_free == old(self).sig_free,
            final(self).eff_free == old(self).eff_free,
            final(self).refs == old(self).refs,
            final(self).ref_free == old(self).ref_free,
    {
        self.effects[e as usize].cleanups.push(cb);
        proof {
            assert forall|s: int, x: u32| 0 <= s < self.subs@.len() && #[trigger] self.subs@[s]@.contains(x) implies
                x < self.effects@.len() && self.effects@[x as int].live
                && self.deps@[x as int]@.contains(s as u32) by {
                assert(old(self).subs@[s]@.contains(x));
            }
        }
    }

    /// Mark effect `e` as having a stable dependency set.
    pub fn set_stable(&mut self, e: u32)
        requires
            old(self).wf(),
            e < old(self).n_effects(),
        ensures
            final(self).wf(),
            final(self).effects@[e as int].stable_deps,
            final(self).effects@[e as int].live == old(self).effects@[e as int].live,
            final(self).effects@[e as int].body == old(self).effects@[e as int].body,
            final(self).effects@[e as int].owners == old(self).effects@[e as int].owners,
            final(self).effects@[e as int].kind == old(self).effects@[e as int].kind,
            final(self).effects@[e as int].cleanups == old(self).effects@[e as int].cleanups,
            forall|f: int| 0 <= f < old(self).n_effects() && f != e ==> final(self).effects@[f] == old(self).effects@[f],
            final(self).effects@.len() == old(self).effects@.len(),
            final(self).deps == old(self).deps,
            final(self).subs == old(self).subs,
            final(self).values == old(self).values,
            final(self).gens == old(self).gens,
            final(self).sig_free == old(self).sig_free,
            final(self).eff_free == old(self).eff_free,
            final(self).refs == old(self).refs,
            final(self).ref_free == old(self).ref_free,
    {
        self.effects[e as usize].stable_deps = true;
        proof {
            assert forall|s: int, x: u32| 0 <= s < self.subs@.len() && #[trigger] self.subs@[s]@.contains(x) implies
                x < self.effects@.len() && self.effects@[x as int].live
                && self.deps@[x as int]@.contains(s as u32) by {
                assert(old(self).subs@[s]@.contains(x));
            }
        }
    }

    /// Overwrite the value of occupied slot `id`, returning the old one.
    pub fn replace_value(&mut self, id: u32, v: V) -> (prev: V)
        requires
            old(self).wf(),
            id < old(self).n_signals(),
            old(self).values@[id as int] is Some,
        ensures
            final(self).wf(),
            prev == old(self).sig_value(id),
            final(self).values@ == old(self).values@.update(id as int, Some(v)),
            final(self).gens == old(self).gens,
            final(self).subs == old(self).subs,
            final(self).sig_free == old(self).sig_free,
            final(self).effects == old(self).effects,
            final(self).deps == old(self).deps,
            final(self).eff_free == old(self).eff_free,
            final(self).refs == old(self).refs,
            final(self).ref_free == old(self).ref_free,
    {
        let prev = self.values[id as usize].take().unwrap();
        self.values.set(id as usize, Some(v));
        proof {
            assert forall|k: int| 0 <= k < self.sig_free@.len() implies
                (#[trigger] self.sig_free@[k]) < self.values@.len()
                && self.values@[self.sig_free@[k] as int] is None by {
                assert(old(self).values@[self.sig_free@[k] as int] is None);
            }
        }
        prev
    }

    pub open spec fn can_insert_ref(&self) -> bool {
        self.ref_free@.len() > 0 || self.refs@.len() < MAX_SLOTS
    }

    /// Allocate an unfilled ref slot (last freed first).
    pub fn insert_ref(&mut self) -> (id: u32)
        requires
            old(self).wf(),
            old(self).can_insert_ref(),
        ensures
            final(self).wf(),
            id < final(self).refs@.len(),
            final(self).refs@ == old(self).refs@.update(id as int, Some(None))
                || (id == old(self).refs@.len() && final(self).refs@ == old(self).refs@.push(Some(None))),
            old(self).ref_free@.len() > 0 ==> id == old(self).ref_free@.last()
                && final(self).refs@ == old(self).refs@.update(id as int, Some(None)),
            old(self).ref_free@.len() == 0 ==> id == old(self).refs@.len()
                && final(self).refs@ == old(self).refs@.push(Some(None)),
            final(self).values == old(self).values,
            final(self).gens == old(self).gens,
            final(self).subs == old(self).subs,
            final(self).sig_free == old(self).sig_free,
            final(self).effects == old(self).effects,
            final(self).deps == old(self).deps,
            final(self).eff_free == old(self).eff_free,
    {
        if self.ref_free.len() > 0 {
            let idx = self.ref_free.pop().unwrap();
            proof {
                assert(old(self).ref_free@[old(self).ref_free@.len() - 1] == idx);
                assert(self.ref_free@ == old(self).ref_free@.drop_last());
                assert forall|k: int| 0 <= k < self.ref_free@.len() implies self.ref_free@[k] != idx by {
                    assert(old(self).ref_free@[k] != old(self).ref_free@[old(self).ref_free@.len() - 1]);
                }
            }
            self.refs.set(idx as usize, Some(None));
            idx
        } else {
            let idx = self.refs.len() as u32;
            self.refs.push(Some(None));
            idx
        }
    }

    /// Free ref slot `id`, returning what it held. Out-of-range or already
    /// free slots are left alone (`None`).
    pub fn free_ref(&mut self, id: u32) -> (taken: Option<Option<V>>)
        requires
            old(self).wf(),
        ensures
            final(self).wf(),
            (id < old(self).refs@.len() && old(self).refs@[id as int] is Some) ==>
                taken == old(self).refs@[id as int]
                && final(self).refs@ == old(self).refs@.update(id as int, None)
                && final(self).ref_free@ == old(self).ref_free@.push(id),
            !(id < old(self).refs@.len() && old(self).refs@[id as int] is Some) ==>
                taken is None && final(self).refs@ == old(self).refs@ && final(self).ref_free == old(self).ref_free,
            final(self).values == old(self).values,
            final(self).gens == old(self).gens,
            final(self).subs == old(self).subs,
            final(self).sig_free == old(self).sig_free,
            final(self).effects == old(self).effects,
            final(self).deps == old(self).deps,
            final(self).eff_free == old(self).eff_free,
    {
        if id as usize >= self.refs.len() {
            return None;
        }
        let taken = self.refs[id as usize].take();
        proof {
            if taken is None {
                assert(self.refs@ =~= old(self).refs@);
            }
        }
        if taken.is_some() {
            proof {
                assert(!self.ref_free@.contains(id)) by {
                    if self.ref_free@.contains(id) {
                        let k = choose|k: int| 0 <= k < self.ref_free@.len() && self.ref_free@[k] == id;
                        assert(old(self).refs@[self.ref_free@[k] as int] is None);
                    }
                }
            }
            let ghost fl = self.ref_free@;
            self.ref_free.push(id);
            proof {
                assert forall|i: int, j: int| 0 <= i < self.ref_free@.len() && 0 <= j < self.ref_free@.len() && i != j
                    implies self.ref_free@[i] != self.ref_free@[j] by {
                    if i < fl.len() && j < fl.len() {
                    } else if i < fl.len() {
                        assert(fl[i] == self.ref_free@[i]);
                        assert(fl.contains(fl[i]));
                    } else {
                        assert(fl[j] == self.ref_free@[j]);
                        assert(fl.contains(fl[j]));
                    }
                }
            }
        }
        taken
    }

    /// Put `handle` into allocated ref slot `id`; no-op for a free or
    /// out-of-range slot.
    pub fn fill_ref(&mut self, id: u32, handle: V)
        requires
            old(self).wf(),
        ensures
            final(self).wf(),
            (id < old(self).refs@.len() && old(self).refs@[id as int] is Some) ==>
                final(self).refs@ == old(self).refs@.update(id as int, Some(Some(handle))),
            !(id < old(self).refs@.len() && old(self).refs@[id as int] is Some) ==>
                final(self).refs == old(self).refs,
            final(self).ref_free == old(self).ref_free,
            final(self).values == old(self).values,
            final(self).gens == old(self).gens,
            final(self).subs == old(self).subs,
            final(self).sig_free == old(self).sig_free,
            final(self).effects == old(self).effects,
            final(self).deps == old(self).deps,
            final(self).eff_free == old(self).eff_free,
    {
        if (id as usize) < self.refs.len() && self.refs[id as usize].is_some() {
            self.refs.set(id as usize, Some(Some(handle)));
        }
    }

    /// Empty allocated ref slot `id` (it stays allocated).
    pub fn clear_ref(&mut self, id: u32)
        requires
            old(self).wf(),
        ensures
            final(self).wf(),
            (id < old(self).refs@.len() && old(self).refs@[id as int] is Some) ==>
                final(self).refs@ == old(self).refs@.update(id as int, Some(None)),
            !(id < old(self).refs@.len() && old(self).refs@[id as int] is Some) ==>
                final(self).refs == old(self).refs,
            final(self).ref_free == old(self).ref_free,
            final(self).values == old(self).values,
            final(self).gens == old(self).gens,
            final(self).subs == old(self).subs,
            final(self).sig_free == old(self).sig_free,
            final(self).effects == old(self).effects,
            final(self).deps == old(self).deps,
            final(self).eff_free == old(self).eff_free,
    {
        if (id as usize) < self.refs.len() && self.refs[id as usize].is_some() {
            self.refs.set(id as usize, Some(None));
        }
    }

    /// The handle in ref slot `id`, if allocated and filled.
    pub fn ref_handle(&self, id: u32) -> (h: Option<&V>)
        ensures
            h is Some <==> ref_contents(self.refs@, id) is Some,
            h matches Some(x) ==> *x == ref_contents(self.refs@, id)->Some_0,
    {
        if (id as usize) < self.refs.len() {
            match &self.refs[id as usize] {
                Some(Some(v)) => Some(v),
                _ => None,
            }
        } else {
            None
        }
    }

    /// Occupied signal slots.
    pub fn signals_in_use(&self) -> (n: usize)
        ensures
            n == count_some(self.values@),
    {
        let mut n: usize = 0;
        let mut i: usize = 0;
        while i < self.values.len()
            invariant
                0 <= i <= self.values@.len(),
                n == count_some(self.values@.take(i as int)),
                n <= i,
            decreases self.values@.len() - i,
        {
            proof {
                assert(self.values@.take(i + 1).drop_last() == self.values@.take(i as int));
            }
            if self.values[i].is_some() {
                n = n + 1;
            }
            i = i + 1;
        }
        proof {
            assert(self.values@.take(self.values@.len() as int) == self.values@);
        }
        n
    }

    /// Live effect slots.
    pub fn effects_in_use(&self) -> (n: usize)
        ensures
            n == count_live(self.effects@),
    {
        let mut n: usize = 0;
        let mut i: usize = 0;
        while i < self.effects.len()
            invariant
                0 <= i <= self.effects@.len(),
                n == count_live(self.effects@.take(i as int)),
                n <= i,
            decreases self.effects@.len() - i,
        {
            proof {
                assert(self.effects@.take(i + 1).drop_last() == self.effects@.take(i as int));
            }
            if self.effects[i].live {
                n = n + 1;
            }
            i = i + 1;
        }
        proof {
            assert(self.effects@.take(self.effects@.len() as int) == self.effects@);
        }
        n
    }

    /// Allocated ref slots.
    pub fn refs_in_use(&self) -> (n: usize)
        ensures
            n == count_some(self.refs@),
    {
        let mut n: usize = 0;
        let mut i: usize = 0;
        while i < self.refs.len()
            invariant
                0 <= i <= self.refs@.len(),
                n == count_some(self.refs@.take(i as int)),
                n <= i,
            decreases self.refs@.len() - i,
        {
            proof {
                assert(self.refs@.take(i + 1).drop_last() == self.refs@.take(i as int));
            }
            if self.refs[i].is_some() {
                n = n + 1;
            }
            i = i + 1;
        }
        proof {
            assert(self.refs@.take(self.refs@.len() as int) == self.refs@);
        }
        n
    }

    /// Sum of the sizes of the given link lists, saturating at `usize::MAX`.
    pub fn total_links(lists: &Vec<Vec<u32>>) -> (n: usize)
        ensures
            n == if total_len(lists@) <= usize::MAX { total_len(lists@) } else { usize::MAX as nat },
    {
        let mut n: usize = 0;
        let mut sat = false;
        let mut i: usize = 0;
        while i < lists.len()
            invariant
                0 <= i <= lists@.len(),
                !sat ==> n == total_len(lists@.take(i as int)),
                sat ==> n == usize::MAX && total_len(lists@.take(i as int)) > usize::MAX,
            decreases lists@.len() - i,
        {
            proof {
                assert(lists@.take(i + 1).drop_last() == lists@.take(i as int));
                assert(lists@.take(i + 1).last() == lists@[i as int]);
            }
            let l = lists[i].len();
            if !sat {
                if n <= usize::MAX - l {
                    n = n + l;
                } else {
                    n = usize::MAX;
                    sat = true;
                }
            }
            i = i + 1;
        }
        proof {
            assert(lists@.take(lists@.len() as int) == lists@);
        }
        n
    }

    /// Replace the run kind of effect `e`.
    pub fn set_kind(&mut self, e: u32, kind: EffectKind<V>)
        requires
            old(self).wf(),
            e < old(self).n_effects(),
        ensures
            final(self).wf(),
            final(self).effects@[e as int].kind == kind,
            final(self).effects@[e as int].live == old(self).effects@[e as int].live,
            final(self).effects@[e as int].body == old(self).effects@[e as int].body,
            final(self).effects@[e as int].owners == old(self).effects@[e as int].owners,
            final(self).effects@[e as int].cleanups == old(self).effects@[e as int].cleanups,
            final(self).effects@[e as int].stable_deps == old(self).effects@[e as int].stable_deps,
            forall|f: int| 0 <= f < old(self).n_effects() && f != e ==> final(self).effects@[f] == old(self).effects@[f],
            final(self).effects@.len() == old(self).effects@.len(),
            final(self).deps == old(self).deps,
            final(self).subs == old(self).subs,
            final(self).values == old(self).values,
            final(self).gens == old(self).gens,
            final(self).sig_free == old(self).sig_free,
            final(self).eff_free == old(self).eff_free,
            final(self).refs == old(self).refs,
            final(self).ref_free == old(self).ref_free,
    {
        self.effects[e as usize].kind = kind;
        proof {
            assert forall|s: int, x: u32| 0 <= s < self.subs@.len() && #[trigger] self.subs@[s]@.contains(x) implies
                x < self.effects@.len() && self.effects@[x as int].live
                && self.deps@[x as int]@.contains(s as u32) by {
                assert(old(self).subs@[s]@.contains(x));
            }
        }
    }

    /// Move the value out of occupied slot `id` (the slot is left empty
    /// until `put_value`).
    pub fn take_value(&mut self, id: u32) -> (v: V)
        requires
            old(self).wf(),
            id < old(self).n_signals(),
            old(self).values@[id as int] is Some,
        ensures
            final(self).wf(),
            v == old(self).sig_value(id),
            final(self).values@ == old(self).values@.update(id as int, None),
            final(self).gens == old(self).gens,
            final(self).subs == old(self).subs,
            final(self).sig_free == old(self).sig_free,
            final(self).effects == old(self).effects,
            final(self).deps == old(self).deps,
            final(self).eff_free == old(self).eff_free,
            final(self).refs == old(self).refs,
            final(self).ref_free == old(self).ref_free,
    {
        let v = self.values[id as usize].take().unwrap();
        proof {
            assert forall|k: int| 0 <= k < self.sig_free@.len() implies
                (#[trigger] self.sig_free@[k]) < self.values@.len()
                && self.values@[self.sig_free@[k] as int] is None by {
                assert(old(self).values@[self.sig_free@[k] as int] is None);
            }
        }
        v
    }

    /// Store `v` in slot `id`, which must not be on the free list.
    pub fn put_value(&mut self, id: u32, v: V)
        requires
            old(self).wf(),
            id < old(self).n_signals(),
            !old(self).sig_free@.contains(id),
        ensures
            final(self).wf(),
            final(self).values@ == old(self).values@.update(id as int, Some(v)),
            final(self).gens == old(self).gens,
            final(self).subs == old(self).subs,
            final(self).sig_free == old(self).sig_free,
            final(self).effects == old(self).effects,
            final(self).deps == old(self).deps,
            final(self).eff_free == old(self).eff_free,
            final(self).refs == old(self).refs,
            final(self).ref_free == old(self).ref_free,
    {
        self.values.set(id as usize, Some(v));
        proof {
            assert forall|k: int| 0 <= k < self.sig_free@.len() implies
                (#[trigger] self.sig_free@[k]) < self.values@.len()
                && self.values@[self.sig_free@[k] as int] is None by {
                assert(self.sig_free@[k] != id);
                assert(old(self).values@[self.sig_free@[k] as int] is None);
            }
        }
    }
}


/// A freed slot's generation moves on, so a handle minted before the free
/// is refused even after the slot is recycled: recycling keeps the
/// generation the free set.
pub proof fn law_recycled_slot_rejects_stale_handle<V, B>(a0: Arena<V, B>, a1: Arena<V, B>, a2: Arena<V, B>, id: u32, gen: u32)
    requires
        a0.sig_live(id, gen),
        a1.gens@[id as int] == next_gen(a0.gens@[id as int]),
        a2.gens@[id as int] == a1.gens@[id as int],
    ensures
        !a2.sig_live(id, gen),
{
}

} // verus!
