//! Scope bookkeeping on the state machine: the active-scope stack, context
//! provision and lookup, cleanup placement, external notifiers.
use vstd::prelude::*;
use crate::reactive::state::{State, ScopeData};
use crate::reactive::arena::{MAX_SLOTS, next_gen};

verus! {

/// The first position of `raw` among the notifier ids.
pub open spec fn first_slot(ids: Seq<u64>, raw: u64) -> int {
    choose|i: int| 0 <= i < ids.len() && ids[i] == raw && forall|j: int| 0 <= j < i ==> ids[j] != raw
}

/// The notifier registered for slot `raw`: the one at its first position,
/// if any.
pub open spec fn notifier_of<V, B>(st: State<V, B>, raw: u64) -> Option<B> {
    if st.notifier_ids@.contains(raw) { st.notifiers@[first_slot(st.notifier_ids@, raw)] } else { None }
}

/// The first position is the one whose earlier ids all differ.
pub proof fn lemma_first_slot(ids: Seq<u64>, raw: u64, i: int)
    requires
        0 <= i < ids.len(),
        ids[i] == raw,
        forall|j: int| 0 <= j < i ==> ids[j] != raw,
    ensures
        first_slot(ids, raw) == i,
{
    let k = first_slot(ids, raw);
    assert(0 <= k < ids.len() && ids[k] == raw && forall|j: int| 0 <= j < k ==> ids[j] != raw);
    if k < i {
        assert(ids[k] != raw);
    }
    if i < k {
        assert(ids[i] != raw);
    }
}


/// The last value provided under `key` in `ctx`, if any.
pub open spec fn ctx_find<V>(ctx: Seq<(u64, V)>, key: u64) -> Option<V>
    decreases ctx.len(),
{
    if ctx.len() == 0 {
        None
    } else if ctx.last().0 == key {
        Some(ctx.last().1)
    } else {
        ctx_find(ctx.drop_last(), key)
    }
}

/// What scope `id` provides under `key` (nothing for a torn-down scope).
pub open spec fn scope_find<V, B>(scopes: Seq<Option<ScopeData<V, B>>>, id: u32, key: u64) -> Option<V> {
    if id < scopes.len() && scopes[id as int] is Some {
        ctx_find(scopes[id as int]->Some_0.contexts@, key)
    } else {
        None
    }
}

/// Context lookup along the active-scope stack, innermost scope first and,
/// within a scope, the latest provision first.
pub open spec fn lookup<V, B>(scopes: Seq<Option<ScopeData<V, B>>>, active: Seq<u32>, key: u64) -> Option<V>
    decreases active.len(),
{
    if active.len() == 0 {
        None
    } else {
        match scope_find(scopes, active.last(), key) {
            Some(v) => Some(v),
            None => lookup(scopes, active.drop_last(), key),
        }
    }
}

/// Where `on_cleanup` puts a callback.
pub enum CleanupTarget {
    /// The currently running effect's cleanup list.
    Effect,
    /// The innermost active scope's cleanup list.
    Scope,
    /// Nowhere: the callback is handed back to be dropped.
    Dropped,
}

impl<V: Clone + PartialEq, B> State<V, B> {
    /// Open a new, empty scope slot.
    pub fn new_scope(&mut self) -> (id: u32)
        requires
            old(self).wf(),
            old(self).scopes@.len() < MAX_SLOTS,
        ensures
            final(self).wf(),
            id == old(self).scopes@.len(),
            final(self).scopes@.len() == old(self).scopes@.len() + 1,
            final(self).scopes@[id as int] is Some,
            final(self).scopes@[id as int]->Some_0.contexts@.len() == 0,
            forall|i: int| 0 <= i < old(self).scopes@.len() ==> final(self).scopes@[i] == old(self).scopes@[i],
            final(self).arena == old(self).arena,
            final(self).active == old(self).active,
            final(self).current == old(self).current,
            final(self).depth == old(self).depth,
            final(self).memo_depth == old(self).memo_depth,
            final(self).window == old(self).window,
    {
        let id = self.scopes.len() as u32;
        self.scopes.push(Some(ScopeData {
            signals: Vec::new(),
            effects: Vec::new(),
            refs: Vec::new(),
            cleanups: Vec::new(),
            contexts: Vec::new(),
            guards: Vec::new(),
        }));
        id
    }

    /// Take scope `id` out of its slot (tearing it down); `None` if it is
    /// already gone.
    pub fn take_scope(&mut self, id: u32) -> (sd: Option<ScopeData<V, B>>)
        requires
            old(self).wf(),
        ensures
            final(self).wf(),
            id < old(self).scopes@.len() ==> sd == old(self).scopes@[id as int]
                && final(self).scopes@ == old(self).scopes@.update(id as int, None),
            id >= old(self).scopes@.len() ==> sd is None && final(self).scopes == old(self).scopes,
            final(self).deferral == old(self).deferral,
            final(self).deferred == old(self).deferred,
            final(self).notifier_ids == old(self).notifier_ids,
            final(self).arena == old(self).arena,
            final(self).active == old(self).active,
            final(self).current == old(self).current,
            final(self).depth == old(self).depth,
            final(self).memo_depth == old(self).memo_depth,
            final(self).window == old(self).window,
    {
        if (id as usize) < self.scopes.len() {
            let mut sd = None;
            std::mem::swap(&mut sd, &mut self.scopes[id as usize]);
            proof {
                assert(self.scopes@ =~= old(self).scopes@.update(id as int, None));
            }
            sd
        } else {
            None
        }
    }

    /// Provide `value` under `key` in the innermost active scope. Returns
    /// `false` (and changes nothing) when no scope is active.
    pub fn provide(&mut self, key: u64, value: V) -> (ok: bool)
        requires
            old(self).wf(),
        ensures
            final(self).wf(),
            ok == old(self).top_scope_exists(),
            ok ==> {
                let top = old(self).active@.last() as int;
                &&& final(self).scopes@ == old(self).scopes@.update(top,
                    Some(ScopeData { contexts: final(self).scopes@[top]->Some_0.contexts, ..old(self).scopes@[top]->Some_0 }))
                &&& final(self).scopes@[top]->Some_0.contexts@ == old(self).scopes@[top]->Some_0.contexts@.push((key, value))
            },
            !ok ==> final(self).scopes@ == old(self).scopes@,
            final(self).arena == old(self).arena,
            final(self).active == old(self).active,
            final(self).current == old(self).current,
            final(self).depth == old(self).depth,
            final(self).memo_depth == old(self).memo_depth,
            final(self).window == old(self).window,
    {
        if self.active.len() == 0 {
            return false;
        }
        let top = self.active[self.active.len() - 1];
        if (top as usize) >= self.scopes.len() {
            return false;
        }
        let taken = self.scopes[top as usize].take();
        match taken {
            Some(mut sc) => {
                sc.contexts.push((key, value));
                self.scopes.set(top as usize, Some(sc));
                true
            }
            None => {
                proof { assert(self.scopes@ =~= old(self).scopes@); }
                false
            }
        }
    }

    /// The value provided under `key` nearest to the innermost active
    /// scope, by reference.
    pub fn find_context_ref(&self, key: u64) -> (r: Option<&V>)
        requires
            self.wf(),
        ensures
            r is Some <==> lookup(self.scopes@, self.active@, key) is Some,
            r matches Some(v) ==> *v == lookup(self.scopes@, self.active@, key)->Some_0,
    {
        let mut i = self.active.len();
        proof { assert(self.active@.subrange(0, i as int) =~= self.active@); }
        while i > 0
            invariant
                0 <= i <= self.active@.len(),
                lookup(self.scopes@, self.active@, key) == lookup(self.scopes@, self.active@.subrange(0, i as int), key),
            decreases i,
        {
            let ghost pre = self.active@.subrange(0, i as int);
            let sid = self.active[i - 1];
            proof {
                assert(pre.last() == sid);
                assert(pre.drop_last() =~= self.active@.subrange(0, i - 1));
            }
            if (sid as usize) < self.scopes.len() {
                match &self.scopes[sid as usize] {
                    Some(sc) => {
                        let mut j = sc.contexts.len();
                        proof { assert(sc.contexts@.subrange(0, j as int) =~= sc.contexts@); }
                        while j > 0
                            invariant
                                0 < i <= self.active@.len(),
                                sid == self.active@[i - 1],
                                pre == self.active@.subrange(0, i as int),
                                pre.last() == sid,
                                (sid as int) < self.scopes@.len(),
                                self.scopes@[sid as int] == Some(*sc),
                                lookup(self.scopes@, self.active@, key) == lookup(self.scopes@, pre, key),
                                0 <= j <= sc.contexts@.len(),
                                ctx_find(sc.contexts@, key) == ctx_find(sc.contexts@.subrange(0, j as int), key),
                            decreases j,
                        {
                            let ghost cp = sc.contexts@.subrange(0, j as int);
                            proof { assert(cp.drop_last() =~= sc.contexts@.subrange(0, j - 1)); }
                            if sc.contexts[j - 1].0 == key {
                                return Some(&sc.contexts[j - 1].1);
                            }
                            j = j - 1;
                        }
                        proof {
                            assert(sc.contexts@.subrange(0, 0) =~= Seq::<(u64, V)>::empty());
                        }
                    }
                    None => {}
                }
            }
            i = i - 1;
        }
        proof {
            assert(self.active@.subrange(0, 0) =~= Seq::<u32>::empty());
        }
        None
    }

    /// The value provided under `key` nearest to the innermost active scope.
    pub fn find_context(&self, key: u64) -> (r: Option<V>)
        requires
            self.wf(),
        ensures
            r is Some <==> lookup(self.scopes@, self.active@, key) is Some,
            r matches Some(v) ==> cloned(lookup(self.scopes@, self.active@, key)->Some_0, v),
    {
        match self.find_context_ref(key) {
            Some(v) => Some(v.clone()),
            None => None,
        }
    }

    /// Push scope `id` onto the active stack.
    pub fn push_active(&mut self, id: u32)
        requires
            old(self).wf(),
        ensures
            final(self).wf(),
            final(self).active@ == old(self).active@.push(id),
            final(self).arena == old(self).arena,
            final(self).scopes == old(self).scopes,
            final(self).current == old(self).current,
            final(self).depth == old(self).depth,
            final(self).memo_depth == old(self).memo_depth,
            final(self).window == old(self).window,
    {
        self.active.push(id);
    }

    /// Pop the innermost active scope (no-op on an empty stack).
    pub fn pop_active(&mut self)
        requires
            old(self).wf(),
        ensures
            final(self).wf(),
            old(self).active@.len() > 0 ==> final(self).active@ == old(self).active@.drop_last(),
            old(self).active@.len() == 0 ==> final(self).active == old(self).active,
            final(self).arena == old(self).arena,
            final(self).scopes == old(self).scopes,
            final(self).current == old(self).current,
            final(self).depth == old(self).depth,
            final(self).memo_depth == old(self).memo_depth,
            final(self).window == old(self).window,
    {
        if self.active.len() > 0 {
            let _ = self.active.pop();
        }
    }

    /// Attach `cb` to the running effect if there is one, else to the
    /// innermost active scope, else hand it back to be dropped.
    pub fn add_cleanup(&mut self, cb: B) -> (r: (CleanupTarget, Option<B>))
        requires
            old(self).wf(),
        ensures
            final(self).wf(),
            r.0 is Effect ==> old(self).current is Some && r.1 is None && {
                let e = old(self).current->Some_0;
                &&& e < old(self).arena.n_effects()
                &&& final(self).arena.effects@[e as int].cleanups@ == old(self).arena.effects@[e as int].cleanups@.push(cb)
            },
            r.0 is Scope ==> r.1 is None && !(old(self).current is Some && old(self).current->Some_0 < old(self).arena.n_effects())
                && old(self).top_scope_exists(),
            r.0 is Dropped ==> r.1 == Some(cb) && !(old(self).current is Some && old(self).current->Some_0 < old(self).arena.n_effects())
                && !old(self).top_scope_exists() && final(self).scopes@ == old(self).scopes@,
            !(r.0 is Effect) ==> final(self).arena == old(self).arena,
            final(self).arena.values == old(self).arena.values,
            final(self).arena.subs == old(self).arena.subs,
            final(self).active == old(self).active,
            final(self).current == old(self).current,
            final(self).depth == old(self).depth,
            final(self).memo_depth == old(self).memo_depth,
            final(self).window == old(self).window,
    {
        if let Some(e) = self.current {
            if (e as usize) < self.arena.effects.len() {
                self.arena.push_cleanup(e, cb);
                return (CleanupTarget::Effect, None);
            }
        }
        if self.active.len() > 0 {
            let top = self.active[self.active.len() - 1];
            proof { assert(top == self.active@.last()); }
            if (top as usize) < self.scopes.len() {
                let taken = self.scopes[top as usize].take();
                match taken {
                    Some(mut sc) => {
                        sc.cleanups.push(cb);
                        self.scopes.set(top as usize, Some(sc));
                        return (CleanupTarget::Scope, None);
                    }
                    None => {
                        proof { assert(self.scopes@ =~= old(self).scopes@); }
                    }
                }
            }
        }
        (CleanupTarget::Dropped, Some(cb))
    }

    /// Allocate an unfilled ref slot and hand it to the innermost active
    /// scope.
    pub fn create_ref(&mut self) -> (id: u32)
        requires
            old(self).wf(),
            old(self).arena.can_insert_ref(),
        ensures
            final(self).wf(),
            id < final(self).arena.refs@.len(),
            final(self).arena.refs@[id as int] == Some(None::<V>),
            old(self).arena.ref_free@.len() > 0 ==> id == old(self).arena.ref_free@.last(),
            old(self).arena.ref_free@.len() == 0 ==> id == old(self).arena.refs@.len(),
            forall|r: int| 0 <= r < old(self).arena.refs@.len() && r != id ==>
                final(self).arena.refs@[r] == old(self).arena.refs@[r],
            final(self).arena.values == old(self).arena.values,
            final(self).arena.effects == old(self).arena.effects,
            final(self).active == old(self).active,
            final(self).current == old(self).current,
            final(self).depth == old(self).depth,
            final(self).memo_depth == old(self).memo_depth,
            final(self).window == old(self).window,
    {
        let id = self.arena.insert_ref();
        self.register(id, 2);
        id
    }

    /// Free the slots a torn-down scope owned: its signals (their external
    /// notifiers go with them), then its effects, then its refs. Hands back
    /// each freed effect's body and pending cleanups.
    pub fn free_scope_slots(&mut self, signals: &Vec<u32>, effects: &Vec<u32>, refs: &Vec<u32>)
        -> (taken: Vec<(Option<B>, Vec<B>)>)
        requires
            old(self).wf(),
        ensures
            final(self).wf(),
            forall|i: int| 0 <= i < signals@.len() && signals@[i] < old(self).arena.n_signals() ==>
                final(self).arena.values@[#[trigger] signals@[i] as int] is None,
            forall|i: int| 0 <= i < effects@.len() && effects@[i] < old(self).arena.n_effects() ==>
                !final(self).arena.eff_live(#[trigger] effects@[i]),
            forall|i: int| 0 <= i < refs@.len() && refs@[i] < old(self).arena.refs@.len() ==>
                final(self).arena.refs@[#[trigger] refs@[i] as int] is None,
            final(self).arena.n_signals() == old(self).arena.n_signals(),
            forall|s: int, x: u32| 0 <= s < old(self).arena.n_signals() && !signals@.contains(s as u32) ==>
                (#[trigger] final(self).arena.subs@[s]@.contains(x) <==> (old(self).arena.subs@[s]@.contains(x) && !effects@.contains(x))),
            forall|i: int| 0 <= i < signals@.len() && signals@[i] < old(self).arena.n_signals() ==>
                !final(self).notifier_ids@.contains(#[trigger] signals@[i] as u64),
            forall|x: u64| !signals@.contains(x as u32) || x > u32::MAX ==>
                (#[trigger] final(self).notifier_ids@.contains(x) <==> old(self).notifier_ids@.contains(x)),
            forall|s: int| 0 <= s < old(self).arena.n_signals() ==> #[trigger] final(self).arena.gens@[s] ==
                if old(self).arena.values@[s] is Some && signals@.contains(s as u32) { next_gen(old(self).arena.gens@[s]) }
                else { old(self).arena.gens@[s] },
            final(self).arena.n_effects() == old(self).arena.n_effects(),
            final(self).arena.refs@.len() == old(self).arena.refs@.len(),
            forall|s: int| 0 <= s < old(self).arena.n_signals() && !signals@.contains(s as u32) ==>
                final(self).arena.values@[s] == old(self).arena.values@[s],
            forall|e: int| 0 <= e < old(self).arena.n_effects() && !effects@.contains(e as u32) ==>
                final(self).arena.effects@[e] == old(self).arena.effects@[e],
            forall|i: int| 0 <= i < taken@.len() ==> (#[trigger] taken@[i]).1@.len() == 0
                || exists|j: int| 0 <= j < effects@.len() && old(self).arena.eff_live(effects@[j])
                    && taken@[i].1 == old(self).arena.effects@[effects@[j] as int].cleanups,
            final(self).scopes == old(self).scopes,
            final(self).active == old(self).active,
            final(self).current == old(self).current,
            final(self).depth == old(self).depth,
            final(self).memo_depth == old(self).memo_depth,
            final(self).window == old(self).window,
            final(self).busy == old(self).busy,
            final(self).idle_hook == old(self).idle_hook,
            final(self).in_idle == old(self).in_idle,
            final(self).deferral == old(self).deferral,
            final(self).deferred == old(self).deferred,
    {
        let ghost a0 = self.arena;
        let mut i: usize = 0;
        while i < signals.len()
            invariant
                self.wf(),
                0 <= i <= signals@.len(),
                self.arena.n_signals() == a0.n_signals(),
                self.arena.effects == a0.effects,
                self.arena.refs == a0.refs,
                forall|k: int| 0 <= k < i && signals@[k] < a0.n_signals() ==>
                    self.arena.values@[#[trigger] signals@[k] as int] is None,
                forall|s: int| 0 <= s < a0.n_signals() && !signals@.subrange(0, i as int).contains(s as u32) ==>
                    self.arena.values@[s] == a0.values@[s],
                forall|s: int| 0 <= s < a0.n_signals() ==> #[trigger] self.arena.gens@[s] ==
                    if a0.values@[s] is Some && signals@.subrange(0, i as int).contains(s as u32) { next_gen(a0.gens@[s]) }
                    else { a0.gens@[s] },
                forall|k: int| 0 <= k < i && signals@[k] < a0.n_signals() ==>
                    !self.notifier_ids@.contains(#[trigger] signals@[k] as u64),
                forall|s: int| 0 <= s < a0.n_signals() && !signals@.subrange(0, i as int).contains(s as u32) ==>
                    #[trigger] self.arena.subs@[s] == a0.subs@[s],
                forall|x: u64| !signals@.subrange(0, i as int).contains(x as u32) || x > u32::MAX ==>
                    (#[trigger] self.notifier_ids@.contains(x) <==> old(self).notifier_ids@.contains(x)),
                self.scopes == old(self).scopes,
                self.active == old(self).active,
                self.current == old(self).current,
                self.depth == old(self).depth,
                self.memo_depth == old(self).memo_depth,
                self.window == old(self).window,
                self.busy == old(self).busy,
                self.idle_hook == old(self).idle_hook,
                self.in_idle == old(self).in_idle,
                self.deferral == old(self).deferral,
                self.deferred == old(self).deferred,
                a0 == old(self).arena,
            decreases signals@.len() - i,
        {
            let sid = signals[i];
            let ghost before = self.arena;
            let ghost ids_before = self.notifier_ids@;
            if (sid as usize) < self.arena.values.len() {
                let _v = self.arena.free_signal(sid);
                let ghost mid = self.arena;
                let _n = self.remove_notifier(sid as u64);
                proof {
                    assert(self.arena == mid);
                    assert(forall|s: int| 0 <= s < before.n_signals() && s != sid ==> #[trigger] self.arena.values@[s] == before.values@[s]);
                    assert(self.arena.values@[sid as int] is None);
                }
            }
            proof {
                let p1 = signals@.subrange(0, i + 1);
                assert(p1[i as int] == sid);
                assert(p1.contains(sid));
                assert forall|s: int| 0 <= s < a0.n_signals() && !signals@.subrange(0, i + 1).contains(s as u32) implies
                    self.arena.values@[s] == a0.values@[s] by {
                    if signals@.subrange(0, i as int).contains(s as u32) {
                        let k = choose|k: int| 0 <= k < i && signals@.subrange(0, i as int)[k] == s as u32;
                        assert(p1[k] == s as u32);
                    }
                    assert(before.values@[s] == a0.values@[s]);
                    assert(s != sid as int);
                }
                assert forall|s: int| 0 <= s < a0.n_signals() implies #[trigger] self.arena.gens@[s] ==
                    if a0.values@[s] is Some && p1.contains(s as u32) { next_gen(a0.gens@[s]) }
                    else { a0.gens@[s] } by {
                    let p0 = signals@.subrange(0, i as int);
                    if p0.contains(s as u32) {
                        let k = choose|k: int| 0 <= k < i && p0[k] == s as u32;
                        assert(p1[k] == s as u32);
                        assert(signals@[k] == s as u32);
                    }
                    if p1.contains(s as u32) && !p0.contains(s as u32) {
                        let k = choose|k: int| 0 <= k < i + 1 && p1[k] == s as u32;
                        if k < i { assert(p0[k] == s as u32); }
                        assert(s == sid as int);
                    }
                }
                assert forall|k: int| 0 <= k < i + 1 && signals@[k] < a0.n_signals() implies
                    self.arena.values@[#[trigger] signals@[k] as int] is None by {
                    if k < i && signals@[k] != sid {
                        assert(before.values@[signals@[k] as int] is None);
                    }
                }
                assert forall|s: int| 0 <= s < a0.n_signals() && !p1.contains(s as u32) implies
                    #[trigger] self.arena.subs@[s] == a0.subs@[s] by {
                    if signals@.subrange(0, i as int).contains(s as u32) {
                        let k = choose|k: int| 0 <= k < i && signals@.subrange(0, i as int)[k] == s as u32;
                        assert(p1[k] == s as u32);
                    }
                    assert(s != sid as int);
                }
                assert forall|k: int| 0 <= k < i + 1 && signals@[k] < a0.n_signals() implies
                    !self.notifier_ids@.contains(#[trigger] signals@[k] as u64) by {
                    if k < i && signals@[k] != sid {
                        assert(!ids_before.contains(signals@[k] as u64));
                    }
                }
                assert forall|x: u64| !p1.contains(x as u32) || x > u32::MAX implies
                    (#[trigger] self.notifier_ids@.contains(x) <==> old(self).notifier_ids@.contains(x)) by {
                    if !p1.contains(x as u32) {
                        assert(!signals@.subrange(0, i as int).contains(x as u32)) by {
                            if signals@.subrange(0, i as int).contains(x as u32) {
                                let k = choose|k: int| 0 <= k < i && signals@.subrange(0, i as int)[k] == x as u32;
                                assert(p1[k] == x as u32);
                            }
                        }
                        assert(x != sid as u64);
                    }
                }
            }
            i = i + 1;
        }
        proof { assert(signals@.subrange(0, signals@.len() as int) =~= signals@); }
        let ghost a1 = self.arena;
        let ghost n1 = self.notifier_ids;
        let mut taken: Vec<(Option<B>, Vec<B>)> = Vec::new();
        let mut j: usize = 0;
        while j < effects.len()
            invariant
                self.wf(),
                0 <= j <= effects@.len(),
                self.arena.n_signals() == a0.n_signals(),
                self.arena.n_effects() == a0.n_effects(),
                self.arena.values == a1.values,
                self.arena.gens == a1.gens,
                self.notifier_ids == n1,
                self.arena.subs@.len() == a1.subs@.len(),
                forall|s: int, x: u32| 0 <= s < a1.subs@.len() ==>
                    (#[trigger] self.arena.subs@[s]@.contains(x) <==> (a1.subs@[s]@.contains(x) && !effects@.subrange(0, j as int).contains(x))),
                self.arena.refs == a0.refs,
                a1.effects == a0.effects,
                forall|k: int| 0 <= k < j && effects@[k] < a0.n_effects() ==>
                    !self.arena.eff_live(#[trigger] effects@[k]),
                forall|e: int| 0 <= e < a0.n_effects() && !effects@.subrange(0, j as int).contains(e as u32) ==>
                    self.arena.effects@[e] == a0.effects@[e],
                forall|t: int| 0 <= t < taken@.len() ==> (#[trigger] taken@[t]).1@.len() == 0
                    || exists|q: int| 0 <= q < effects@.len() && a0.eff_live(effects@[q])
                        && taken@[t].1 == a0.effects@[effects@[q] as int].cleanups,
                self.scopes == old(self).scopes,
                self.active == old(self).active,
                self.current == old(self).current,
                self.depth == old(self).depth,
                self.memo_depth == old(self).memo_depth,
                self.window == old(self).window,
                self.busy == old(self).busy,
                self.idle_hook == old(self).idle_hook,
                self.in_idle == old(self).in_idle,
                self.deferral == old(self).deferral,
                self.deferred == old(self).deferred,
                a0 == old(self).arena,
            decreases effects@.len() - j,
        {
            let eid = effects[j];
            let ghost before = self.arena;
            let r = self.dispose_effect(eid);
            match r {
                Some(p) => {
                    proof {
                        assert(!effects@.subrange(0, j as int).contains(eid) ==> before.effects@[eid as int] == a0.effects@[eid as int]);
                        if effects@.subrange(0, j as int).contains(eid) {
                            let k = choose|k: int| 0 <= k < j && effects@.subrange(0, j as int)[k] == eid;
                            assert(effects@[k] == eid);
                            assert(!before.eff_live(eid));
                        }
                        assert(effects@[j as int] == eid);
                    }
                    taken.push(p);
                }
                None => {}
            }
            proof {
                assert forall|s: int, x: u32| 0 <= s < a1.subs@.len() implies
                    (#[trigger] self.arena.subs@[s]@.contains(x) <==> (a1.subs@[s]@.contains(x) && !effects@.subrange(0, j + 1).contains(x))) by {
                    assert(effects@.subrange(0, j + 1)[j as int] == eid);
                    if effects@.subrange(0, j as int).contains(x) {
                        let k = choose|k: int| 0 <= k < j && effects@.subrange(0, j as int)[k] == x;
                        assert(effects@.subrange(0, j + 1)[k] == x);
                    }
                    if effects@.subrange(0, j + 1).contains(x) && x != eid {
                        let p1 = effects@.subrange(0, j + 1);
                        let k = choose|k: int| 0 <= k < j + 1 && #[trigger] p1[k] == x;
                        assert(effects@.subrange(0, j as int)[k] == x);
                    }
                }
                assert forall|e: int| 0 <= e < a0.n_effects() && !effects@.subrange(0, j + 1).contains(e as u32) implies
                    self.arena.effects@[e] == a0.effects@[e] by {
                    assert(effects@.subrange(0, j + 1)[j as int] == eid);
                    if effects@.subrange(0, j as int).contains(e as u32) {
                        let k = choose|k: int| 0 <= k < j && effects@.subrange(0, j as int)[k] == e as u32;
                        assert(effects@.subrange(0, j + 1)[k] == e as u32);
                    }
                }
                assert forall|k: int| 0 <= k < j + 1 && effects@[k] < a0.n_effects() implies
                    !self.arena.eff_live(#[trigger] effects@[k]) by {
                    if k < j && effects@[k] != eid {
                        assert(self.arena.effects@[effects@[k] as int] == before.effects@[effects@[k] as int]);
                    }
                }
            }
            j = j + 1;
        }
        proof {
            assert(effects@.subrange(0, effects@.len() as int) =~= effects@);
            assert(effects@.subrange(0, 0) =~= Seq::<u32>::empty());
        }
        let ghost a2 = self.arena;
        let mut k: usize = 0;
        while k < refs.len()
            invariant
                self.wf(),
                0 <= k <= refs@.len(),
                self.arena.values == a2.values,
                self.arena.gens == a2.gens,
                self.arena.subs == a2.subs,
                self.notifier_ids == n1,
                self.arena.effects == a2.effects,
                self.arena.refs@.len() == a0.refs@.len(),
                forall|q: int| 0 <= q < k && refs@[q] < a0.refs@.len() ==>
                    self.arena.refs@[#[trigger] refs@[q] as int] is None,
                self.scopes == old(self).scopes,
                self.active == old(self).active,
                self.current == old(self).current,
                self.depth == old(self).depth,
                self.memo_depth == old(self).memo_depth,
                self.window == old(self).window,
                self.busy == old(self).busy,
                self.idle_hook == old(self).idle_hook,
                self.in_idle == old(self).in_idle,
                self.deferral == old(self).deferral,
                self.deferred == old(self).deferred,
            decreases refs@.len() - k,
        {
            let _r = self.arena.free_ref(refs[k]);
            k = k + 1;
        }
        taken
    }

    /// Position of the notifier registered for `raw`, if any.
    pub fn notifier_index(&self, raw: u64) -> (r: Option<usize>)
        requires
            self.wf(),
        ensures
            r is Some <==> self.notifier_ids@.contains(raw),
            r matches Some(i) ==> i < self.notifier_ids@.len() && self.notifier_ids@[i as int] == raw
                && forall|j: int| 0 <= j < i ==> self.notifier_ids@[j] != raw,
    {
        let mut i: usize = 0;
        while i < self.notifier_ids.len()
            invariant
                0 <= i <= self.notifier_ids@.len(),
                forall|j: int| 0 <= j < i ==> self.notifier_ids@[j] != raw,
            decreases self.notifier_ids@.len() - i,
        {
            if self.notifier_ids[i] == raw {
                return Some(i);
            }
            i = i + 1;
        }
        None
    }

    /// Register `cb` as the notifier for `raw`, replacing (and handing
    /// back) any earlier one.
    pub fn set_notifier(&mut self, raw: u64, cb: B) -> (prev: Option<B>)
        requires
            old(self).wf(),
        ensures
            final(self).wf(),
            final(self).notifier_ids@.contains(raw),
            notifier_of(*final(self), raw) == Some(cb),
            prev == notifier_of(*old(self), raw),
            forall|x: u64| x != raw ==> (#[trigger] final(self).notifier_ids@.contains(x) <==> old(self).notifier_ids@.contains(x)),
            final(self).arena == old(self).arena,
            final(self).scopes == old(self).scopes,
            final(self).active == old(self).active,
            final(self).current == old(self).current,
            final(self).depth == old(self).depth,
            final(self).memo_depth == old(self).memo_depth,
            final(self).window == old(self).window,
    {
        match self.notifier_index(raw) {
            Some(i) => {
                proof { lemma_first_slot(self.notifier_ids@, raw, i as int); }
                let mut slot = Some(cb);
                std::mem::swap(&mut slot, &mut self.notifiers[i]);
                slot
            }
            None => {
                self.notifier_ids.push(raw);
                self.notifiers.push(Some(cb));
                proof {
                    assert forall|x: u64| x != raw implies (#[trigger] self.notifier_ids@.contains(x) <==> old(self).notifier_ids@.contains(x)) by {
                        if self.notifier_ids@.contains(x) {
                            let k = choose|k: int| 0 <= k < self.notifier_ids@.len() && self.notifier_ids@[k] == x;
                            assert(old(self).notifier_ids@[k] == x);
                        }
                        if old(self).notifier_ids@.contains(x) {
                            let k = choose|k: int| 0 <= k < old(self).notifier_ids@.len() && old(self).notifier_ids@[k] == x;
                            assert(self.notifier_ids@[k] == x);
                        }
                    }
                    assert(self.notifier_ids@[self.notifier_ids@.len() - 1] == raw);
                    assert forall|j: int| 0 <= j < self.notifier_ids@.len() - 1 implies self.notifier_ids@[j] != raw by {
                        assert(self.notifier_ids@[j] == old(self).notifier_ids@[j]);
                    }
                    lemma_first_slot(self.notifier_ids@, raw, self.notifier_ids@.len() - 1);
                }
                None
            }
        }
    }

    /// Remove every notifier registered for `raw`, handing them back.
    pub fn remove_notifier(&mut self, raw: u64) -> (gone: Vec<B>)
        requires
            old(self).wf(),
        ensures
            final(self).wf(),
            !final(self).notifier_ids@.contains(raw),
            forall|x: u64| x != raw ==> (#[trigger] final(self).notifier_ids@.contains(x) <==> old(self).notifier_ids@.contains(x)),
            final(self).arena == old(self).arena,
            final(self).scopes == old(self).scopes,
            final(self).active == old(self).active,
            final(self).current == old(self).current,
            final(self).depth == old(self).depth,
            final(self).memo_depth == old(self).memo_depth,
            final(self).window == old(self).window,
            final(self).busy == old(self).busy,
            final(self).idle_hook == old(self).idle_hook,
            final(self).in_idle == old(self).in_idle,
            final(self).deferral == old(self).deferral,
            final(self).deferred == old(self).deferred,
    {
        let mut ids: Vec<u64> = Vec::new();
        let mut cbs: Vec<Option<B>> = Vec::new();
        let mut gone: Vec<B> = Vec::new();
        std::mem::swap(&mut ids, &mut self.notifier_ids);
        std::mem::swap(&mut cbs, &mut self.notifiers);
        let ghost old_ids = ids@;
        let mut kept_ids: Vec<u64> = Vec::new();
        let mut kept_cbs: Vec<Option<B>> = Vec::new();
        while ids.len() > 0
            invariant
                ids@.len() == cbs@.len(),
                kept_ids@.len() == kept_cbs@.len(),
                old_ids.len() == old(self).notifier_ids@.len(),
                old_ids == old(self).notifier_ids@,
                !kept_ids@.contains(raw),
                forall|x: u64| x != raw ==> (#[trigger] old_ids.contains(x) <==> (kept_ids@.contains(x) || ids@.contains(x))),
                self.arena == old(self).arena,
                self.scopes == old(self).scopes,
                self.active == old(self).active,
                self.current == old(self).current,
                self.depth == old(self).depth,
                self.memo_depth == old(self).memo_depth,
                self.window == old(self).window,
                self.busy == old(self).busy,
                self.idle_hook == old(self).idle_hook,
                self.in_idle == old(self).in_idle,
                self.deferral == old(self).deferral,
                self.deferred == old(self).deferred,
                self.arena.wf(),
                self.window matches Some(w) ==> w.wf(),
            decreases ids@.len(),
        {
            let ghost ids0 = ids@;
            let ghost k0 = kept_ids@;
            let id = ids.pop().unwrap();
            let cb = cbs.pop().unwrap();
            if id == raw {
                if let Some(c) = cb {
                    gone.push(c);
                }
            } else {
                kept_ids.push(id);
                kept_cbs.push(cb);
            }
            proof {
                assert(ids0 =~= ids@.push(id));
                assert forall|x: u64| x != raw implies (#[trigger] old_ids.contains(x) <==> (kept_ids@.contains(x) || ids@.contains(x))) by {
                    if ids0.contains(x) {
                        let k = choose|k: int| 0 <= k < ids0.len() && ids0[k] == x;
                        if k < ids@.len() { assert(ids@[k] == x); } else { assert(kept_ids@.last() == x); }
                    }
                    if k0.contains(x) {
                        let k = choose|k: int| 0 <= k < k0.len() && k0[k] == x;
                        assert(kept_ids@[k] == x);
                    }
                    if kept_ids@.contains(x) {
                        let k = choose|k: int| 0 <= k < kept_ids@.len() && kept_ids@[k] == x;
                        if k < k0.len() { assert(k0[k] == x); } else { assert(ids0[ids0.len() - 1] == x); }
                    }
                    if ids@.contains(x) {
                        let k = choose|k: int| 0 <= k < ids@.len() && ids@[k] == x;
                        assert(ids0[k] == x);
                    }
                }
                if kept_ids@.contains(raw) {
                    let k = choose|k: int| 0 <= k < kept_ids@.len() && kept_ids@[k] == raw;
                    if k < k0.len() { assert(k0[k] == raw); }
                }
            }
        }
        self.notifier_ids = kept_ids;
        self.notifiers = kept_cbs;
        gone
    }
}

} // verus!
