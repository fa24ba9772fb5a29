//! The runtime's state machine: every decision the runtime takes
//! (where a slot goes, which effects a write wakes, what a batch flush
//! notifies, how an effect run is framed), without running any callback.
use vstd::prelude::*;
use crate::seqs::{no_dup, contains_id, without_id, insert_id};
use crate::reactive::arena::{Arena, EffectKind, MAX_SLOTS, DETACHED};
use vstd::std_specs::cmp::PartialEqSpec;

verus! {

/// Transitive run-stack depth past which further effect runs are refused
/// (a mutual signal/effect cycle).
pub const MAX_EFFECT_DEPTH: u32 = 256;

/// Copyable handle to a signal slot: its index and the generation it was
/// minted with. A handle whose slot was freed (and possibly reused) is
/// stale: writes through it do nothing.
#[derive(Clone, Copy, Debug, PartialEq, Eq, Structural)]
pub struct Signal {
    pub id: u32,
    pub gen: u32,
}

/// Signals dirtied since the outermost batch opened, in first-dirty order.
pub struct DirtyWindow<V> {
    pub order: Vec<u32>,
    /// An always-notify write touched the signal this window.
    pub force: Vec<bool>,
    /// The value before the window's first change-checked write.
    pub initial: Vec<Option<V>>,
}

impl<V> DirtyWindow<V> {
    pub open spec fn wf(&self) -> bool {
        &&& self.force@.len() == self.order@.len()
        &&& self.initial@.len() == self.order@.len()
        &&& no_dup(self.order@)
    }
}

/// Slots owned by a scope, plus what it provides and what it must run or
/// drop when it is torn down.
pub struct ScopeData<V, B> {
    pub signals: Vec<u32>,
    pub effects: Vec<u32>,
    pub refs: Vec<u32>,
    pub cleanups: Vec<B>,
    pub contexts: Vec<(u64, V)>,
    pub guards: Vec<B>,
}

/// What a signal write leads to.
pub enum WriteOutcome {
    /// The handle was stale: nothing changed.
    Stale,
    /// The value changed inside a batch: notification waits for the flush.
    Deferred,
    /// The value was written: wake these effects now, then notify
    /// externally when `notify`.
    Wake { effects: Vec<u32>, notify: bool },
    /// A change-checked write left the value equal: nobody is woken.
    Unchanged,
}

/// How an effect run starts.
pub enum RunStart<B> {
    /// The effect is already running (a re-entrant wake) or its slot is
    /// gone: nothing happens.
    Skip,
    /// The run stack is at its limit: the run is refused and the overflow
    /// recorded.
    Overflow,
    /// Run: fire `cleanups` (last first), then the body if there is one.
    Go { body: Option<B>, cleanups: Vec<B>, stable: bool },
}

/// What `enter_body` changed, for `leave_body` to undo.
pub struct Frame {
    pub prev_current: Option<u32>,
    pub pushed: usize,
}

/// All runtime state.
pub struct State<V, B> {
    pub arena: Arena<V, B>,
    pub scopes: Vec<Option<ScopeData<V, B>>>,
    pub active: Vec<u32>,
    pub current: Option<u32>,
    pub running: Vec<u32>,
    pub depth: u32,
    pub depth_exceeded: bool,
    pub busy: u32,
    pub idle_hook: Option<B>,
    pub in_idle: bool,
    pub memo_depth: u32,
    pub window: Option<DirtyWindow<V>>,
    pub notifier_ids: Vec<u64>,
    pub notifiers: Vec<Option<B>>,
    pub deferral: bool,
    pub deferred: Vec<B>,
}

impl<V, B> State<V, B> {
    pub open spec fn wf(&self) -> bool {
        &&& self.arena.wf()
        &&& self.window matches Some(w) ==> w.wf()
        &&& self.notifiers@.len() == self.notifier_ids@.len()
    }

    /// The handle's slot is occupied and still carries its generation.
    pub open spec fn live(&self, s: Signal) -> bool {
        self.arena.sig_live(s.id, s.gen)
    }

    /// Everything but the signal slot values and the batch window is as in `other`.
    pub open spec fn same_but_values(&self, other: &Self) -> bool {
        &&& self.arena.gens == other.arena.gens
        &&& self.arena.subs == other.arena.subs
        &&& self.arena.sig_free == other.arena.sig_free
        &&& self.arena.effects == other.arena.effects
        &&& self.arena.deps == other.arena.deps
        &&& self.arena.eff_free == other.arena.eff_free
        &&& self.arena.refs == other.arena.refs
        &&& self.arena.ref_free == other.arena.ref_free
        &&& self.scopes == other.scopes
        &&& self.active == other.active
        &&& self.current == other.current
        &&& self.running == other.running
        &&& self.depth == other.depth
        &&& self.memo_depth == other.memo_depth
        &&& self.busy == other.busy
        &&& self.idle_hook == other.idle_hook
        &&& self.in_idle == other.in_idle
        &&& self.notifier_ids == other.notifier_ids
        &&& self.notifiers == other.notifiers
    }
}

/// The window after marking `sid` dirty: appended on first appearance
/// (with `force` and `initial`), else `force` ORed in and the first
/// `initial` kept.
pub open spec fn window_after<V>(w: DirtyWindow<V>, sid: u32, force: bool, initial: Option<V>)
    -> (Seq<u32>, Seq<bool>, Seq<Option<V>>)
{
    if w.order@.contains(sid) {
        let k = choose|k: int| 0 <= k < w.order@.len() && w.order@[k] == sid;
        (w.order@, w.force@.update(k, w.force@[k] || force), w.initial@)
    } else {
        (w.order@.push(sid), w.force@.push(force), w.initial@.push(initial))
    }
}

/// Whether entry `k` of the window counts as a change at flush time: a
/// force-write always does; a change-checked entry does when its slot is
/// occupied and no longer equal to the window-initial value.
pub open spec fn entry_changed<V: PartialEq, B>(a: Arena<V, B>, w: DirtyWindow<V>, k: int) -> bool {
    w.force@[k] || match w.initial@[k] {
        None => true,
        Some(init) => {
            let sid = w.order@[k];
            &&& sid < a.values@.len()
            &&& a.values@[sid as int] is Some
            &&& !a.values@[sid as int]->Some_0.eq_spec(&init)
        }
    }
}

/// The window's three lists are exactly `t`.
pub open spec fn window_is<V>(w: DirtyWindow<V>, t: (Seq<u32>, Seq<bool>, Seq<Option<V>>)) -> bool {
    &&& w.order@ == t.0
    &&& w.force@ == t.1
    &&& w.initial@ == t.2
}

impl<V: Clone + PartialEq, B> State<V, B> {
    pub fn new() -> (st: Self)
        ensures
            st.wf(),
            st.window is None,
            st.memo_depth == 0,
            st.current is None,
            st.depth == 0,
            st.active@.len() == 0,
            st.arena.n_signals() == 0,
            st.arena.n_effects() == 0,
            st.arena.refs@.len() == 0,
            st.busy == 0,
            st.idle_hook is None,
            !st.deferral,
            st.scopes@.len() == 0,
            st.notifier_ids@.len() == 0,
    {
        State {
            arena: Arena::new(),
            scopes: Vec::new(),
            active: Vec::new(),
            current: None,
            running: Vec::new(),
            depth: 0,
            depth_exceeded: false,
            busy: 0,
            idle_hook: None,
            in_idle: false,
            memo_depth: 0,
            window: None,
            notifier_ids: Vec::new(),
            notifiers: Vec::new(),
            deferral: false,
            deferred: Vec::new(),
        }
    }

    /// Mark `sid` dirty in the open window.
    pub fn window_record(&mut self, sid: u32, force: bool, initial: Option<V>)
        requires
            old(self).wf(),
            old(self).window is Some,
        ensures
            final(self).wf(),
            final(self).window is Some,
            window_is(final(self).window->Some_0, window_after(old(self).window->Some_0, sid, force, initial)),
            final(self).arena == old(self).arena,
            final(self).same_but_values(old(self)),
    {
        let mut w = self.window.take().unwrap();
        let ghost w0 = w;
        let mut i: usize = 0;
        while i < w.order.len()
            invariant
                w.wf(),
                w == w0,
                old(self).wf(),
                w0 == old(self).window->Some_0,
                self.arena == old(self).arena,
                self.same_but_values(old(self)),
                self.notifiers@.len() == self.notifier_ids@.len(),
                0 <= i <= w.order@.len(),
                forall|k: int| 0 <= k < i ==> w.order@[k] != sid,
            decreases w.order@.len() - i,
        {
            if w.order[i] == sid {
                let f = w.force[i] || force;
                let ghost wo = w.order@;
                w.force.set(i, f);
                proof {
                    assert(wo.contains(sid));
                    let k = choose|k: int| 0 <= k < wo.len() && wo[k] == sid;
                    assert(k == i);
                }
                self.window = Some(w);
                return;
            }
            i = i + 1;
        }
        let ghost wo = w.order@;
        proof {
            assert(!wo.contains(sid));
            assert(window_after(w0, sid, force, initial) == (wo.push(sid), w0.force@.push(force), w0.initial@.push(initial)));
        }
        w.order.push(sid);
        w.force.push(force);
        w.initial.push(initial);
        proof {
            assert forall|a: int, b: int| 0 <= a < w.order@.len() && 0 <= b < w.order@.len() && a != b
                implies w.order@[a] != w.order@[b] by {
                if a < wo.len() && b < wo.len() {
                } else if a < wo.len() {
                    assert(wo.contains(w.order@[a]));
                } else {
                    assert(wo.contains(w.order@[b]));
                }
            }
        }
        self.window = Some(w);
    }

    /// The innermost active scope exists.
    pub open spec fn top_scope_exists(&self) -> bool {
        &&& self.active@.len() > 0
        &&& (self.active@.last() as int) < self.scopes@.len()
        &&& self.scopes@[self.active@.last() as int] is Some
    }

    /// Record slot `id` as owned by the innermost active scope (kind 0:
    /// signal, 1: effect, 2: ref). Returns whether a scope adopted it.
    pub fn register(&mut self, id: u32, what: u8) -> (adopted: bool)
        requires
            old(self).wf(),
        ensures
            final(self).wf(),
            adopted == old(self).top_scope_exists(),
            final(self).arena == old(self).arena,
            final(self).idle_hook == old(self).idle_hook,
            final(self).busy == old(self).busy,
            final(self).in_idle == old(self).in_idle,
            final(self).active == old(self).active,
            final(self).current == old(self).current,
            final(self).running == old(self).running,
            final(self).depth == old(self).depth,
            final(self).memo_depth == old(self).memo_depth,
            final(self).window == old(self).window,
            final(self).scopes@.len() == old(self).scopes@.len(),
            forall|i: int| 0 <= i < old(self).scopes@.len() ==>
                (#[trigger] final(self).scopes@[i] is Some) == (old(self).scopes@[i] is Some),
            adopted ==> {
                let top = old(self).active@.last() as int;
                let o = old(self).scopes@[top]->Some_0;
                let n = final(self).scopes@[top]->Some_0;
                &&& what == 0 ==> n.signals@ == o.signals@.push(id)
                &&& what == 1 ==> n.effects@ == o.effects@.push(id)
                &&& what != 0 && what != 1 ==> n.refs@ == o.refs@.push(id)
            },
            !adopted ==> final(self).scopes@ == old(self).scopes@,
    {
        if self.active.len() == 0 {
            return false;
        }
        let top = self.active[self.active.len() - 1];
        if (top as usize) >= self.scopes.len() {
            return false;
        }
        let taken = self.scopes[top as usize].take();
        match taken {
            Some(mut sc) => {
                if what == 0 {
                    sc.signals.push(id);
                } else if what == 1 {
                    sc.effects.push(id);
                } else {
                    sc.refs.push(id);
                }
                self.scopes.set(top as usize, Some(sc));
                proof {
                    assert forall|i: int| 0 <= i < old(self).scopes@.len() implies
                        (#[trigger] self.scopes@[i] is Some) == (old(self).scopes@[i] is Some) by {
                        if i != top as int {
                            assert(self.scopes@[i] == old(self).scopes@[i]);
                        }
                    }
                }
                true
            }
            None => {
                proof {
                    assert(self.scopes@ =~= old(self).scopes@);
                }
                false
            }
        }
    }

    /// Store a new signal and hand it to the innermost active scope.
    pub fn create_signal(&mut self, value: V) -> (s: Signal)
        requires
            old(self).wf(),
            old(self).arena.can_insert_signal(),
        ensures
            final(self).wf(),
            final(self).live(s),
            final(self).arena.sig_value(s.id) == value,
            final(self).arena.subscribers(s.id).len() == 0,
            !old(self).arena.sig_live(s.id, s.gen),
            old(self).arena.sig_free@.len() > 0 ==> s.id == old(self).arena.sig_free@.last()
                && s.gen == old(self).arena.gens@[s.id as int],
            old(self).arena.sig_free@.len() == 0 ==> s.id == old(self).arena.n_signals() && s.gen == 0,
            forall|t: Signal| t.id != s.id ==> (final(self).live(t) == old(self).live(t)),
            forall|t: Signal| t.id == s.id ==> (final(self).live(t) <==> t.gen == s.gen),
            forall|t: Signal| t.id != s.id && old(self).live(t) ==>
                final(self).arena.sig_value(t.id) == old(self).arena.sig_value(t.id),
            final(self).arena.effects == old(self).arena.effects,
            final(self).arena.eff_free == old(self).arena.eff_free,
            final(self).arena.n_effects() == old(self).arena.n_effects(),
            final(self).active == old(self).active,
            final(self).current == old(self).current,
            final(self).depth == old(self).depth,
            final(self).memo_depth == old(self).memo_depth,
            final(self).window == old(self).window,
            final(self).scopes@.len() == old(self).scopes@.len(),
            old(self).top_scope_exists() ==> final(self).top_scope_exists()
                && final(self).scopes@[old(self).active@.last() as int]->Some_0.signals@
                    == old(self).scopes@[old(self).active@.last() as int]->Some_0.signals@.push(s.id),
            !old(self).top_scope_exists() ==> final(self).scopes@ == old(self).scopes@,
    {
        let (id, gen) = self.arena.insert_signal(value);
        self.register(id, 0);
        Signal { id, gen }
    }

    /// Read a live signal's value; when an effect is tracking and still
    /// live, link it with the signal.
    pub fn read(&mut self, s: Signal) -> (v: V)
        requires
            old(self).wf(),
            old(self).live(s),
        ensures
            final(self).wf(),
            cloned(old(self).arena.sig_value(s.id), v),
            final(self).arena.values == old(self).arena.values,
            final(self).arena.gens == old(self).arena.gens,
            final(self).arena.effects == old(self).arena.effects,
            final(self).arena.sig_free == old(self).arena.sig_free,
            final(self).arena.eff_free == old(self).arena.eff_free,
            final(self).arena.refs == old(self).arena.refs,
            final(self).scopes == old(self).scopes,
            final(self).active == old(self).active,
            final(self).current == old(self).current,
            final(self).running == old(self).running,
            final(self).depth == old(self).depth,
            final(self).memo_depth == old(self).memo_depth,
            final(self).window == old(self).window,
            final(self).idle_hook == old(self).idle_hook,
            final(self).busy == old(self).busy,
            final(self).in_idle == old(self).in_idle,
            old(self).current is Some && old(self).arena.eff_live(old(self).current->Some_0) ==> {
                let e = old(self).current->Some_0;
                &&& final(self).arena.subscribers(s.id).contains(e)
                &&& final(self).arena.dependencies(e).contains(s.id)
                &&& forall|x: u32| #[trigger] final(self).arena.subscribers(s.id).contains(x) <==>
                        (old(self).arena.subscribers(s.id).contains(x) || x == e)
                &&& forall|t: int| 0 <= t < old(self).arena.n_signals() && t != s.id ==>
                        final(self).arena.subs@[t] == old(self).arena.subs@[t]
            },
            !(old(self).current is Some && old(self).arena.eff_live(old(self).current->Some_0)) ==>
                final(self).arena == old(self).arena,
    {
        let v = match &self.arena.values[s.id as usize] {
            Some(x) => x.clone(),
            None => { proof { assert(false); } self.arena.values[s.id as usize].clone().unwrap() }
        };
        if let Some(e) = self.current {
            if (e as usize) < self.arena.effects.len() && self.arena.effects[e as usize].live {
                self.arena.link(e, s.id);
            }
        }
        v
    }

    /// Write `value` through `s`. A stale handle changes nothing; inside a
    /// batch the signal is marked force-dirty; otherwise its current
    /// subscribers are returned to be woken.
    pub fn write(&mut self, s: Signal, value: V) -> (out: WriteOutcome)
        requires
            old(self).wf(),
        ensures
            final(self).wf(),
            !old(self).live(s) ==> *final(self) == *old(self) && out is Stale,
            old(self).live(s) ==> {
                &&& final(self).live(s)
                &&& final(self).arena.values@ == old(self).arena.values@.update(s.id as int, Some(value))
                &&& final(self).same_but_values(old(self))
                &&& old(self).window is Some ==> out is Deferred && final(self).window is Some
                        && window_is(final(self).window->Some_0, window_after(old(self).window->Some_0, s.id, true, None))
                &&& old(self).window is None ==> final(self).window is None && out is Wake
                        && out->effects@ == old(self).arena.subscribers(s.id) && out->notify
            },
    {
        if !((s.id as usize) < self.arena.values.len() && self.arena.gens[s.id as usize] == s.gen
            && self.arena.values[s.id as usize].is_some()) {
            return WriteOutcome::Stale;
        }
        let _prev = self.arena.replace_value(s.id, value);
        if self.window.is_some() {
            self.window_record(s.id, true, None);
            WriteOutcome::Deferred
        } else {
            let effects = self.arena.subs[s.id as usize].clone();
            WriteOutcome::Wake { effects, notify: true }
        }
    }

    /// The handle is live (an executable check).
    pub fn is_live(&self, s: Signal) -> (b: bool)
        requires
            self.wf(),
        ensures
            b == self.live(s),
    {
        (s.id as usize) < self.arena.values.len() && self.arena.gens[s.id as usize] == s.gen
            && self.arena.values[s.id as usize].is_some()
    }

    /// Whether `sid` is already dirty in the open window.
    pub fn window_contains(&self, sid: u32) -> (b: bool)
        requires
            self.wf(),
        ensures
            b == (self.window matches Some(w) && w.order@.contains(sid)),
    {
        match &self.window {
            Some(w) => contains_id(&w.order, sid),
            None => false,
        }
    }

    /// Write `value` only if it differs from the current value. Outside a
    /// batch an equal value wakes nobody. Inside a batch the value is
    /// written and, on the signal's first dirtying this window, the old
    /// value is kept for the flush to compare against.
    pub fn write_if_changed(&mut self, s: Signal, value: V) -> (out: WriteOutcome)
        requires
            old(self).wf(),
        ensures
            final(self).wf(),
            !old(self).live(s) ==> *final(self) == *old(self) && out is Stale,
            old(self).live(s) ==> {
                &&& final(self).live(s)
                &&& final(self).same_but_values(old(self))
                &&& old(self).window is Some ==> out is Deferred && final(self).window is Some
                        && final(self).arena.values@ == old(self).arena.values@.update(s.id as int, Some(value))
                        && window_is(final(self).window->Some_0, window_after(old(self).window->Some_0, s.id, false,
                            Some(old(self).arena.sig_value(s.id))))
                &&& old(self).window is None ==> final(self).window is None
                &&& old(self).window is None && out is Unchanged ==> final(self).arena.values == old(self).arena.values
                &&& old(self).window is None && out is Wake ==>
                        final(self).arena.values@ == old(self).arena.values@.update(s.id as int, Some(value))
                        && out->effects@ == old(self).arena.subscribers(s.id) && out->notify
                &&& old(self).window is None ==> (out is Unchanged || out is Wake)
                &&& old(self).window is None && V::obeys_eq_spec() ==>
                        (out is Unchanged <==> old(self).arena.sig_value(s.id).eq_spec(&value))
            },
    {
        if !self.is_live(s) {
            return WriteOutcome::Stale;
        }
        if self.window.is_some() {
            let first = !self.window_contains(s.id);
            let prev = self.arena.replace_value(s.id, value);
            if first {
                self.window_record(s.id, false, Some(prev));
            } else {
                proof {
                    let w = old(self).window->Some_0;
                    assert(w.order@.contains(s.id));
                    let k = choose|k: int| 0 <= k < w.order@.len() && w.order@[k] == s.id;
                    assert(w.force@.update(k, w.force@[k] || false) =~= w.force@);
                }
            }
            return WriteOutcome::Deferred;
        }
        let same = match &self.arena.values[s.id as usize] {
            Some(cur) => cur.eq(&value),
            None => { proof { assert(false); } false }
        };
        if same {
            WriteOutcome::Unchanged
        } else {
            let _prev = self.arena.replace_value(s.id, value);
            let effects = self.arena.subs[s.id as usize].clone();
            WriteOutcome::Wake { effects, notify: true }
        }
    }

    /// Replace the value of a live signal by `f` of it, then proceed as a
    /// plain write.
    pub fn update<F: FnOnce(V) -> V>(&mut self, s: Signal, f: F) -> (out: WriteOutcome)
        requires
            old(self).wf(),
            old(self).live(s) ==> f.requires((old(self).arena.sig_value(s.id),)),
        ensures
            final(self).wf(),
            !old(self).live(s) ==> *final(self) == *old(self) && out is Stale,
            old(self).live(s) ==> {
                &&& final(self).live(s)
                &&& f.ensures((old(self).arena.sig_value(s.id),), final(self).arena.sig_value(s.id))
                &&& final(self).arena.values@ == old(self).arena.values@.update(s.id as int,
                        Some(final(self).arena.sig_value(s.id)))
                &&& final(self).same_but_values(old(self))
                &&& old(self).window is Some ==> out is Deferred && final(self).window is Some
                        && window_is(final(self).window->Some_0, window_after(old(self).window->Some_0, s.id, true, None))
                &&& old(self).window is None ==> final(self).window is None && out is Wake
                        && out->effects@ == old(self).arena.subscribers(s.id) && out->notify
            },
    {
        if !self.is_live(s) {
            return WriteOutcome::Stale;
        }
        let cur = self.arena.take_value(s.id);
        let next = f(cur);
        proof {
            assert(!self.arena.sig_free@.contains(s.id)) by {
                if self.arena.sig_free@.contains(s.id) {
                    let k = choose|k: int| 0 <= k < self.arena.sig_free@.len() && self.arena.sig_free@[k] == s.id;
                    assert(old(self).arena.values@[self.arena.sig_free@[k] as int] is None);
                }
            }
        }
        self.arena.put_value(s.id, next);
        proof {
            assert(self.arena.values@ =~= old(self).arena.values@.update(s.id as int, Some(next)));
        }
        if self.window.is_some() {
            self.window_record(s.id, true, None);
            WriteOutcome::Deferred
        } else {
            let effects = self.arena.subs[s.id as usize].clone();
            WriteOutcome::Wake { effects, notify: true }
        }
    }

    /// Open a batch window unless one is open. Returns whether this call
    /// opened it (and so must close it).
    pub fn open_batch(&mut self) -> (outer: bool)
        requires
            old(self).wf(),
        ensures
            final(self).wf(),
            outer == (old(self).window is None),
            outer ==> final(self).window is Some && final(self).window->Some_0.order@.len() == 0,
            !outer ==> final(self).window == old(self).window,
            final(self).arena == old(self).arena,
            final(self).same_but_values(old(self)),
    {
        if self.window.is_none() {
            self.window = Some(DirtyWindow { order: Vec::new(), force: Vec::new(), initial: Vec::new() });
            true
        } else {
            false
        }
    }

    /// Append every id of `from` not yet in `acc`.
    fn merge_ids(acc: &mut Vec<u32>, from: &Vec<u32>)
        requires
            no_dup(old(acc)@),
        ensures
            no_dup(final(acc)@),
            forall|x: u32| #[trigger] final(acc)@.contains(x) <==> (old(acc)@.contains(x) || from@.contains(x)),
    {
        let mut i: usize = 0;
        while i < from.len()
            invariant
                0 <= i <= from@.len(),
                no_dup(acc@),
                forall|x: u32| acc@.contains(x) <==> (old(acc)@.contains(x) || from@.subrange(0, i as int).contains(x)),
            decreases from@.len() - i,
        {
            let y = from[i];
            insert_id(acc, y);
            proof {
                let pre = from@.subrange(0, i as int);
                assert(from@.subrange(0, i + 1) == pre.push(y));
                assert forall|x: u32| pre.push(y).contains(x) <==> (pre.contains(x) || x == y) by {
                    if pre.push(y).contains(x) {
                        let k = choose|k: int| 0 <= k < pre.len() + 1 && #[trigger] pre.push(y)[k] == x;
                        if k < pre.len() { assert(pre[k] == x); }
                    }
                    if pre.contains(x) {
                        let k = choose|k: int| 0 <= k < pre.len() && #[trigger] pre[k] == x;
                        assert(pre.push(y)[k] == x);
                    }
                    if x == y { assert(pre.push(y)[pre.len() as int] == x); }
                }
            }
            i = i + 1;
        }
        proof {
            assert(from@.subrange(0, from@.len() as int) == from@);
        }
    }

    /// Close the window: decide which dirtied signals really changed (a
    /// force-write always; a change-checked one when its final value
    /// differs from the window-initial one) and collect, without
    /// repeats, the effects subscribed to them.
    pub fn close_batch(&mut self) -> (r: (Vec<u32>, Vec<u32>))
        requires
            old(self).wf(),
            old(self).window is Some,
        ensures
            final(self).wf(),
            final(self).window is None,
            final(self).arena == old(self).arena,
            final(self).same_but_values(old(self)),
            no_dup(r.0@),
            no_dup(r.1@),
            forall|sid: u32| r.1@.contains(sid) ==> old(self).window->Some_0.order@.contains(sid),
            V::obeys_eq_spec() ==> forall|k: int| 0 <= k < old(self).window->Some_0.order@.len() ==>
                (r.1@.contains(#[trigger] old(self).window->Some_0.order@[k])
                    <==> entry_changed(old(self).arena, old(self).window->Some_0, k)),
            forall|x: u32| r.0@.contains(x) <==> exists|sid: u32| #[trigger] r.1@.contains(sid)
                && sid < old(self).arena.n_signals() && old(self).arena.subscribers(sid).contains(x),
    {
        let w = self.window.take().unwrap();
        let ghost ord = w.order@;
        let mut effects: Vec<u32> = Vec::new();
        let mut changed: Vec<u32> = Vec::new();
        let ghost mut dec: Seq<bool> = Seq::empty();
        let mut k: usize = 0;
        while k < w.order.len()
            invariant
                w.wf(),
                w == old(self).window->Some_0,
                self.arena == old(self).arena,
                self.arena.wf(),
                0 <= k <= w.order@.len(),
                dec.len() == k,
                V::obeys_eq_spec() ==> forall|j: int| 0 <= j < k ==> dec[j] == entry_changed(self.arena, w, j),
                no_dup(changed@),
                forall|sid: u32| changed@.contains(sid) <==> exists|j: int| 0 <= j < k && dec[j] && #[trigger] w.order@[j] == sid,
                no_dup(effects@),
                forall|x: u32| effects@.contains(x) <==> exists|sid: u32| #[trigger] changed@.contains(sid)
                    && sid < self.arena.n_signals() && self.arena.subscribers(sid).contains(x),
            decreases w.order@.len() - k,
        {
            let sid = w.order[k];
            let is_changed = if w.force[k] {
                true
            } else {
                match &w.initial[k] {
                    None => true,
                    Some(init) => {
                        if (sid as usize) < self.arena.values.len() {
                            match &self.arena.values[sid as usize] {
                                Some(cur) => !cur.eq(init),
                                None => false,
                            }
                        } else {
                            false
                        }
                    }
                }
            };
            let ghost old_changed = changed@;
            let ghost old_effects = effects@;
            proof {
                assert(!old_changed.contains(sid)) by {
                    if old_changed.contains(sid) {
                        let j = choose|j: int| 0 <= j < k && dec[j] && #[trigger] w.order@[j] == sid;
                        assert(w.order@[j] == w.order@[k as int]);
                    }
                }
            }
            if is_changed {
                changed.push(sid);
                if (sid as usize) < self.arena.subs.len() {
                    let from = &self.arena.subs[sid as usize];
                    proof { assert(from@ == self.arena.subscribers(sid)); }
                    Self::merge_ids(&mut effects, from);
                    proof {
                        assert forall|x: u32| effects@.contains(x) <==> (old_effects.contains(x)
                            || self.arena.subscribers(sid).contains(x)) by {
                            assert(effects@.contains(x) <==> (old_effects.contains(x) || from@.contains(x)));
                        }
                    }
                }
            }
            proof {
                dec = dec.push(is_changed);
                assert forall|j: int| 0 <= j < k + 1 implies #[trigger] dec[j] == (if j < k { dec.drop_last()[j] } else { is_changed }) by {}
                assert forall|x: u32| changed@.contains(x) <==> exists|j: int| 0 <= j < k + 1 && dec[j] && #[trigger] w.order@[j] == x by {
                    if changed@.contains(x) {
                        if is_changed && x == sid {
                            assert(dec[k as int] && w.order@[k as int] == x);
                        } else {
                            if is_changed {
                                let i = choose|i: int| 0 <= i < changed@.len() && changed@[i] == x;
                                if i < old_changed.len() { assert(old_changed[i] == x); assert(old_changed.contains(x)); }
                            } else {
                                assert(old_changed.contains(x));
                            }
                            let j = choose|j: int| 0 <= j < k && dec.drop_last()[j] && #[trigger] w.order@[j] == x;
                            assert(dec[j]);
                        }
                    }
                    if exists|j: int| 0 <= j < k + 1 && dec[j] && #[trigger] w.order@[j] == x {
                        let j = choose|j: int| 0 <= j < k + 1 && dec[j] && #[trigger] w.order@[j] == x;
                        if j == k {
                            assert(changed@[changed@.len() - 1] == x);
                        } else {
                            assert(dec.drop_last()[j]);
                            assert(old_changed.contains(x));
                            let i = choose|i: int| 0 <= i < old_changed.len() && old_changed[i] == x;
                            assert(changed@[i] == x);
                        }
                    }
                }
                if is_changed {
                    assert forall|a: int, b: int| 0 <= a < changed@.len() && 0 <= b < changed@.len() && a != b
                        implies changed@[a] != changed@[b] by {
                        if a < old_changed.len() && b < old_changed.len() {
                        } else if a < old_changed.len() {
                            assert(old_changed.contains(changed@[a]));
                        } else {
                            assert(old_changed.contains(changed@[b]));
                        }
                    }
                }
                assert forall|x: u32| effects@.contains(x) <==> exists|t: u32| #[trigger] changed@.contains(t)
                    && t < self.arena.n_signals() && self.arena.subscribers(t).contains(x) by {
                    if effects@.contains(x) {
                        if old_effects.contains(x) {
                            let t = choose|t: u32| #[trigger] old_changed.contains(t)
                                && t < self.arena.n_signals() && self.arena.subscribers(t).contains(x);
                            let i = choose|i: int| 0 <= i < old_changed.len() && old_changed[i] == t;
                            if is_changed { assert(changed@[i] == t); }
                            assert(changed@.contains(t));
                        } else {
                            assert(is_changed && sid < self.arena.n_signals());
                            assert(self.arena.subscribers(sid).contains(x));
                            assert(changed@[changed@.len() - 1] == sid);
                            assert(changed@.contains(sid));
                        }
                    }
                    if exists|t: u32| #[trigger] changed@.contains(t)
                        && t < self.arena.n_signals() && self.arena.subscribers(t).contains(x) {
                        let t = choose|t: u32| #[trigger] changed@.contains(t)
                            && t < self.arena.n_signals() && self.arena.subscribers(t).contains(x);
                        if is_changed && t == sid {
                            assert(self.arena.subscribers(sid).contains(x));
                            assert(effects@.contains(x));
                        } else {
                            if is_changed {
                                let i = choose|i: int| 0 <= i < changed@.len() && changed@[i] == t;
                                if i < old_changed.len() { assert(old_changed[i] == t); }
                            }
                            assert(old_changed.contains(t));
                            assert(old_effects.contains(x));
                        }
                    }
                }
                if V::obeys_eq_spec() {
                    assert(dec[k as int] == entry_changed(self.arena, w, k as int));
                }
            }
            k = k + 1;
        }
        proof {
            if V::obeys_eq_spec() {
                assert forall|j: int| 0 <= j < ord.len() implies
                    (changed@.contains(#[trigger] ord[j]) <==> entry_changed(old(self).arena, old(self).window->Some_0, j)) by {
                    if changed@.contains(ord[j]) {
                        let i = choose|i: int| 0 <= i < k && dec[i] && #[trigger] w.order@[i] == ord[j];
                        assert(i == j);
                    }
                    if entry_changed(old(self).arena, old(self).window->Some_0, j) {
                        assert(dec[j]);
                    }
                }
            }
            assert forall|sid: u32| changed@.contains(sid) implies ord.contains(sid) by {
                let j = choose|j: int| 0 <= j < k && dec[j] && #[trigger] w.order@[j] == sid;
            }
        }
        (effects, changed)
    }

    /// Store a new effect with the active scope stack as its owners. With
    /// `register`, the innermost active scope (if any) adopts it; the
    /// returned flag says whether the caller owns the slot instead.
    pub fn create_effect(&mut self, body: B, kind: EffectKind<V>, register: bool) -> (r: (u32, bool))
        requires
            old(self).wf(),
            old(self).arena.can_insert_effect(),
        ensures
            final(self).wf(),
            final(self).arena.eff_live(r.0),
            !old(self).arena.eff_live(r.0),
            old(self).arena.eff_free@.len() > 0 ==> r.0 == old(self).arena.eff_free@.last(),
            old(self).arena.eff_free@.len() == 0 ==> r.0 == old(self).arena.n_effects(),
            final(self).arena.effects@[r.0 as int].body == Some(body),
            final(self).arena.effects@[r.0 as int].owners@ == old(self).active@,
            final(self).arena.effects@[r.0 as int].kind == kind,
            final(self).arena.effects@[r.0 as int].cleanups@.len() == 0,
            !final(self).arena.effects@[r.0 as int].stable_deps,
            final(self).running == old(self).running,
            final(self).idle_hook == old(self).idle_hook,
            final(self).busy == old(self).busy,
            final(self).in_idle == old(self).in_idle,
            final(self).arena.dependencies(r.0).len() == 0,
            r.1 == !(register && old(self).top_scope_exists()),
            register && old(self).top_scope_exists() ==> final(self).top_scope_exists()
                && final(self).scopes@[old(self).active@.last() as int]->Some_0.effects@
                    == old(self).scopes@[old(self).active@.last() as int]->Some_0.effects@.push(r.0),
            final(self).arena.values == old(self).arena.values,
            final(self).arena.gens == old(self).arena.gens,
            final(self).arena.subs == old(self).arena.subs,
            final(self).active == old(self).active,
            final(self).current == old(self).current,
            final(self).depth == old(self).depth,
            final(self).memo_depth == old(self).memo_depth,
            final(self).window == old(self).window,
    {
        let owners = self.active.clone();
        let id = self.arena.insert_effect(body, owners, kind);
        let adopted = if register { self.register(id, 1) } else { false };
        (id, !adopted)
    }

    /// Free effect `e`, handing back its body and its pending cleanups
    /// (to be run last first); `None` if it was already free.
    pub fn dispose_effect(&mut self, e: u32) -> (r: Option<(Option<B>, Vec<B>)>)
        requires
            old(self).wf(),
        ensures
            final(self).wf(),
            e < old(self).arena.n_effects() ==> !final(self).arena.eff_live(e),
            r is Some <==> old(self).arena.eff_live(e),
            old(self).arena.eff_live(e) ==> final(self).arena.eff_free@ == old(self).arena.eff_free@.push(e),
            r matches Some(p) ==> p.0 == old(self).arena.effects@[e as int].body
                && p.1 == old(self).arena.effects@[e as int].cleanups,
            forall|s: int, x: u32| 0 <= s < final(self).arena.subs@.len() ==>
                (#[trigger] final(self).arena.subs@[s]@.contains(x) <==> (old(self).arena.subs@[s]@.contains(x) && x != e)),
            final(self).arena.values == old(self).arena.values,
            final(self).arena.gens == old(self).arena.gens,
            final(self).arena.refs == old(self).arena.refs,
            final(self).arena.effects@.len() == old(self).arena.effects@.len(),
            forall|f: int| 0 <= f < old(self).arena.n_effects() && f != e ==>
                final(self).arena.effects@[f] == old(self).arena.effects@[f],
            final(self).scopes == old(self).scopes,
            final(self).notifier_ids == old(self).notifier_ids,
            final(self).deferral == old(self).deferral,
            final(self).deferred == old(self).deferred,
            final(self).busy == old(self).busy,
            final(self).idle_hook == old(self).idle_hook,
            final(self).in_idle == old(self).in_idle,
            final(self).active == old(self).active,
            final(self).current == old(self).current,
            final(self).depth == old(self).depth,
            final(self).memo_depth == old(self).memo_depth,
            final(self).window == old(self).window,
    {
        if (e as usize) < self.arena.effects.len() {
            self.arena.free_effect(e)
        } else {
            None
        }
    }

    /// Start a run of effect `id`: refuse a re-entrant run of an effect
    /// already on the run stack and a run past the depth limit; otherwise
    /// go one level deeper and lend out the body and the cleanups of the
    /// previous run.
    pub fn begin_run(&mut self, id: u32) -> (r: RunStart<B>)
        requires
            old(self).wf(),
        ensures
            final(self).wf(),
            old(self).running@.contains(id) ==> r is Skip && *final(self) == *old(self),
            !old(self).running@.contains(id) && old(self).depth >= MAX_EFFECT_DEPTH ==>
                r is Overflow && *final(self) == (State { depth_exceeded: true, ..*old(self) }),
            !old(self).running@.contains(id) && old(self).depth < MAX_EFFECT_DEPTH
                && id >= old(self).arena.n_effects() ==> r is Skip && *final(self) == *old(self),
            !old(self).running@.contains(id) && old(self).depth < MAX_EFFECT_DEPTH
                && id < old(self).arena.n_effects() ==> {
                &&& r is Go
                &&& final(self).depth == old(self).depth + 1
                &&& r->body == old(self).arena.effects@[id as int].body
                &&& r->cleanups == old(self).arena.effects@[id as int].cleanups
                &&& r->stable == old(self).arena.effects@[id as int].stable_deps
                &&& final(self).arena.effects@[id as int].body is None
                &&& final(self).arena.effects@[id as int].cleanups@.len() == 0
                &&& final(self).arena.effects@[id as int].kind == old(self).arena.effects@[id as int].kind
                &&& final(self).arena.n_effects() == old(self).arena.n_effects()
                &&& final(self).arena.gens == old(self).arena.gens
                &&& final(self).arena.effects@[id as int].live == old(self).arena.effects@[id as int].live
                &&& final(self).arena.effects@[id as int].stable_deps == old(self).arena.effects@[id as int].stable_deps
                &&& final(self).idle_hook == old(self).idle_hook
                &&& final(self).busy == old(self).busy
                &&& final(self).in_idle == old(self).in_idle
                &&& final(self).arena.subs == old(self).arena.subs
                &&& final(self).arena.deps == old(self).arena.deps
                &&& final(self).arena.values == old(self).arena.values
            },
            final(self).running == old(self).running,
            final(self).active == old(self).active,
            final(self).current == old(self).current,
            final(self).memo_depth == old(self).memo_depth,
            final(self).window == old(self).window,
    {
        if contains_id(&self.running, id) {
            return RunStart::Skip;
        }
        if self.depth >= MAX_EFFECT_DEPTH {
            self.depth_exceeded = true;
            return RunStart::Overflow;
        }
        if (id as usize) >= self.arena.effects.len() {
            return RunStart::Skip;
        }
        self.depth = self.depth + 1;
        let body = self.arena.take_body(id);
        let cleanups = self.arena.take_cleanups(id);
        let stable = self.arena.effects[id as usize].stable_deps;
        RunStart::Go { body, cleanups, stable }
    }

    /// Frame the body call: drop the previous run's dependencies (unless
    /// stable), mark the effect running, restore its owner scopes and make
    /// reads track it (or, when stable, nothing).
    pub fn enter_body(&mut self, id: u32, stable: bool) -> (f: Frame)
        requires
            old(self).wf(),
        ensures
            final(self).wf(),
            f.prev_current == old(self).current,
            final(self).running@ == old(self).running@.push(id),
            final(self).current == if stable { None } else { Some(id) },
            forall|e: u32| #[trigger] final(self).arena.eff_live(e) == old(self).arena.eff_live(e),
            final(self).idle_hook == old(self).idle_hook,
            final(self).busy == old(self).busy,
            final(self).in_idle == old(self).in_idle,
            id < old(self).arena.n_effects() ==> {
                let owners = old(self).arena.effects@[id as int].owners@;
                &&& f.pushed == owners.len()
                &&& final(self).active@ == old(self).active@ + owners
            },
            id >= old(self).arena.n_effects() ==> f.pushed == 0 && final(self).active == old(self).active,
            id < old(self).arena.n_effects() && !stable ==> final(self).arena.dependencies(id).len() == 0
                && forall|s: int, x: u32| 0 <= s < final(self).arena.subs@.len() ==>
                    (#[trigger] final(self).arena.subs@[s]@.contains(x) <==> (old(self).arena.subs@[s]@.contains(x) && x != id)),
            (id >= old(self).arena.n_effects() || stable) ==> final(self).arena == old(self).arena,
            final(self).arena.gens == old(self).arena.gens,
            final(self).arena.values == old(self).arena.values,
            final(self).arena.effects == old(self).arena.effects,
            final(self).depth == old(self).depth,
            final(self).memo_depth == old(self).memo_depth,
            final(self).window == old(self).window,
    {
        let prev_current = self.current;
        let mut pushed: usize = 0;
        if (id as usize) < self.arena.effects.len() {
            if !stable {
                self.arena.unsubscribe(id);
            }
            let owners = self.arena.effects[id as usize].owners.clone();
            let ghost a0 = self.active@;
            let ghost ar = self.arena;
            let mut i: usize = 0;
            while i < owners.len()
                invariant
                    0 <= i <= owners@.len(),
                    self.arena == ar,
                    ar.wf(),
                    self.running == old(self).running,
                    self.idle_hook == old(self).idle_hook,
                    self.busy == old(self).busy,
                    self.in_idle == old(self).in_idle,
                    self.window == old(self).window,
                    self.window matches Some(w) ==> w.wf(),
                    self.notifiers@.len() == self.notifier_ids@.len(),
                    self.current == old(self).current,
                    self.depth == old(self).depth,
                    self.memo_depth == old(self).memo_depth,
                    self.active@ == a0 + owners@.subrange(0, i as int),
                decreases owners@.len() - i,
            {
                self.active.push(owners[i]);
                proof {
                    assert(owners@.subrange(0, i + 1) == owners@.subrange(0, i as int).push(owners@[i as int]));
                }
                i = i + 1;
            }
            proof {
                assert(owners@.subrange(0, owners@.len() as int) == owners@);
            }
            pushed = owners.len();
        }
        self.running.push(id);
        self.current = if stable { None } else { Some(id) };
        Frame { prev_current, pushed }
    }

    /// Undo `enter_body`: restore tracking and the scope stack, take the
    /// effect off the running list and return its body (kept only if the
    /// effect is still live).
    pub fn leave_body(&mut self, id: u32, f: Frame, body: Option<B>)
        requires
            old(self).wf(),
        ensures
            final(self).wf(),
            final(self).current == f.prev_current,
            f.pushed <= old(self).active@.len() ==>
                final(self).active@ == old(self).active@.subrange(0, old(self).active@.len() - f.pushed),
            forall|x: u32| #[trigger] final(self).running@.contains(x) <==> (old(self).running@.contains(x) && x != id),
            final(self).arena.n_effects() == old(self).arena.n_effects(),
            forall|e: u32| #[trigger] final(self).arena.eff_live(e) == old(self).arena.eff_live(e),
            body is Some && old(self).arena.eff_live(id) ==> final(self).arena.effects@[id as int].body == body,
            final(self).arena.values == old(self).arena.values,
            final(self).arena.subs == old(self).arena.subs,
            final(self).arena.deps == old(self).arena.deps,
            final(self).depth == old(self).depth,
            final(self).memo_depth == old(self).memo_depth,
            final(self).window == old(self).window,
            final(self).idle_hook == old(self).idle_hook,
            final(self).busy == old(self).busy,
            final(self).in_idle == old(self).in_idle,
    {
        self.current = f.prev_current;
        if f.pushed <= self.active.len() {
            let keep = self.active.len() - f.pushed;
            self.active.truncate(keep);
        }
        self.running = without_id(&self.running, id);
        if let Some(b) = body {
            if (id as usize) < self.arena.effects.len() {
                self.arena.restore_body(id, b);
            }
        }
    }

    /// Finish a run begun with `Go`: one level shallower.
    pub fn end_run(&mut self)
        requires
            old(self).wf(),
        ensures
            final(self).wf(),
            final(self).depth == if old(self).depth > 0 { (old(self).depth - 1) as u32 } else { 0 },
            final(self).arena == old(self).arena,
            final(self).window == old(self).window,
            final(self).current == old(self).current,
            final(self).active == old(self).active,
            final(self).memo_depth == old(self).memo_depth,
    {
        if self.depth > 0 {
            self.depth = self.depth - 1;
        }
    }
}

} // verus!
