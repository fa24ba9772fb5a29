//! The reactive runtime: the state machine of `state` plus the loop that
//! runs callbacks over it (effect runs, fan-out, batch flushes, scope
//! teardown), and the public operations built on it.
use vstd::prelude::*;
use crate::reactive::state::{State, Signal, WriteOutcome, RunStart, ScopeData, MAX_EFFECT_DEPTH, entry_changed};
use crate::reactive::arena::{EffectKind, MAX_SLOTS, DETACHED, count_some, count_live, total_len, next_gen};
use crate::seqs::no_dup;
use crate::reactive::context::{CleanupTarget, lookup, ctx_find, notifier_of, lemma_first_slot};
use crate::reactive::arena::ref_contents;
use vstd::std_specs::cmp::PartialEqSpec;

verus! {

/// Code the runtime calls back into. A callback value plays the part of
/// the closures the runtime is handed: effect bodies, memo computations
/// and equalities, `on` bodies, cleanups, external notifiers, scope
/// guards and the idle hook. The runtime assumes nothing of what a
/// callback does.
pub trait Reaction<V>: Sized {
    /// Run as an effect body; reads are tracked.
    fn run(&mut self, rt: &mut Runtime<V, Self>);
    /// Compute a memo's value; reads are tracked.
    fn compute(&mut self, rt: &mut Runtime<V, Self>) -> V;
    /// A memo's own equality on its values.
    fn same(&mut self, a: &V, b: &V) -> bool;
    /// An `on` body, given the tracked values now and on the previous run.
    fn changed(&mut self, rt: &mut Runtime<V, Self>, now: &Vec<V>, prev: &Option<Vec<V>>);
    /// Fire as a cleanup, an external notifier or the idle hook.
    fn fire(&mut self, rt: &mut Runtime<V, Self>);
}

/// The reactive runtime.
pub struct Runtime<V, B> {
    st: State<V, B>,
}

impl<V, B> Runtime<V, B> {
    #[verifier::type_invariant]
    spec fn inv(self) -> bool {
        &&& self.st.wf()
        &&& self.st.depth <= MAX_EFFECT_DEPTH
    }

    /// The runtime's current state.
    pub closed spec fn state(&self) -> State<V, B> {
        self.st
    }
}

/// What frames a call: run depth, memo nesting, the tracking target and
/// the active-scope stack. Every operation that runs callbacks restores it.
pub open spec fn same_frame<V, B>(a: State<V, B>, b: State<V, B>) -> bool {
    &&& a.depth == b.depth
    &&& a.memo_depth == b.memo_depth
    &&& a.current == b.current
    &&& a.active@ == b.active@
}

/// Closing a mutation window runs no callback: no idle hook is installed,
/// an outer window is still open, or the hook is already running.
pub open spec fn quiet<V, B>(s: State<V, B>) -> bool {
    s.idle_hook is None || s.busy > 1 || s.in_idle
}

/// Running nothing changed what later steps look at: the slots, the batch
/// window, the external notifiers, and quietness.
pub open spec fn untouched<V, B>(a: State<V, B>, b: State<V, B>) -> bool {
    &&& b.arena == a.arena
    &&& b.window == a.window
    &&& b.notifier_ids == a.notifier_ids
    &&& b.notifiers == a.notifiers
    &&& quiet(a) ==> quiet(b)
}

/// What a dispatch that ran no callback leaves: inside a quiet batch the
/// new state is stored and the window stays open; outside one, when
/// nothing listens to the state signal, the new state is stored and no
/// window is left open.
pub open spec fn dispatched<V, B>(a: State<V, B>, b: State<V, B>, s: Signal, v: V) -> bool {
    &&& a.live(s) && a.window is Some && quiet(a) ==> b.window is Some && stored(a, b, s, v)
    &&& a.live(s) && lone_write(a, s) ==> b.window is None && stored(a, b, s, v)
}

/// A dispatch of new state `v` through `s` outside any batch stores `v`
/// in its own window and flushes it: state `st` before the flush holds
/// `v` in `s`'s slot, the same subscriber links, and wakes only
/// subscribers of `s`, each once (see `flushes`).
pub open spec fn dispatch_flush<V: Clone + PartialEq, B: Reaction<V>>(a: State<V, B>, s: Signal, v: V, st: State<V, B>) -> bool {
    &&& flushes(st, a.depth)
    &&& st.arena.values@ == a.arena.values@.update(s.id as int, Some(v))
    &&& st.arena.subs == a.arena.subs
    &&& forall|x: u32| #[trigger] flush_woken(st, x) ==> st.arena.subscribers(s.id).contains(x)
}

/// Nothing listens to the signals written in the open batch window: no
/// effect subscribes to them and no external notifier watches them.
pub open spec fn unheard<V, B>(a: State<V, B>) -> bool {
    a.window matches Some(w) && forall|k: int| 0 <= k < w.order@.len() ==>
        (#[trigger] a.arena.subscribers(w.order@[k])).len() == 0 && !a.notifier_ids@.contains(w.order@[k] as u64)
}

/// At the run-depth limit effect runs are refused: nothing runs, nothing
/// but the overflow flag changes, and the flag is `exceeded`.
pub open spec fn refused<V, B>(a: State<V, B>, b: State<V, B>, exceeded: bool) -> bool {
    &&& untouched(a, b)
    &&& b.scopes == a.scopes
    &&& b.idle_hook == a.idle_hook
    &&& b.in_idle == a.in_idle
    &&& b.running == a.running
    &&& b.depth_exceeded == exceeded
}

/// What creating effect `id` with `body` and `kind` leaves when its first
/// run is refused at the depth limit: the effect is live, holds its body,
/// and the innermost scope adopted it when asked to; no signal changed.
pub open spec fn created<V: Clone + PartialEq, B>(a: State<V, B>, b: State<V, B>, id: u32, body: B, kind: EffectKind<V>, register: bool) -> bool {
    &&& b.arena.eff_live(id)
    &&& !a.arena.eff_live(id)
    &&& b.arena.effects@[id as int].body == Some(body)
    &&& b.arena.effects@[id as int].kind == kind
    &&& b.arena.values == a.arena.values
    &&& b.arena.gens == a.arena.gens
    &&& register && a.top_scope_exists() ==> b.top_scope_exists()
            && b.scopes@[a.active@.last() as int]->Some_0.effects@ == a.scopes@[a.active@.last() as int]->Some_0.effects@.push(id)
}

/// Derived signal `s` stands: it is live, and a live memo effect writes
/// it, whose last computed value the signal holds a clone of.
pub open spec fn memo_made<V: Clone, B>(b: State<V, B>, s: Signal, custom_eq: bool) -> bool {
    &&& b.live(s)
    &&& exists|id: u32| #[trigger] b.arena.eff_live(id) && (b.arena.effects@[id as int].kind matches
            EffectKind::Memo { out_id, out_gen, last, custom_eq: c }
            && out_id == s.id && out_gen == s.gen && c == custom_eq && cloned(last, b.arena.sig_value(s.id)))
}

/// Effect `e` would run its body as a plain effect at once when woken:
/// it is live, of plain kind, not on the run stack, its body is in its
/// slot, no cleanups are pending, and the run stack has room.
pub open spec fn ready_plain<V, B>(st: State<V, B>, e: u32) -> bool {
    &&& idle_plain(st, e)
    &&& st.depth < MAX_EFFECT_DEPTH
}

/// Effect `e` is live, of plain kind, not on the run stack, its body is
/// in its slot and no cleanups are pending.
pub open spec fn idle_plain<V, B>(st: State<V, B>, e: u32) -> bool {
    &&& st.arena.eff_live(e)
    &&& st.arena.effects@[e as int].kind is Plain
    &&& st.arena.effects@[e as int].body is Some
    &&& st.arena.effects@[e as int].cleanups@.len() == 0
    &&& !st.running@.contains(e)
}

/// Effect `e` would run its body as an `on` effect at once when woken: it
/// is on-ready, not on the run stack, its body is in its slot, no
/// cleanups are pending, and the run stack has room.
pub open spec fn ready_on<V, B>(st: State<V, B>, e: u32) -> bool {
    &&& idle_on(st, e)
    &&& st.depth < MAX_EFFECT_DEPTH
}

/// As `idle_plain`, for an `on` effect whose run calls its body.
pub open spec fn idle_on<V, B>(st: State<V, B>, e: u32) -> bool {
    &&& on_ready(st, e)
    &&& st.arena.eff_live(e)
    &&& st.arena.effects@[e as int].body is Some
    &&& st.arena.effects@[e as int].cleanups@.len() == 0
    &&& !st.running@.contains(e)
}

/// Effect `x` is woken when `st`'s open window is flushed: it subscribes
/// to a signal of the window whose value really changed.
pub open spec fn flush_woken<V: PartialEq, B>(st: State<V, B>, x: u32) -> bool {
    exists|k: int| 0 <= k < st.window->Some_0.order@.len()
        && #[trigger] entry_changed(st.arena, st.window->Some_0, k)
        && st.window->Some_0.order@[k] < st.arena.n_signals()
        && st.arena.subscribers(st.window->Some_0.order@[k]).contains(x)
}

/// A flush of `st`'s open window at run depth `depth` woke the effects
/// `ws` in that order, going through states `t`: `ws` holds each
/// subscriber of each signal whose value really changed exactly once (and
/// nothing else), and the first state has `st`'s slots and run stack
/// and, when there is an effect to wake, an open mutation window.
pub open spec fn flush_trace<V: Clone + PartialEq, B: Reaction<V>>(st: State<V, B>, depth: u32, ws: Seq<u32>,
    t: Seq<State<V, B>>) -> bool {
    &&& no_dup(ws)
    &&& forall|x: u32| ws.contains(x) <==> #[trigger] flush_woken(st, x)
    &&& fan_trace(ws, t)
    &&& t[0].arena == st.arena
    &&& t[0].running == st.running
    &&& t[0].depth == depth
    &&& ws.len() > 0 ==> t[0].busy >= 1
}

/// Signal slot `sid` was written in `st`'s open window and its value
/// really changed.
pub open spec fn changed_in<V: PartialEq, B>(st: State<V, B>, sid: u32) -> bool {
    exists|k: int| 0 <= k < st.window->Some_0.order@.len() && st.window->Some_0.order@[k] == sid
        && #[trigger] entry_changed(st.arena, st.window->Some_0, k)
}

/// One step of notifying slot `sid` in state `a`, leaving `b`: with no
/// external notifier registered nothing happens; the one registered
/// fires on `a`'s values.
pub open spec fn notified<V, B: Reaction<V>>(a: State<V, B>, sid: u32, b: State<V, B>) -> bool {
    &&& !a.notifier_ids@.contains(sid as u64) ==> b == a
    &&& notifier_of(a, sid as u64) is Some ==> fired(notifier_of(a, sid as u64)->Some_0, a.arena.values@)
}

/// After the effects of a flush of `st`'s window, the external notifiers
/// of the really changed signals `cs` (each once) were run one after the
/// other, going through states `u`.
pub open spec fn notify_trace<V: PartialEq, B: Reaction<V>>(st: State<V, B>, cs: Seq<u32>, u: Seq<State<V, B>>) -> bool {
    &&& no_dup(cs)
    &&& forall|sid: u32| cs.contains(sid) <==> #[trigger] changed_in(st, sid)
    &&& u.len() == cs.len() + 1
    &&& forall|j: int| 0 <= j < cs.len() ==> #[trigger] notified(u[j], cs[j], u[j + 1])
}

/// The flush of `st`'s open window at run depth `depth` woke every
/// subscriber of a really changed signal once, one after the other, as
/// `flush_trace` says (with no real change it woke nothing); then, once
/// the effects' window closed, it ran the external notifiers of the
/// really changed signals, as `notify_trace` says.
pub open spec fn flushes<V: Clone + PartialEq, B: Reaction<V>>(st: State<V, B>, depth: u32) -> bool {
    exists|ws: Seq<u32>, t: Seq<State<V, B>>, cs: Seq<u32>, u: Seq<State<V, B>>|
        #[trigger] flush_trace(st, depth, ws, t) && #[trigger] notify_trace(st, cs, u)
        && closed_after(t[ws.len() as int], u[0])
}

/// What a flush does depends only on the slots, the window and the run
/// stack.
proof fn lemma_flushes_frame<V: Clone + PartialEq, B: Reaction<V>>(a: State<V, B>, b: State<V, B>, d: u32)
    requires
        a.arena == b.arena,
        a.window == b.window,
        a.running == b.running,
        flushes(a, d),
    ensures
        flushes(b, d),
{
    let (ws, t, cs, u) = choose|ws: Seq<u32>, t: Seq<State<V, B>>, cs: Seq<u32>, u: Seq<State<V, B>>|
        #[trigger] flush_trace(a, d, ws, t) && #[trigger] notify_trace(a, cs, u) && closed_after(t[ws.len() as int], u[0]);
    assert forall|x: u32| ws.contains(x) <==> #[trigger] flush_woken(b, x) by {
        assert(flush_woken(a, x) == flush_woken(b, x));
    }
    assert forall|sid: u32| cs.contains(sid) <==> #[trigger] changed_in(b, sid) by {
        assert(changed_in(a, sid) == changed_in(b, sid));
    }
    assert(flush_trace(b, d, ws, t));
    assert(notify_trace(b, cs, u));
}

/// One step of waking effect `id` in state `a`, leaving state `b`: a
/// freed effect or one already on the run stack is skipped (`b == a`);
/// an idle one below the depth limit runs on `a` as `woken_runs` says.
/// Inside an open mutation window (busy count at least 1) the step leaves
/// the count as it found it, so the window stays open from one step to
/// the next and closes (running the idle hook) only after the last.
pub open spec fn woke<V: Clone, B: Reaction<V>>(a: State<V, B>, id: u32, b: State<V, B>) -> bool {
    &&& !a.arena.eff_live(id) ==> b == a
    &&& a.running@.contains(id) ==> b == a
    &&& woken_runs(a, id, a.depth)
    &&& 1 <= a.busy < u32::MAX ==> b.busy == a.busy
}

/// Waking `ids` in order went through states `t`: each effect is woken
/// once, in the state the previous one left.
pub open spec fn fan_trace<V: Clone, B: Reaction<V>>(ids: Seq<u32>, t: Seq<State<V, B>>) -> bool {
    &&& t.len() == ids.len() + 1
    &&& forall|k: int| 0 <= k < ids.len() ==> #[trigger] woke(t[k], ids[k], t[k + 1])
}

/// `b` has `a`'s slots, run stack and run depth.
pub open spec fn same_slots<V, B>(a: State<V, B>, b: State<V, B>) -> bool {
    &&& b.arena == a.arena
    &&& b.running == a.running
    &&& b.depth == a.depth
}

/// Woken effect `x` of `st`, when idle, runs at run depth `depth` (below
/// the limit) on the slots of `st`: a plain body runs, an `on` body gets
/// the dependency values and the recorded previous ones, a memo
/// recomputes.
pub open spec fn woken_runs<V: Clone, B: Reaction<V>>(st: State<V, B>, x: u32, depth: u32) -> bool {
    let slot = st.arena.effects@[x as int];
    &&& idle_plain(st, x) && depth < MAX_EFFECT_DEPTH ==> ran_plain(x, slot.body->Some_0, st.arena.values@)
    &&& idle_on(st, x) && depth < MAX_EFFECT_DEPTH ==> ran_on(x, slot.body->Some_0, on_values(st, x), slot.kind->prev)
    &&& idle_memo(st, x) && depth < MAX_EFFECT_DEPTH ==> ran_memo(x, slot.body->Some_0, st.arena.values@)
}

/// The body `body` of effect `e` was called (`Reaction::run`) on a
/// runtime where `e` is on the run stack and the signal slots held
/// `values`.
pub open spec fn ran_plain<V, B: Reaction<V>>(e: u32, body: B, values: Seq<Option<V>>) -> bool {
    exists|b: &mut B, r: &mut Runtime<V, B>| #[trigger] call_ensures(B::run, (b, r), ())
        && *b == body && (*r).state().running@.contains(e) && (*r).state().arena.values@ == values
}

/// The body `body` of `on` effect `e` was called (`Reaction::changed`)
/// on a runtime where `e` is on the run stack, with clones of `now` as
/// the tracked values and a clone of `prev` as the previous ones; the
/// runtime it was handed already records, in the live slot of `e`,
/// clones of those tracked values as the previous ones for the next run.
pub open spec fn ran_on<V: Clone, B: Reaction<V>>(e: u32, body: B, now: Seq<V>, prev: Option<Vec<V>>) -> bool {
    exists|b: &mut B, r: &mut Runtime<V, B>, n: &Vec<V>, p: &Option<Vec<V>>|
        #[trigger] call_ensures(B::changed, (b, r, n, p), ())
        && *b == body && (*r).state().running@.contains(e)
        && (p is None <==> prev is None) && (prev is Some ==> cloned(prev->Some_0, p->Some_0))
        && n@.len() == now.len() && forall|j: int| 0 <= j < now.len() ==> cloned(now[j], #[trigger] n@[j])
        && records_on(*r, e, n@)
}

/// Live `on` effect `e` of `rt` records clones of `now` as its previous
/// values.
pub open spec fn records_on<V: Clone, B>(rt: Runtime<V, B>, e: u32, now: Seq<V>) -> bool {
    rt.state().arena.eff_live(e) ==> {
        let k = rt.state().arena.effects@[e as int].kind;
        &&& k is On
        &&& k->prev is Some
        &&& k->prev->Some_0@.len() == now.len()
        &&& forall|j: int| 0 <= j < now.len() ==> cloned(now[j], #[trigger] k->prev->Some_0@[j])
    }
}

/// The body `body` of memo effect `e` recomputed (`Reaction::compute`) on
/// a runtime where `e` is on the run stack and the signal slots held
/// `values`.
pub open spec fn ran_memo<V, B: Reaction<V>>(e: u32, body: B, values: Seq<Option<V>>) -> bool {
    exists|b: &mut B, r: &mut Runtime<V, B>, v: V| #[trigger] call_ensures(B::compute, (b, r), v)
        && *b == body && (*r).state().running@.contains(e) && (*r).state().arena.values@ == values
}

/// Effect `e` would recompute as a memo at once when woken: as
/// `ready_plain`, for a memo effect.
pub open spec fn ready_memo<V, B>(st: State<V, B>, e: u32) -> bool {
    &&& idle_memo(st, e)
    &&& st.depth < MAX_EFFECT_DEPTH
}

/// As `idle_plain`, for a memo effect.
pub open spec fn idle_memo<V, B>(st: State<V, B>, e: u32) -> bool {
    &&& st.arena.eff_live(e)
    &&& st.arena.effects@[e as int].kind is Memo
    &&& st.arena.effects@[e as int].body is Some
    &&& st.arena.effects@[e as int].cleanups@.len() == 0
    &&& !st.running@.contains(e)
}

/// As `ran_on`, for a first run: no previous values.
pub open spec fn ran_on_first<V: Clone, B: Reaction<V>>(e: u32, body: B, now: Seq<V>) -> bool {
    ran_on(e, body, now, None)
}

/// Effect `id` is an `on` effect whose dependencies are all live and
/// whose run calls its body (it is not a deferred first run).
pub open spec fn on_ready<V, B>(st: State<V, B>, id: u32) -> bool {
    let k = st.arena.effects@[id as int].kind;
    &&& id < st.arena.n_effects()
    &&& k is On
    &&& !(k->defer && k->prev is None)
    &&& deps_live(st, k->dep_ids@, k->dep_gens@)
}

/// The values under slots `ids` in `values`.
pub open spec fn dep_values<V>(values: Seq<Option<V>>, ids: Seq<u32>) -> Seq<V> {
    Seq::new(ids.len(), |j: int| values[ids[j] as int]->Some_0)
}

/// The values of `on` dependencies `ids`/`gens` in `st`, when all are live.
pub open spec fn deps_live<V, B>(st: State<V, B>, ids: Seq<u32>, gens: Seq<u32>) -> bool {
    ids.len() == gens.len() && forall|j: int| 0 <= j < ids.len() ==> #[trigger] st.live(Signal { id: ids[j], gen: gens[j] })
}

/// Effect `id` is an `on` effect that has not run yet, does not defer
/// its first run, and whose dependencies are all live.
pub open spec fn on_first_ready<V, B>(st: State<V, B>, id: u32) -> bool {
    let k = st.arena.effects@[id as int].kind;
    &&& id < st.arena.n_effects()
    &&& k is On
    &&& k->prev is None
    &&& !k->defer
    &&& deps_live(st, k->dep_ids@, k->dep_gens@)
}

/// Effect `id` is a live `on` effect that has not run yet, defers its
/// first run, tracks its reads, and whose dependencies are all live.
pub open spec fn on_defer_ready<V, B>(st: State<V, B>, id: u32) -> bool {
    let k = st.arena.effects@[id as int].kind;
    &&& st.arena.eff_live(id)
    &&& k is On
    &&& k->prev is None
    &&& k->defer
    &&& !st.arena.effects@[id as int].stable_deps
    &&& deps_live(st, k->dep_ids@, k->dep_gens@)
}

/// What the skipped first run of deferred `on` effect `id` leaves: the
/// effect is still live and subscribed to each of its dependencies, and
/// the idle hook is as it was.
pub open spec fn on_deferred<V, B>(a: State<V, B>, b: State<V, B>, id: u32) -> bool {
    let ids = a.arena.effects@[id as int].kind->dep_ids@;
    &&& b.arena.eff_live(id)
    &&& forall|j: int| 0 <= j < ids.len() ==> #[trigger] b.arena.subscribers(ids[j]).contains(id)
    &&& b.idle_hook == a.idle_hook
    &&& b.in_idle == a.in_idle
}

/// The current values of `on` effect `id`'s dependencies.
pub open spec fn on_values<V, B>(st: State<V, B>, id: u32) -> Seq<V> {
    let ids = st.arena.effects@[id as int].kind->dep_ids@;
    Seq::new(ids.len(), |j: int| st.arena.sig_value(ids[j]))
}

/// Whether an `on` effect's first run is due, and with which values,
/// depends only on its kind, the slot values and their generations.
proof fn lemma_on_same<V, B>(a: State<V, B>, b: State<V, B>, id: u32)
    requires
        id < a.arena.n_effects(),
        b.arena.n_effects() == a.arena.n_effects(),
        b.arena.effects@[id as int].kind == a.arena.effects@[id as int].kind,
        b.arena.values == a.arena.values,
        b.arena.gens == a.arena.gens,
    ensures
        on_first_ready(a, id) == on_first_ready(b, id),
        on_ready(a, id) == on_ready(b, id),
        on_values(a, id) == on_values(b, id),
{
    let k = a.arena.effects@[id as int].kind;
    if k is On {
        assert forall|j: int| 0 <= j < k->dep_ids@.len() implies
            a.live(Signal { id: k->dep_ids@[j], gen: k->dep_gens@[j] }) == b.live(Signal { id: k->dep_ids@[j], gen: k->dep_gens@[j] }) by {}
        assert(deps_live(a, k->dep_ids@, k->dep_gens@) == deps_live(b, k->dep_ids@, k->dep_gens@));
    }
    assert(on_values(a, id) =~= on_values(b, id));
}

/// What a drop-deferral policy parks when effect `id` is disposed: its
/// pending cleanups, then its body.
pub open spec fn parked<V, B>(st: State<V, B>, id: u32) -> Seq<B> {
    let slot = st.arena.effects@[id as int];
    slot.cleanups@ + match slot.body { Some(b) => seq![b], None => Seq::empty() }
}

/// Memo body `body` computed (`Reaction::compute`) a seed value untracked,
/// on a runtime whose signal slots held `values`.
pub open spec fn seeded<V, B: Reaction<V>>(body: B, values: Seq<Option<V>>) -> bool {
    exists|b: &mut B, r: &mut Runtime<V, B>, v: V| #[trigger] call_ensures(B::compute, (b, r), v)
        && *b == body && (*r).state().current is None && (*r).state().arena.values@ == values
}

/// Callback `cb` was fired (`Reaction::fire`).
pub open spec fn fired_any<V, B: Reaction<V>>(cb: B) -> bool {
    exists|b: &mut B, r: &mut Runtime<V, B>| #[trigger] call_ensures(B::fire, (b, r), ()) && *b == cb
}

/// Callback `cb` was fired (`Reaction::fire`) on a runtime whose signal
/// slots held `values`.
pub open spec fn fired<V, B: Reaction<V>>(cb: B, values: Seq<Option<V>>) -> bool {
    exists|b: &mut B, r: &mut Runtime<V, B>| #[trigger] call_ensures(B::fire, (b, r), ())
        && *b == cb && (*r).state().arena.values@ == values
}

/// A write of `v` through `s` outside any batch, to a slot no effect
/// subscribes to, when closing its mutation window runs no idle hook,
/// fires the slot's external notifier with `v` stored.
pub open spec fn lone_notified<V, B: Reaction<V>>(a: State<V, B>, s: Signal, v: V) -> bool {
    a.live(s) && a.window is None && quiet(a) && a.memo_depth == 0
        && a.arena.subscribers(s.id).len() == 0 && notifier_of(a, s.id as u64) is Some
        ==> fired(notifier_of(a, s.id as u64)->Some_0, a.arena.values@.update(s.id as int, Some(v)))
}

/// A write of `v` through `s` when no mutation window is open closes the
/// window it opens itself: the idle hook, if one is installed and not
/// already running, fires with `v` stored.
pub open spec fn idle_after<V, B: Reaction<V>>(a: State<V, B>, s: Signal, v: V) -> bool {
    a.live(s) && a.memo_depth == 0 && a.busy == 0 && !a.in_idle && a.idle_hook is Some
        ==> fired(a.idle_hook->Some_0, a.arena.values@.update(s.id as int, Some(v)))
}

/// A write of `v` through `s` outside any batch, when closing its mutation
/// window runs no idle hook, wakes the slot's subscribers in order, with
/// `v` stored: when the first is ready to run at once, a plain effect's
/// body runs, an `on` effect's body gets the new dependency values and the
/// recorded previous ones, and a memo recomputes.
pub open spec fn first_woken<V: Clone, B: Reaction<V>>(a: State<V, B>, s: Signal, v: V) -> bool {
    let e0 = a.arena.subscribers(s.id)[0];
    let slot = a.arena.effects@[e0 as int];
    let values = a.arena.values@.update(s.id as int, Some(v));
    a.live(s) && a.window is None && quiet(a) && a.memo_depth == 0 && a.arena.subscribers(s.id).len() > 0 ==> {
        &&& ready_plain(a, e0) ==> ran_plain(e0, slot.body->Some_0, values)
        &&& ready_on(a, e0) ==> ran_on(e0, slot.body->Some_0, dep_values(values, slot.kind->dep_ids@), slot.kind->prev)
        &&& ready_memo(a, e0) ==> ran_memo(e0, slot.body->Some_0, values)
    }
}

/// State `t0`, where the fan-out of a write of `v` through `s` in `a`
/// starts, holds `v` in `s`'s slot and is otherwise `a`: the same other
/// slots, effects, links, run stack and run depth.
pub open spec fn written_start<V, B>(a: State<V, B>, s: Signal, v: V, t0: State<V, B>) -> bool {
    &&& t0.arena.values@ == a.arena.values@.update(s.id as int, Some(v))
    &&& t0.arena.gens == a.arena.gens
    &&& t0.arena.subs == a.arena.subs
    &&& t0.arena.deps == a.arena.deps
    &&& t0.arena.effects == a.arena.effects
    &&& t0.arena.sig_free == a.arena.sig_free
    &&& t0.arena.eff_free == a.arena.eff_free
    &&& t0.arena.refs == a.arena.refs
    &&& t0.arena.ref_free == a.arena.ref_free
    &&& t0.running == a.running
    &&& t0.depth == a.depth
}

/// A write of `v` through live `s` outside any batch, when closing its
/// mutation window runs no idle hook, stores `v` and then wakes each
/// subscriber of the slot once, in subscription order, each in the state
/// the previous one left (see `woke`), all in one open mutation window;
/// after the last one, the slot's external notifier fires (see
/// `notified_after`).
pub open spec fn fanned<V: Clone, B: Reaction<V>>(a: State<V, B>, s: Signal, v: V) -> bool {
    a.live(s) && a.window is None && quiet(a) && a.memo_depth == 0 ==>
        exists|t: Seq<State<V, B>>| #[trigger] fan_trace(a.arena.subscribers(s.id), t) && written_start(a, s, v, t[0])
            && t[0].busy >= 1 && notified_after(t[a.arena.subscribers(s.id).len() as int], s.id)
}

/// Closing a mutation window in state `last` left `m`: when that ran no
/// idle hook, the slots and the external notifiers are as they were.
pub open spec fn closed_after<V, B>(last: State<V, B>, m: State<V, B>) -> bool {
    quiet(last) ==> m.arena == last.arena && m.notifier_ids == last.notifier_ids && m.notifiers == last.notifiers
}

/// After the woken effects ran (leaving `last`) and their mutation window
/// closed, the external notifier of slot `sid`, if one was registered
/// then, was fired on the values of that moment.
pub open spec fn notified_after<V, B: Reaction<V>>(last: State<V, B>, sid: u32) -> bool {
    exists|m: State<V, B>| #[trigger] closed_after(last, m)
        && (notifier_of(m, sid as u64) is Some ==> fired(notifier_of(m, sid as u64)->Some_0, m.arena.values@))
}

/// A write that stores a value keeps an `on` effect ready, and its
/// dependency values are read from the new slots.
proof fn lemma_on_after_write<V, B>(a: State<V, B>, b: State<V, B>, e: u32, sid: u32, v: V)
    requires
        e < a.arena.n_effects(),
        sid < a.arena.n_signals(),
        b.arena.values@ == a.arena.values@.update(sid as int, Some(v)),
        b.arena.gens == a.arena.gens,
        b.arena.effects == a.arena.effects,
    ensures
        on_ready(a, e) ==> on_ready(b, e),
        on_ready(a, e) ==> on_values(b, e) == dep_values(b.arena.values@, a.arena.effects@[e as int].kind->dep_ids@),
{
    let k = a.arena.effects@[e as int].kind;
    if on_ready(a, e) {
        assert forall|j: int| 0 <= j < k->dep_ids@.len() implies
            #[trigger] b.live(Signal { id: k->dep_ids@[j], gen: k->dep_gens@[j] }) by {
            assert(a.live(Signal { id: k->dep_ids@[j], gen: k->dep_gens@[j] }));
        }
        assert(on_values(b, e) =~= dep_values(b.arena.values@, k->dep_ids@));
    }
}

/// A write through `s` outside any batch runs no callback: closing the
/// mutation window runs no idle hook, no effect subscribes to the slot
/// and no external notifier watches it.
pub open spec fn lone_write<V, B>(a: State<V, B>, s: Signal) -> bool {
    &&& a.window is None
    &&& quiet(a)
    &&& a.arena.subscribers(s.id).len() == 0
    &&& !a.notifier_ids@.contains(s.id as u64)
}

/// After a write of `v` through `s` the slot is still live and holds `v`,
/// every other slot as before.
pub open spec fn stored<V, B>(a: State<V, B>, b: State<V, B>, s: Signal, v: V) -> bool {
    &&& b.live(s)
    &&& b.arena.values@ == a.arena.values@.update(s.id as int, Some(v))
}

/// What a write of `v` through live `s` leaves: inside a quiet batch the
/// value is stored and the window stays open (notification waits for the
/// flush); outside a batch, a write nobody listens to just stores the
/// value, and one with subscribers stores it, wakes each subscriber once
/// in subscription order, then fires the slot's external notifier.
pub open spec fn wrote<V: Clone, B: Reaction<V>>(a: State<V, B>, b: State<V, B>, s: Signal, v: V) -> bool {
    &&& a.live(s) && a.window is Some && quiet(a) ==> b.window is Some && stored(a, b, s, v)
    &&& a.live(s) && lone_write(a, s) ==> stored(a, b, s, v)
    &&& first_woken(a, s, v)
    &&& fanned(a, s, v)
    &&& lone_notified(a, s, v)
    &&& idle_after(a, s, v)
}

/// As `wrote`, for a change-checked write: outside a batch an equal value
/// changes no slot and wakes nobody, a different one is written as
/// `wrote` says.
pub open spec fn wrote_if_changed<V: Clone + PartialEq, B: Reaction<V>>(a: State<V, B>, b: State<V, B>, s: Signal, v: V) -> bool {
    &&& a.live(s) && a.window is Some && quiet(a) ==> b.window is Some && stored(a, b, s, v)
    &&& a.live(s) && a.window is None && quiet(a) && V::obeys_eq_spec() && a.arena.sig_value(s.id).eq_spec(&v)
            ==> b.arena == a.arena
    &&& a.live(s) && lone_write(a, s) && V::obeys_eq_spec() && !a.arena.sig_value(s.id).eq_spec(&v)
            ==> stored(a, b, s, v)
    &&& V::obeys_eq_spec() && a.live(s) && !a.arena.sig_value(s.id).eq_spec(&v) ==> first_woken(a, s, v)
    &&& V::obeys_eq_spec() && a.live(s) && !a.arena.sig_value(s.id).eq_spec(&v) ==> fanned(a, s, v)
    &&& V::obeys_eq_spec() && a.live(s) && !a.arena.sig_value(s.id).eq_spec(&v) ==> lone_notified(a, s, v)
    &&& V::obeys_eq_spec() && a.live(s) && !a.arena.sig_value(s.id).eq_spec(&v) ==> idle_after(a, s, v)
}

/// Counters over the slot tables.
#[derive(Clone, Copy, Debug)]
pub struct ArenaStats {
    pub signals_in_use: usize,
    pub signals_total: usize,
    pub effects_in_use: usize,
    pub effects_total: usize,
    pub refs_in_use: usize,
    pub refs_total: usize,
    pub total_subscribers: usize,
    pub total_deps: usize,
}

impl<V: Clone + PartialEq, B: Reaction<V>> Runtime<V, B> {
    /// A runtime with no slots, no scopes and no open window.
    pub fn new() -> (rt: Self)
        ensures
            rt.state().wf(),
            rt.state().window is None,
            rt.state().memo_depth == 0,
            rt.state().current is None,
            rt.state().depth == 0,
            rt.state().busy == 0,
            rt.state().idle_hook is None,
            !rt.state().deferral,
            rt.state().active@.len() == 0,
            rt.state().scopes@.len() == 0,
            rt.state().arena.n_signals() == 0,
            rt.state().arena.n_effects() == 0,
            rt.state().arena.refs@.len() == 0,
    {
        Runtime { st: State::new() }
    }

    fn take_state(&mut self) -> (st: State<V, B>)
        ensures
            st == old(self).state(),
            st.wf(),
            st.depth <= MAX_EFFECT_DEPTH,
    {
        proof { use_type_invariant(&*self); }
        let mut st = State::new();
        std::mem::swap(&mut st, &mut self.st);
        st
    }

    fn put_state(&mut self, st: State<V, B>)
        requires
            st.wf(),
            st.depth <= MAX_EFFECT_DEPTH,
        ensures
            final(self).state() == st,
    {
        self.st = st;
    }

    /// Restore a saved frame.
    fn set_frame(&mut self, depth: u32, memo_depth: u32, current: Option<u32>, active: Vec<u32>)
        requires
            depth <= MAX_EFFECT_DEPTH,
        ensures
            final(self).state().depth == depth,
            final(self).state().memo_depth == memo_depth,
            final(self).state().current == current,
            final(self).state().active@ == active@,
            final(self).state().arena == old(self).state().arena,
            final(self).state().window == old(self).state().window,
            final(self).state().scopes == old(self).state().scopes,
            final(self).state().busy == old(self).state().busy,
            final(self).state().idle_hook == old(self).state().idle_hook,
            final(self).state().in_idle == old(self).state().in_idle,
            final(self).state().notifier_ids == old(self).state().notifier_ids,
            final(self).state().notifiers == old(self).state().notifiers,
            final(self).state().depth_exceeded == old(self).state().depth_exceeded,
            final(self).state().running == old(self).state().running,
            final(self).state().deferral == old(self).state().deferral,
            final(self).state().deferred == old(self).state().deferred,
    {
        let mut st = self.take_state();
        st.depth = depth;
        st.memo_depth = memo_depth;
        st.current = current;
        st.active = active;
        self.put_state(st);
    }

    /// Save the frame to restore later.
    fn frame(&self) -> (f: (u32, u32, Option<u32>, Vec<u32>))
        ensures
            f.0 == self.state().depth,
            f.0 <= MAX_EFFECT_DEPTH,
            f.1 == self.state().memo_depth,
            f.2 == self.state().current,
            f.3@ == self.state().active@,
    {
        proof { use_type_invariant(self); }
        (self.st.depth, self.st.memo_depth, self.st.current, self.st.active.clone())
    }

    /// Open a mutation window.
    fn enter_busy(&mut self)
        ensures
            final(self).state().busy == if old(self).state().busy < u32::MAX { (old(self).state().busy + 1) as u32 } else { old(self).state().busy },
            final(self).state().arena == old(self).state().arena,
            final(self).state().window == old(self).state().window,
            final(self).state().scopes == old(self).state().scopes,
            final(self).state().idle_hook == old(self).state().idle_hook,
            final(self).state().in_idle == old(self).state().in_idle,
            final(self).state().notifier_ids == old(self).state().notifier_ids,
            final(self).state().notifiers == old(self).state().notifiers,
            final(self).state().depth_exceeded == old(self).state().depth_exceeded,
            final(self).state().running == old(self).state().running,
            same_frame(old(self).state(), final(self).state()),
    {
        let mut st = self.take_state();
        if st.busy < u32::MAX {
            st.busy = st.busy + 1;
        }
        self.put_state(st);
    }

    /// Close a mutation window; when the outermost one closes, run the idle
    /// hook (never re-entrantly).
    fn exit_busy(&mut self)
        ensures
            same_frame(old(self).state(), final(self).state()),
            quiet(old(self).state()) ==> {
                &&& final(self).state().arena == old(self).state().arena
                &&& final(self).state().window == old(self).state().window
                &&& final(self).state().scopes == old(self).state().scopes
                &&& final(self).state().idle_hook == old(self).state().idle_hook
                &&& final(self).state().in_idle == old(self).state().in_idle
                &&& final(self).state().busy == if old(self).state().busy > 0 { (old(self).state().busy - 1) as u32 } else { 0 }
                &&& final(self).state().notifier_ids == old(self).state().notifier_ids
                &&& final(self).state().notifiers == old(self).state().notifiers
                &&& final(self).state().depth_exceeded == old(self).state().depth_exceeded
                &&& final(self).state().running == old(self).state().running
            },
            !quiet(old(self).state()) ==> !final(self).state().in_idle && final(self).state().idle_hook is Some,
            !quiet(old(self).state()) ==> fired(old(self).state().idle_hook->Some_0, old(self).state().arena.values@),
    {
        let f = self.frame();
        let mut st = self.take_state();
        st.busy = if st.busy > 0 { st.busy - 1 } else { 0 };
        let fire = st.busy == 0 && !st.in_idle;
        let taken = if fire { st.idle_hook.take() } else { None };
        if taken.is_some() {
            st.in_idle = true;
        }
        self.put_state(st);
        if let Some(mut hook) = taken {
            let ghost h0 = hook;
            hook.fire(self);
            proof { assert(fired(h0, old(self).state().arena.values@)); }
            let mut st = self.take_state();
            st.in_idle = false;
            if st.idle_hook.is_none() {
                st.idle_hook = Some(hook);
            }
            self.put_state(st);
            self.set_frame(f.0, f.1, f.2, f.3);
        }
    }

    /// Fire callbacks, last first.
    fn fire_all(&mut self, cbs: Vec<B>)
        ensures
            same_frame(old(self).state(), final(self).state()),
            cbs@.len() == 0 ==> final(self).state() == old(self).state(),
            forall|i: int| 0 <= i < cbs@.len() ==> #[trigger] fired_any::<V, B>(cbs@[i]),
    {
        let f = self.frame();
        let ghost all = cbs@;
        let mut cbs = cbs;
        let any = cbs.len() > 0;
        while cbs.len() > 0
            invariant
                !any ==> self.state() == old(self).state(),
                !any ==> cbs@.len() == 0,
                cbs@.len() <= all.len(),
                cbs@ == all.subrange(0, cbs@.len() as int),
                forall|i: int| cbs@.len() <= i < all.len() ==> #[trigger] fired_any::<V, B>(all[i]),
            decreases cbs@.len(),
        {
            let ghost n = cbs@.len();
            let mut cb = cbs.pop().unwrap();
            proof { assert(cb == all[n - 1]); }
            let ghost c0 = cb;
            cb.fire(self);
            proof {
                assert(fired_any::<V, B>(c0));
                assert(cbs@ =~= all.subrange(0, cbs@.len() as int));
            }
        }
        if any {
            self.set_frame(f.0, f.1, f.2, f.3);
        }
    }

    /// Drop finished callback objects, or park them when a drop-deferral
    /// policy is installed.
    fn retire(&mut self, items: Vec<B>)
        ensures
            final(self).state().arena == old(self).state().arena,
            final(self).state().window == old(self).state().window,
            final(self).state().scopes == old(self).state().scopes,
            final(self).state().notifier_ids == old(self).state().notifier_ids,
            same_frame(old(self).state(), final(self).state()),
            final(self).state().deferral == old(self).state().deferral,
            old(self).state().deferral ==> final(self).state().deferred@ == old(self).state().deferred@ + items@,
            !old(self).state().deferral ==> final(self).state().deferred == old(self).state().deferred,
    {
        if items.len() > 0 {
            let mut st = self.take_state();
            if st.deferral {
                let mut items = items;
                st.deferred.append(&mut items);
            }
            self.put_state(st);
        }
    }

    /// Run the external notifier registered for slot `sid`, if any.
    fn notify_external(&mut self, sid: u32)
        ensures
            same_frame(old(self).state(), final(self).state()),
            !old(self).state().notifier_ids@.contains(sid as u64) ==> final(self).state() == old(self).state(),
            notifier_of(old(self).state(), sid as u64) is Some ==>
                fired(notifier_of(old(self).state(), sid as u64)->Some_0, old(self).state().arena.values@),
    {
        let raw = sid as u64;
        let f = self.frame();
        let mut st = self.take_state();
        let idx = st.notifier_index(raw);
        let taken = match idx {
            Some(i) => st.notifiers[i].take(),
            None => None,
        };
        proof {
            if idx is None {
                assert(st == old(self).state());
            }
        }
        self.put_state(st);
        if let Some(mut cb) = taken {
            proof {
                if let Some(i) = idx {
                    lemma_first_slot(old(self).state().notifier_ids@, raw, i as int);
                }
            }
            let ghost cb0 = cb;
            cb.fire(self);
            proof { assert(fired(cb0, old(self).state().arena.values@)); }
            let mut st = self.take_state();
            let now = st.notifier_index(raw);
            if let Some(j) = now {
                if st.notifiers[j].is_none() {
                    st.notifiers.set(j, Some(cb));
                }
            }
            self.put_state(st);
            self.set_frame(f.0, f.1, f.2, f.3);
        }
    }

    /// Run effect `id` once, unless it is already running, freed, or the
    /// run stack is at its limit (then the overflow is recorded).
    fn run_effect(&mut self, id: u32, Ghost(fuel): Ghost<nat>)
        requires
            fuel >= MAX_EFFECT_DEPTH - old(self).state().depth,
        ensures
            same_frame(old(self).state(), final(self).state()),
            old(self).state().depth >= MAX_EFFECT_DEPTH ==> refused(old(self).state(), final(self).state(),
                old(self).state().depth_exceeded || !old(self).state().running@.contains(id))
                && final(self).state().busy == old(self).state().busy,
            old(self).state().running@.contains(id) ==> final(self).state() == old(self).state(),
            old(self).state().depth < MAX_EFFECT_DEPTH && !old(self).state().running@.contains(id)
                && id < old(self).state().arena.n_effects() ==>
                forall|i: int| 0 <= i < old(self).state().arena.effects@[id as int].cleanups@.len() ==>
                    #[trigger] fired_any::<V, B>(old(self).state().arena.effects@[id as int].cleanups@[i]),
            ready_plain(old(self).state(), id) ==>
                ran_plain(id, old(self).state().arena.effects@[id as int].body->Some_0, old(self).state().arena.values@),
            old(self).state().depth < MAX_EFFECT_DEPTH && !old(self).state().running@.contains(id)
                && old(self).state().arena.effects@[id as int].body is Some
                && old(self).state().arena.effects@[id as int].cleanups@.len() == 0
                && quiet(old(self).state()) && on_defer_ready(old(self).state(), id) ==>
                on_deferred(old(self).state(), final(self).state(), id),
            ready_on(old(self).state(), id) ==> ran_on(id, old(self).state().arena.effects@[id as int].body->Some_0,
                on_values(old(self).state(), id), old(self).state().arena.effects@[id as int].kind->prev),
            ready_memo(old(self).state(), id) ==>
                ran_memo(id, old(self).state().arena.effects@[id as int].body->Some_0, old(self).state().arena.values@),
            old(self).state().depth < MAX_EFFECT_DEPTH && !old(self).state().running@.contains(id)
                && old(self).state().arena.effects@[id as int].body is Some
                && old(self).state().arena.effects@[id as int].cleanups@.len() == 0
                && on_first_ready(old(self).state(), id) ==>
                ran_on_first(id, old(self).state().arena.effects@[id as int].body->Some_0, on_values(old(self).state(), id)),
            1 <= old(self).state().busy < u32::MAX ==> final(self).state().busy == old(self).state().busy,
        decreases fuel, 0nat,
    {
        let f = self.frame();
        let mut st = self.take_state();
        let start = st.begin_run(id);
        self.put_state(st);
        match start {
            RunStart::Go { body, cleanups, stable } => {
                self.enter_busy();
                proof { use_type_invariant(&*self); }
                let window_depth = self.st.busy;
                self.fire_all(cleanups);
                match body {
                    Some(b) => {
                        proof {
                            let s0 = old(self).state();
                            let s1 = self.state();
                            if s0.arena.effects@[id as int].cleanups@.len() == 0 && id < s0.arena.n_effects() {
                                lemma_on_same(s0, s1, id);
                            }
                            if s0.arena.effects@[id as int].cleanups@.len() == 0 && on_defer_ready(s0, id) {
                                let k = s0.arena.effects@[id as int].kind;
                                assert forall|j: int| 0 <= j < k->dep_ids@.len() implies
                                    #[trigger] s1.live(Signal { id: k->dep_ids@[j], gen: k->dep_gens@[j] }) by {
                                    assert(s0.live(Signal { id: k->dep_ids@[j], gen: k->dep_gens@[j] }));
                                }
                                assert(on_defer_ready(s1, id));
                            }
                        }
                        self.run_body(id, b, stable, Ghost((MAX_EFFECT_DEPTH - f.0 - 1) as nat));
                    }
                    None => {
                        if !stable {
                            let mut st = self.take_state();
                            if (id as usize) < st.arena.effects.len() {
                                st.arena.unsubscribe(id);
                            }
                            self.put_state(st);
                        }
                    }
                }
                let mut st = self.take_state();
                st.busy = window_depth;
                self.put_state(st);
                self.exit_busy();
                self.set_frame(f.0, f.1, f.2, f.3);
            }
            _ => {}
        }
    }

    /// The body part of a run: frame it, call it the way its kind says,
    /// and return it to its slot.
    fn run_body(&mut self, id: u32, body: B, stable: bool, Ghost(fuel): Ghost<nat>)
        requires
            fuel >= MAX_EFFECT_DEPTH - old(self).state().depth,
        ensures
            same_frame(old(self).state(), final(self).state()),
            final(self).state().arena.eff_live(id) ==> final(self).state().arena.effects@[id as int].body is Some,
            id >= old(self).state().arena.n_effects() || old(self).state().arena.effects@[id as int].kind is Plain ==>
                ran_plain(id, body, old(self).state().arena.values@),
            on_first_ready(old(self).state(), id) ==> ran_on_first(id, body, on_values(old(self).state(), id)),
            on_ready(old(self).state(), id) ==> ran_on(id, body, on_values(old(self).state(), id),
                old(self).state().arena.effects@[id as int].kind->prev),
            id < old(self).state().arena.n_effects() && old(self).state().arena.effects@[id as int].kind is Memo ==>
                ran_memo(id, body, old(self).state().arena.values@),
            on_defer_ready(old(self).state(), id) && !stable ==> on_deferred(old(self).state(), final(self).state(), id)
                && final(self).state().busy == old(self).state().busy,
        decreases fuel, 4nat,
    {
        let f = self.frame();
        let mut st = self.take_state();
        let kind = if (id as usize) < st.arena.effects.len() {
            st.arena.effects[id as usize].kind.copy()
        } else {
            EffectKind::Plain
        };
        let fr = st.enter_body(id, stable);
        self.put_state(st);
        let mut b = body;
        match kind {
            EffectKind::Plain => {
                let ghost values = old(self).state().arena.values@;
                assert(self.state().running@[self.state().running@.len() - 1] == id);
                assert(self.state().running@.contains(id));
                assert(self.state().arena.values@ == values);
                b.run(self);
                assert(ran_plain(id, body, values));
            }
            EffectKind::Memo { out_id, out_gen, last, custom_eq } => {
                let mut st = self.take_state();
                if st.memo_depth < u32::MAX {
                    st.memo_depth = st.memo_depth + 1;
                }
                self.put_state(st);
                let ghost values = old(self).state().arena.values@;
                assert(self.state().running@[self.state().running@.len() - 1] == id);
                let ghost b0 = b;
                let new = b.compute(self);
                proof { assert(ran_memo(id, b0, values)); }
                let inner = self.frame();
                self.set_frame(f.0, f.1, inner.2, inner.3);
                let same = if custom_eq { b.same(&last, &new) } else { last.eq(&new) };
                if !same {
                    let mut st = self.take_state();
                    if (id as usize) < st.arena.effects.len() && st.arena.effects[id as usize].live {
                        st.arena.set_kind(id, EffectKind::Memo { out_id, out_gen, last: new.clone(), custom_eq });
                    }
                    self.put_state(st);
                    self.write_and_fan(Signal { id: out_id, gen: out_gen }, new, false, Ghost(fuel));
                }
            }
            EffectKind::On { dep_ids, dep_gens, prev, defer } => {
                let ghost s0 = old(self).state();
                assert(self.state().running@[self.state().running@.len() - 1] == id);
                let ghost want = on_ready(s0, id);
                let ghost wantd = on_defer_ready(s0, id) && !stable;
                proof {
                    if wantd {
                        assert(s0.arena.effects@[id as int].kind->dep_ids@ == dep_ids@);
                        assert(s0.arena.effects@[id as int].kind->dep_gens@ == dep_gens@);
                        assert(prev is None && defer);
                        assert(self.state().current == Some(id));
                        assert(self.state().arena.eff_live(id));
                    }
                }
                proof {
                    if want {
                        assert(s0.arena.effects@[id as int].kind->dep_ids@ == dep_ids@);
                        assert(s0.arena.effects@[id as int].kind->dep_gens@ == dep_gens@);
                        assert(!(defer && prev is None));
                    }
                }
                let mut now: Vec<V> = Vec::new();
                let mut rec: Vec<V> = Vec::new();
                let mut all_live = dep_ids.len() == dep_gens.len();
                let mut i: usize = 0;
                while i < dep_ids.len() && i < dep_gens.len()
                    invariant
                        0 <= i,
                        self.state().arena.values == s0.arena.values,
                        self.state().arena.gens == s0.arena.gens,
                        self.state().running@.contains(id),
                        want ==> all_live && i <= dep_ids@.len() && now@.len() == i
                            && forall|j: int| 0 <= j < i ==> cloned(s0.arena.sig_value(dep_ids@[j]), #[trigger] now@[j]),
                        rec@.len() == now@.len(),
                        forall|j: int| 0 <= j < now@.len() ==> cloned(now@[j], #[trigger] rec@[j]),
                        want ==> deps_live(s0, dep_ids@, dep_gens@),
                        wantd ==> deps_live(s0, dep_ids@, dep_gens@) && all_live && i <= dep_ids@.len(),
                        wantd ==> self.state().current == Some(id) && self.state().arena.eff_live(id),
                        wantd ==> forall|j: int| 0 <= j < i ==> #[trigger] self.state().arena.subscribers(dep_ids@[j]).contains(id),
                        self.state().idle_hook == s0.idle_hook,
                        self.state().busy == s0.busy,
                        self.state().in_idle == s0.in_idle,
                    decreases dep_ids@.len() - i,
                {
                    let s = Signal { id: dep_ids[i], gen: dep_gens[i] };
                    proof {
                        if want || wantd {
                            assert(s0.live(Signal { id: dep_ids@[i as int], gen: dep_gens@[i as int] }));
                        }
                    }
                    let mut st = self.take_state();
                    let ghost before = now@;
                    let ghost before_rec = rec@;
                    let ghost sb = st;
                    if st.is_live(s) {
                        let v = st.read(s);
                        let kept = v.clone();
                        now.push(v);
                        rec.push(kept);
                        proof {
                            assert forall|j: int| 0 <= j < now@.len() implies cloned(now@[j], #[trigger] rec@[j]) by {
                                if j < before.len() { assert(now@[j] == before[j] && rec@[j] == before_rec[j]); }
                            }
                            if want {
                                assert forall|j: int| 0 <= j < i + 1 implies
                                    cloned(s0.arena.sig_value(dep_ids@[j]), #[trigger] now@[j]) by {
                                    if j < i { assert(now@[j] == before[j]); }
                                }
                            }
                            if wantd {
                                assert forall|j: int| 0 <= j < i + 1 implies
                                    #[trigger] st.arena.subscribers(dep_ids@[j]).contains(id) by {
                                    if j < i && dep_ids@[j] != dep_ids@[i as int] {
                                        assert(sb.arena.subscribers(dep_ids@[j]).contains(id));
                                        assert(s0.live(Signal { id: dep_ids@[j], gen: dep_gens@[j] }));
                                        assert(dep_ids@[j] < sb.arena.n_signals());
                                    }
                                }
                            }
                        }
                    } else {
                        all_live = false;
                    }
                    self.put_state(st);
                    i = i + 1;
                }
                let ghost sl = self.state();
                proof { if wantd { assert(defer && prev is None); } }
                if all_live {
                    let calls = !(defer && prev.is_none());
                    let mut st = self.take_state();
                    if (id as usize) < st.arena.effects.len() && st.arena.effects[id as usize].live {
                        st.arena.set_kind(id, EffectKind::On { dep_ids, dep_gens, prev: Some(rec), defer });
                    }
                    if calls {
                        st.current = None;
                    }
                    self.put_state(st);
                    if calls {
                        let ghost b0 = b;
                        proof { assert(records_on(*self, id, now@)); }
                        b.changed(self, &now, &prev);
                        proof {
                            if want {
                                assert(on_values(s0, id) =~= Seq::new(dep_ids@.len(), |j: int| s0.arena.sig_value(dep_ids@[j])));
                                assert(ran_on(id, b0, on_values(s0, id), s0.arena.effects@[id as int].kind->prev));
                            }
                        }
                    }
                }
                proof {
                    if wantd {
                        assert(self.state().arena.eff_live(id));
                        assert(self.state().idle_hook == s0.idle_hook);
                        assert(self.state().busy == s0.busy);
                        assert(self.state().in_idle == s0.in_idle);
                        assert(i == dep_ids@.len());
                        assert(self.state().arena.subs == sl.arena.subs);
                        assert forall|j: int| 0 <= j < dep_ids@.len() implies
                            #[trigger] self.state().arena.subscribers(dep_ids@[j]).contains(id) by {
                            assert(sl.arena.subscribers(dep_ids@[j]).contains(id));
                        }
                        assert(on_deferred(s0, self.state(), id));
                    }
                }
            }
        }
        let ghost sm = self.state();
        let inner = self.frame();
        self.set_frame(f.0, f.1, inner.2, inner.3);
        let mut st = self.take_state();
        st.leave_body(id, fr, Some(b));
        self.put_state(st);
        self.set_frame(f.0, f.1, f.2, f.3);
        proof {
            let s0 = old(self).state();
            if on_defer_ready(s0, id) && !stable {
                assert(on_deferred(s0, sm, id));
                let ids = s0.arena.effects@[id as int].kind->dep_ids@;
                assert(self.state().arena.subs == sm.arena.subs);
                assert forall|j: int| 0 <= j < ids.len() implies
                    #[trigger] self.state().arena.subscribers(ids[j]).contains(id) by {
                    assert(sm.arena.subscribers(ids[j]).contains(id));
                }
            }
        }
    }

    /// Write `value` through `s` (change-checked when `check`) inside a
    /// mutation window, then wake what the write calls for. Writes inside
    /// a memo computation are refused.
    fn write_and_fan(&mut self, s: Signal, value: V, check: bool, Ghost(fuel): Ghost<nat>)
        requires
            fuel >= MAX_EFFECT_DEPTH - old(self).state().depth,
        ensures
            same_frame(old(self).state(), final(self).state()),
            !old(self).state().live(s) || old(self).state().memo_depth > 0 ==> final(self).state() == old(self).state(),
            old(self).state().live(s) && old(self).state().memo_depth == 0 && old(self).state().window is Some
                && quiet(old(self).state()) ==> {
                &&& final(self).state().live(s)
                &&& final(self).state().window is Some
                &&& final(self).state().arena.values@ == old(self).state().arena.values@.update(s.id as int, Some(value))
                &&& final(self).state().arena.gens == old(self).state().arena.gens
                &&& final(self).state().arena.subs == old(self).state().arena.subs
                &&& final(self).state().notifier_ids == old(self).state().notifier_ids
                &&& forall|x: u32| #[trigger] final(self).state().window->Some_0.order@.contains(x) ==>
                        old(self).state().window->Some_0.order@.contains(x) || x == s.id
            },
            old(self).state().live(s) && old(self).state().memo_depth == 0 && lone_write(old(self).state(), s)
                && (!check || (V::obeys_eq_spec() && !old(self).state().arena.sig_value(s.id).eq_spec(&value))) ==>
                stored(old(self).state(), final(self).state(), s, value),
            old(self).state().live(s) && old(self).state().memo_depth == 0 && old(self).state().window is None
                && quiet(old(self).state()) && check && V::obeys_eq_spec()
                && old(self).state().arena.sig_value(s.id).eq_spec(&value) ==>
                final(self).state().arena == old(self).state().arena,
            !check || (V::obeys_eq_spec() && old(self).state().live(s)
                && !old(self).state().arena.sig_value(s.id).eq_spec(&value)) ==> first_woken(old(self).state(), s, value)
                && lone_notified(old(self).state(), s, value) && idle_after(old(self).state(), s, value)
                && fanned(old(self).state(), s, value),
        decreases fuel, 3nat,
    {
        proof { use_type_invariant(&*self); }
        if self.st.memo_depth > 0 || !self.st.is_live(s) {
            return;
        }
        let f = self.frame();
        self.enter_busy();
        let mut st = self.take_state();
        let out = if check { st.write_if_changed(s, value) } else { st.write(s, value) };
        self.put_state(st);
        self.exit_busy();
        match out {
            WriteOutcome::Wake { effects, notify } => {
                self.set_frame(f.0, f.1, f.2, f.3);
                proof {
                    let a = old(self).state();
                    if effects@.len() > 0 && effects@[0] < a.arena.n_effects() && a.window is None && quiet(a) {
                        lemma_on_after_write(a, self.state(), effects@[0], s.id, value);
                    }
                }
                self.fan_out(s.id, &effects, notify, Ghost(fuel));
            }
            _ => {}
        }
    }

    /// Wake `effects` for a write to slot `sid` in one mutation window,
    /// then run the slot's external notifier.
    fn fan_out(&mut self, sid: u32, effects: &Vec<u32>, notify: bool, Ghost(fuel): Ghost<nat>)
        requires
            fuel >= MAX_EFFECT_DEPTH - old(self).state().depth,
        ensures
            same_frame(old(self).state(), final(self).state()),
            effects@.len() == 0 && quiet(old(self).state()) && !(notify && old(self).state().notifier_ids@.contains(sid as u64))
                ==> untouched(old(self).state(), final(self).state()),
            effects@.len() > 0 && ready_plain(old(self).state(), effects@[0]) ==>
                ran_plain(effects@[0], old(self).state().arena.effects@[effects@[0] as int].body->Some_0, old(self).state().arena.values@),
            effects@.len() > 0 && ready_memo(old(self).state(), effects@[0]) ==>
                ran_memo(effects@[0], old(self).state().arena.effects@[effects@[0] as int].body->Some_0, old(self).state().arena.values@),
            effects@.len() > 0 && ready_on(old(self).state(), effects@[0]) ==>
                ran_on(effects@[0], old(self).state().arena.effects@[effects@[0] as int].body->Some_0,
                    on_values(old(self).state(), effects@[0]), old(self).state().arena.effects@[effects@[0] as int].kind->prev),
            exists|t: Seq<State<V, B>>| #[trigger] fan_trace(effects@, t) && same_slots(old(self).state(), t[0])
                && t[0].busy >= 1 && (notify ==> notified_after(t[effects@.len() as int], sid)),
            effects@.len() == 0 && notify && quiet(old(self).state()) && notifier_of(old(self).state(), sid as u64) is Some ==>
                fired(notifier_of(old(self).state(), sid as u64)->Some_0, old(self).state().arena.values@),
            quiet(old(self).state()) && old(self).state().depth >= MAX_EFFECT_DEPTH
                && !(notify && old(self).state().notifier_ids@.contains(sid as u64)) ==>
                refused(old(self).state(), final(self).state(), old(self).state().depth_exceeded
                    || exists|k: int| 0 <= k < effects@.len() && old(self).state().arena.eff_live(#[trigger] effects@[k])
                        && !old(self).state().running@.contains(effects@[k])),
        decreases fuel, 2nat,
    {
        let f = self.frame();
        self.run_effects(effects, Ghost(fuel));
        let ghost m = self.state();
        if notify {
            self.notify_external(sid);
        }
        self.set_frame(f.0, f.1, f.2, f.3);
        proof {
            let t = choose|t: Seq<State<V, B>>| #[trigger] fan_trace(effects@, t) && same_slots(old(self).state(), t[0])
                && t[0].busy >= 1 && closed_after(t[effects@.len() as int], m);
            if notify {
                assert(closed_after(t[effects@.len() as int], m));
                assert(notified_after(t[effects@.len() as int], sid));
            }
            assert(fan_trace(effects@, t) && same_slots(old(self).state(), t[0])
                && t[0].busy >= 1 && (notify ==> notified_after(t[effects@.len() as int], sid)));
        }
    }

    /// Run each still-live effect of `ids` in order, in one mutation window.
    fn run_effects(&mut self, ids: &Vec<u32>, Ghost(fuel): Ghost<nat>)
        requires
            fuel >= MAX_EFFECT_DEPTH - old(self).state().depth,
        ensures
            same_frame(old(self).state(), final(self).state()),
            ids@.len() == 0 && quiet(old(self).state()) ==> untouched(old(self).state(), final(self).state()),
            ids@.len() > 0 && ready_plain(old(self).state(), ids@[0]) ==>
                ran_plain(ids@[0], old(self).state().arena.effects@[ids@[0] as int].body->Some_0, old(self).state().arena.values@),
            ids@.len() > 0 && ready_on(old(self).state(), ids@[0]) ==>
                ran_on(ids@[0], old(self).state().arena.effects@[ids@[0] as int].body->Some_0,
                    on_values(old(self).state(), ids@[0]), old(self).state().arena.effects@[ids@[0] as int].kind->prev),
            ids@.len() > 0 && ready_memo(old(self).state(), ids@[0]) ==>
                ran_memo(ids@[0], old(self).state().arena.effects@[ids@[0] as int].body->Some_0, old(self).state().arena.values@),
            quiet(old(self).state()) && old(self).state().depth >= MAX_EFFECT_DEPTH ==>
                refused(old(self).state(), final(self).state(), old(self).state().depth_exceeded
                    || exists|k: int| 0 <= k < ids@.len() && old(self).state().arena.eff_live(#[trigger] ids@[k])
                        && !old(self).state().running@.contains(ids@[k])),
            exists|t: Seq<State<V, B>>| #[trigger] fan_trace(ids@, t) && same_slots(old(self).state(), t[0]),
            exists|t: Seq<State<V, B>>| #[trigger] fan_trace(ids@, t) && same_slots(old(self).state(), t[0])
                && t[0].busy >= 1 && closed_after(t[ids@.len() as int], final(self).state()),
        decreases fuel, 1nat,
    {
        let f = self.frame();
        self.enter_busy();
        let ghost mid = self.state();
        let ghost mut t: Seq<State<V, B>> = seq![mid];
        let mut i: usize = 0;
        while i < ids.len()
            invariant
                0 <= i <= ids@.len(),
                ids@.len() == 0 ==> self.state() == mid,
                i == 0 ==> self.state() == mid,
                t.len() == i + 1,
                t[0] == mid,
                t[i as int] == self.state(),
                forall|k: int| 0 <= k < i ==> #[trigger] woke(t[k], ids@[k], t[k + 1]),
                i > 0 && ids@.len() > 0 && ready_plain(old(self).state(), ids@[0]) ==>
                    ran_plain(ids@[0], old(self).state().arena.effects@[ids@[0] as int].body->Some_0, old(self).state().arena.values@),
                i > 0 && ids@.len() > 0 && ready_on(old(self).state(), ids@[0]) ==>
                    ran_on(ids@[0], old(self).state().arena.effects@[ids@[0] as int].body->Some_0,
                        on_values(old(self).state(), ids@[0]), old(self).state().arena.effects@[ids@[0] as int].kind->prev),
                i > 0 && ids@.len() > 0 && ready_memo(old(self).state(), ids@[0]) ==>
                    ran_memo(ids@[0], old(self).state().arena.effects@[ids@[0] as int].body->Some_0, old(self).state().arena.values@),
                mid.running == old(self).state().running,
                mid.depth == old(self).state().depth,
                mid.arena == old(self).state().arena,
                mid.scopes == old(self).state().scopes,
                mid.window == old(self).state().window,
                mid.notifier_ids == old(self).state().notifier_ids,
                mid.notifiers == old(self).state().notifiers,
                mid.running == old(self).state().running,
                mid.depth_exceeded == old(self).state().depth_exceeded,
                mid.idle_hook == old(self).state().idle_hook,
                mid.in_idle == old(self).state().in_idle,
                quiet(old(self).state()) ==> quiet(mid),
                same_frame(old(self).state(), self.state()),
                f.0 == old(self).state().depth,
                fuel >= MAX_EFFECT_DEPTH - f.0,
                mid.busy == if old(self).state().busy < u32::MAX { (old(self).state().busy + 1) as u32 } else { old(self).state().busy },
                quiet(old(self).state()) && old(self).state().depth >= MAX_EFFECT_DEPTH ==>
                    refused(mid, self.state(), old(self).state().depth_exceeded
                        || exists|k: int| 0 <= k < i && old(self).state().arena.eff_live(#[trigger] ids@[k])
                            && !old(self).state().running@.contains(ids@[k]))
                    && self.state().busy == mid.busy,
            decreases ids@.len() - i,
        {
            let id = ids[i];
            proof { use_type_invariant(&*self); }
            let live = (id as usize) < self.st.arena.effects.len() && self.st.arena.effects[id as usize].live;
            let ghost before = self.state();
            proof {
                if i == 0 && id < old(self).state().arena.n_effects() {
                    lemma_on_same(old(self).state(), self.state(), id);
                }
            }
            if live {
                self.run_effect(id, Ghost(fuel));
            }
            proof {
                assert(woke(before, id, self.state()));
                let t1 = t.push(self.state());
                assert forall|k: int| 0 <= k < i + 1 implies #[trigger] woke(t1[k], ids@[k], t1[k + 1]) by {
                    if k < i {
                        assert(t1[k] == t[k] && t1[k + 1] == t[k + 1]);
                    } else {
                        assert(t1[k] == before && t1[k + 1] == self.state());
                    }
                }
                t = t1;
            }
            proof {
                if quiet(old(self).state()) && old(self).state().depth >= MAX_EFFECT_DEPTH {
                    let e_old = old(self).state().depth_exceeded
                        || exists|k: int| 0 <= k < i && old(self).state().arena.eff_live(#[trigger] ids@[k])
                            && !old(self).state().running@.contains(ids@[k]);
                    let e_new = old(self).state().depth_exceeded
                        || exists|k: int| 0 <= k < i + 1 && old(self).state().arena.eff_live(#[trigger] ids@[k])
                            && !old(self).state().running@.contains(ids@[k]);
                    if old(self).state().arena.eff_live(ids@[i as int]) && !old(self).state().running@.contains(ids@[i as int]) {
                        assert(e_new);
                    }
                    if e_old {
                        if !old(self).state().depth_exceeded {
                            let k = choose|k: int| 0 <= k < i && old(self).state().arena.eff_live(#[trigger] ids@[k])
                                && !old(self).state().running@.contains(ids@[k]);
                            assert(0 <= k < i + 1);
                        }
                    }
                    if e_new && !e_old {
                        let k = choose|k: int| 0 <= k < i + 1 && old(self).state().arena.eff_live(#[trigger] ids@[k])
                            && !old(self).state().running@.contains(ids@[k]);
                        assert(k == i);
                    }
                    assert(e_new == (e_old || (old(self).state().arena.eff_live(ids@[i as int])
                        && !old(self).state().running@.contains(ids@[i as int]))));
                }
            }
            i = i + 1;
        }
        proof { assert(fan_trace(ids@, t) && same_slots(old(self).state(), t[0])); }
        let ghost last = self.state();
        self.exit_busy();
        self.set_frame(f.0, f.1, f.2, f.3);
        proof {
            assert(last == t[ids@.len() as int]);
            assert(closed_after(t[ids@.len() as int], self.state()));
        }
    }
}


impl<V: Clone + PartialEq, B: Reaction<V>> Runtime<V, B> {
    /// Flush a window this runtime opened: wake the effects of the signals
    /// that really changed, then their external notifiers.
    fn flush(&mut self)
        ensures
            same_frame(old(self).state(), final(self).state()),
            old(self).state().window is None ==> final(self).state() == old(self).state(),
            old(self).state().window is Some && unheard(old(self).state()) ==>
                final(self).state().window is None && final(self).state().arena == old(self).state().arena,
            old(self).state().window is Some && V::obeys_eq_spec() ==> flushes(old(self).state(), old(self).state().depth),
    {
        proof { use_type_invariant(&*self); }
        if self.st.window.is_none() {
            return;
        }
        let f = self.frame();
        let mut st = self.take_state();
        let (effects, changed) = st.close_batch();
        let ghost mid = st;
        proof {
            if unheard(old(self).state()) {
                let w = old(self).state().window->Some_0;
                if effects@.len() > 0 {
                    let x = effects@[0];
                    assert(effects@.contains(x));
                    let sid = choose|sid: u32| #[trigger] changed@.contains(sid)
                        && sid < old(self).state().arena.n_signals() && old(self).state().arena.subscribers(sid).contains(x);
                    assert(w.order@.contains(sid));
                    let k = choose|k: int| 0 <= k < w.order@.len() && w.order@[k] == sid;
                    assert(old(self).state().arena.subscribers(w.order@[k]).len() == 0);
                }
                assert forall|j: int| 0 <= j < changed@.len() implies
                    !mid.notifier_ids@.contains(#[trigger] changed@[j] as u64) by {
                    assert(changed@.contains(changed@[j]));
                    assert(w.order@.contains(changed@[j]));
                    let k = choose|k: int| 0 <= k < w.order@.len() && w.order@[k] == changed@[j];
                    assert(old(self).state().arena.subscribers(w.order@[k]).len() == 0);
                    assert(!old(self).state().notifier_ids@.contains(w.order@[k] as u64));
                }
            }
        }
        self.put_state(st);
        if effects.len() > 0 {
            self.run_effects(&effects, Ghost((MAX_EFFECT_DEPTH - f.0) as nat));
        }
        let ghost m = self.state();
        let ghost t: Seq<State<V, B>> = if effects@.len() > 0 {
            choose|t: Seq<State<V, B>>| #[trigger] fan_trace(effects@, t) && same_slots(mid, t[0])
                && t[0].busy >= 1 && closed_after(t[effects@.len() as int], m)
        } else {
            seq![mid]
        };
        proof {
            let st0 = old(self).state();
            if effects@.len() == 0 {
                assert(m == mid);
            }
            assert(fan_trace(effects@, t) && same_slots(mid, t[0]) && closed_after(t[effects@.len() as int], m));
            if V::obeys_eq_spec() {
                assert forall|x: u32| effects@.contains(x) <==> #[trigger] flush_woken(st0, x) by {
                    if effects@.contains(x) {
                        let sid = choose|sid: u32| #[trigger] changed@.contains(sid)
                            && sid < st0.arena.n_signals() && st0.arena.subscribers(sid).contains(x);
                        let k = choose|k: int| 0 <= k < st0.window->Some_0.order@.len() && st0.window->Some_0.order@[k] == sid;
                        assert(entry_changed(st0.arena, st0.window->Some_0, k));
                    }
                    if flush_woken(st0, x) {
                        let k = choose|k: int| 0 <= k < st0.window->Some_0.order@.len()
                            && #[trigger] entry_changed(st0.arena, st0.window->Some_0, k)
                            && st0.window->Some_0.order@[k] < st0.arena.n_signals()
                            && st0.arena.subscribers(st0.window->Some_0.order@[k]).contains(x);
                        assert(changed@.contains(st0.window->Some_0.order@[k]));
                    }
                }
                assert(flush_trace(st0, st0.depth, effects@, t));
            }
        }
        let ghost mut u: Seq<State<V, B>> = seq![m];
        let mut i: usize = 0;
        while i < changed.len()
            invariant
                0 <= i <= changed@.len(),
                same_frame(old(self).state(), self.state()),
                unheard(old(self).state()) ==> self.state() == mid,
                unheard(old(self).state()) ==> forall|j: int| 0 <= j < changed@.len() ==>
                    !mid.notifier_ids@.contains(#[trigger] changed@[j] as u64),
                u.len() == i + 1,
                u[0] == m,
                u[i as int] == self.state(),
                forall|j: int| 0 <= j < i ==> #[trigger] notified(u[j], changed@[j], u[j + 1]),
            decreases changed@.len() - i,
        {
            let ghost before = self.state();
            self.notify_external(changed[i]);
            proof {
                let u1 = u.push(self.state());
                assert forall|j: int| 0 <= j < i + 1 implies #[trigger] notified(u1[j], changed@[j], u1[j + 1]) by {
                    if j < i {
                        assert(u1[j] == u[j] && u1[j + 1] == u[j + 1]);
                    } else {
                        assert(u1[j] == before && u1[j + 1] == self.state());
                    }
                }
                u = u1;
            }
            i = i + 1;
        }
        proof {
            let st0 = old(self).state();
            if V::obeys_eq_spec() && st0.window is Some {
                let w = st0.window->Some_0;
                assert forall|sid: u32| changed@.contains(sid) <==> #[trigger] changed_in(st0, sid) by {
                    if changed@.contains(sid) {
                        assert(w.order@.contains(sid));
                        let k = choose|k: int| 0 <= k < w.order@.len() && w.order@[k] == sid;
                        assert(entry_changed(st0.arena, w, k));
                    }
                    if changed_in(st0, sid) {
                        let k = choose|k: int| 0 <= k < w.order@.len() && w.order@[k] == sid
                            && #[trigger] entry_changed(st0.arena, w, k);
                        assert(changed@.contains(w.order@[k]));
                    }
                }
                assert(notify_trace(st0, changed@, u));
                assert(flush_trace(st0, st0.depth, effects@, t));
                assert(closed_after(t[effects@.len() as int], u[0]));
            }
        }
        self.set_frame(f.0, f.1, f.2, f.3);
    }

    /// Create an effect of the given kind and run it once.
    fn create(&mut self, body: B, kind: EffectKind<V>, register: bool) -> (e: Effect)
        requires
            old(self).state().arena.can_insert_effect(),
        ensures
            !old(self).state().arena.eff_live(e.id),
            old(self).state().arena.eff_free@.len() > 0 ==> e.id == old(self).state().arena.eff_free@.last(),
            old(self).state().arena.eff_free@.len() == 0 ==> e.id == old(self).state().arena.n_effects(),
            e.owns == !(register && old(self).state().top_scope_exists()),
            same_frame(old(self).state(), final(self).state()),
            old(self).state().depth >= MAX_EFFECT_DEPTH ==> created(old(self).state(), final(self).state(), e.id, body, kind, register),
            old(self).state().depth < MAX_EFFECT_DEPTH && !old(self).state().running@.contains(e.id) && kind is Plain ==>
                ran_plain(e.id, body, old(self).state().arena.values@),
            old(self).state().depth < MAX_EFFECT_DEPTH && !old(self).state().running@.contains(e.id) && kind is On
                && kind->prev is None && kind->defer && deps_live(old(self).state(), kind->dep_ids@, kind->dep_gens@)
                && quiet(old(self).state()) ==> final(self).state().arena.eff_live(e.id)
                && forall|j: int| 0 <= j < kind->dep_ids@.len() ==>
                    #[trigger] final(self).state().arena.subscribers(kind->dep_ids@[j]).contains(e.id),
            old(self).state().depth < MAX_EFFECT_DEPTH && !old(self).state().running@.contains(e.id) && kind is On
                && kind->prev is None && !kind->defer && deps_live(old(self).state(), kind->dep_ids@, kind->dep_gens@) ==>
                ran_on_first(e.id, body, Seq::new(kind->dep_ids@.len(), |j: int| old(self).state().arena.sig_value(kind->dep_ids@[j]))),
    {
        let mut st = self.take_state();
        let ghost k = kind;
        let (id, owns) = st.create_effect(body, kind, register);
        self.put_state(st);
        proof {
            use_type_invariant(&*self);
            let s0 = old(self).state();
            let s1 = self.state();
            if k is On && deps_live(s0, k->dep_ids@, k->dep_gens@) {
                assert forall|j: int| 0 <= j < k->dep_ids@.len() implies
                    #[trigger] s1.live(Signal { id: k->dep_ids@[j], gen: k->dep_gens@[j] }) by {
                    assert(s0.live(Signal { id: k->dep_ids@[j], gen: k->dep_gens@[j] }));
                }
                assert(on_values(s1, id) =~= Seq::new(k->dep_ids@.len(), |j: int| s0.arena.sig_value(k->dep_ids@[j])));
                if k->defer && k->prev is None && quiet(s0) {
                    assert(on_defer_ready(s1, id));
                    assert(quiet(s1));
                }
            }
        }
        self.run_effect(id, Ghost((MAX_EFFECT_DEPTH - self.st.depth) as nat));
        Effect { id, owns }
    }

    /// Free effect `id`: fire its pending cleanups (last first) unless a
    /// drop-deferral policy parks them with its body.
    fn dispose_effect_slot(&mut self, id: u32)
        ensures
            same_frame(old(self).state(), final(self).state()),
            old(self).state().arena.eff_live(id) && old(self).state().arena.effects@[id as int].cleanups@.len() == 0 ==> {
                &&& !final(self).state().arena.eff_live(id)
                &&& forall|s: int, x: u32| 0 <= s < final(self).state().arena.subs@.len() ==>
                    (#[trigger] final(self).state().arena.subs@[s]@.contains(x)
                        <==> (old(self).state().arena.subs@[s]@.contains(x) && x != id))
            },
            old(self).state().deferral && old(self).state().arena.eff_live(id) ==>
                !final(self).state().arena.eff_live(id)
                && final(self).state().deferred@ == old(self).state().deferred@ + parked(old(self).state(), id)
                && final(self).state().arena.eff_free@ == old(self).state().arena.eff_free@.push(id),
            old(self).state().arena.eff_live(id) && old(self).state().arena.effects@[id as int].cleanups@.len() == 0 ==>
                final(self).state().arena.eff_free@ == old(self).state().arena.eff_free@.push(id),
            !old(self).state().deferral && old(self).state().arena.eff_live(id) ==>
                forall|i: int| 0 <= i < old(self).state().arena.effects@[id as int].cleanups@.len() ==>
                    #[trigger] fired_any::<V, B>(old(self).state().arena.effects@[id as int].cleanups@[i]),
    {
        let mut st = self.take_state();
        let r = st.dispose_effect(id);
        self.put_state(st);
        match r {
            Some((body, cleanups)) => {
                proof { use_type_invariant(&*self); }
                if self.st.deferral {
                    let mut items = cleanups;
                    match body {
                        Some(b) => { items.push(b); }
                        None => {}
                    }
                    self.retire(items);
                } else {
                    self.fire_all(cleanups);
                }
            }
            None => {}
        }
    }
}

impl Signal {
    /// A new signal holding `value`, owned by the innermost active scope.
    pub fn new<V: Clone + PartialEq, B: Reaction<V>>(rt: &mut Runtime<V, B>, value: V) -> (s: Signal)
        requires
            old(rt).state().arena.can_insert_signal(),
        ensures
            final(rt).state().wf(),
            final(rt).state().live(s),
            final(rt).state().arena.sig_value(s.id) == value,
            final(rt).state().arena.subscribers(s.id).len() == 0,
            !old(rt).state().arena.sig_live(s.id, s.gen),
            old(rt).state().arena.sig_free@.len() > 0 ==> s.id == old(rt).state().arena.sig_free@.last()
                && s.gen == old(rt).state().arena.gens@[s.id as int],
            old(rt).state().arena.sig_free@.len() == 0 ==> s.id == old(rt).state().arena.n_signals() && s.gen == 0,
            forall|t: Signal| t.id != s.id ==> (final(rt).state().live(t) == old(rt).state().live(t)),
            forall|t: Signal| t.id == s.id ==> (final(rt).state().live(t) <==> t.gen == s.gen),
            forall|t: Signal| t.id != s.id && old(rt).state().live(t) ==>
                final(rt).state().arena.sig_value(t.id) == old(rt).state().arena.sig_value(t.id),
            old(rt).state().top_scope_exists() ==>
                final(rt).state().scopes@[old(rt).state().active@.last() as int]->Some_0.signals@
                    == old(rt).state().scopes@[old(rt).state().active@.last() as int]->Some_0.signals@.push(s.id),
            final(rt).state().arena.effects == old(rt).state().arena.effects,
            final(rt).state().arena.eff_free == old(rt).state().arena.eff_free,
            final(rt).state().window == old(rt).state().window,
            same_frame(old(rt).state(), final(rt).state()),
    {
        let mut st = rt.take_state();
        let s = st.create_signal(value);
        rt.put_state(st);
        s
    }

    /// The slot id, as the raw number external code keys signals by.
    pub fn id(&self) -> (r: u64)
        ensures
            r == self.id as u64,
    {
        self.id as u64
    }

    /// Read the value; inside a tracking effect run the effect subscribes.
    pub fn get<V: Clone + PartialEq, B: Reaction<V>>(&self, rt: &mut Runtime<V, B>) -> (v: V)
        requires
            old(rt).state().live(*self),
        ensures
            cloned(old(rt).state().arena.sig_value(self.id), v),
            final(rt).state().arena.values == old(rt).state().arena.values,
            final(rt).state().arena.gens == old(rt).state().arena.gens,
            final(rt).state().window == old(rt).state().window,
            same_frame(old(rt).state(), final(rt).state()),
            old(rt).state().current is Some && old(rt).state().arena.eff_live(old(rt).state().current->Some_0) ==> {
                let e = old(rt).state().current->Some_0;
                &&& final(rt).state().arena.subscribers(self.id).contains(e)
                &&& final(rt).state().arena.dependencies(e).contains(self.id)
            },
            !(old(rt).state().current is Some && old(rt).state().arena.eff_live(old(rt).state().current->Some_0)) ==>
                final(rt).state().arena == old(rt).state().arena,
    {
        let mut st = rt.take_state();
        let v = st.read(*self);
        rt.put_state(st);
        v
    }

    /// Read the value without subscribing anything.
    pub fn get_untracked<V: Clone + PartialEq, B: Reaction<V>>(&self, rt: &Runtime<V, B>) -> (v: V)
        requires
            rt.state().live(*self),
        ensures
            cloned(rt.state().arena.sig_value(self.id), v),
    {
        proof { use_type_invariant(rt); }
        match &rt.st.arena.values[self.id as usize] {
            Some(x) => x.clone(),
            None => { proof { assert(false); } rt.st.arena.values[self.id as usize].clone().unwrap() }
        }
    }

    /// Write `value` and notify: now, or at the end of the open batch.
    /// A stale handle does nothing.
    pub fn set<V: Clone + PartialEq, B: Reaction<V>>(&self, rt: &mut Runtime<V, B>, value: V)
        requires
            old(rt).state().memo_depth == 0,
        ensures
            same_frame(old(rt).state(), final(rt).state()),
            !old(rt).state().live(*self) ==> final(rt).state() == old(rt).state(),
            old(rt).state().live(*self) && old(rt).state().window is Some && quiet(old(rt).state()) ==> {
                &&& final(rt).state().live(*self)
                &&& final(rt).state().window is Some
                &&& final(rt).state().arena.values@ == old(rt).state().arena.values@.update(self.id as int, Some(value))
                &&& final(rt).state().arena.subs == old(rt).state().arena.subs
                &&& final(rt).state().notifier_ids == old(rt).state().notifier_ids
                &&& forall|x: u32| #[trigger] final(rt).state().window->Some_0.order@.contains(x) ==>
                        old(rt).state().window->Some_0.order@.contains(x) || x == self.id
            },
            wrote(old(rt).state(), final(rt).state(), *self, value),
    {
        proof { use_type_invariant(&*rt); }
        rt.write_and_fan(*self, value, false, Ghost((MAX_EFFECT_DEPTH - rt.st.depth) as nat));
    }

    /// Replace the value by `f` of it and notify as `set` does. A stale
    /// handle does nothing (and `f` is not called).
    pub fn update<V: Clone + PartialEq, B: Reaction<V>, F: FnOnce(V) -> V>(&self, rt: &mut Runtime<V, B>, f: F)
        requires
            old(rt).state().memo_depth == 0,
            old(rt).state().live(*self) ==> f.requires((old(rt).state().arena.sig_value(self.id),)),
        ensures
            same_frame(old(rt).state(), final(rt).state()),
            !old(rt).state().live(*self) ==> final(rt).state() == old(rt).state(),
            old(rt).state().live(*self) ==> exists|v: V| #[trigger] f.ensures((old(rt).state().arena.sig_value(self.id),), v)
                && wrote(old(rt).state(), final(rt).state(), *self, v),
    {
        proof { use_type_invariant(&*rt); }
        if !rt.st.is_live(*self) {
            return;
        }
        let fr = rt.frame();
        rt.enter_busy();
        let mut st = rt.take_state();
        let out = st.update(*self, f);
        let ghost v = st.arena.sig_value(self.id);
        rt.put_state(st);
        rt.exit_busy();
        match out {
            WriteOutcome::Wake { effects, notify } => {
                rt.set_frame(fr.0, fr.1, fr.2, fr.3);
                proof {
                    let a = old(rt).state();
                    if effects@.len() > 0 && effects@[0] < a.arena.n_effects() && a.window is None && quiet(a) {
                        lemma_on_after_write(a, rt.state(), effects@[0], self.id, v);
                    }
                }
                rt.fan_out(self.id, &effects, notify, Ghost((MAX_EFFECT_DEPTH - fr.0) as nat));
            }
            _ => {}
        }
        proof { assert(f.ensures((old(rt).state().arena.sig_value(self.id),), v)); }
    }

    /// Write `value` only if it differs: outside a batch an equal value
    /// wakes nobody; inside one, the flush compares the final value with
    /// the value before the window's first change-checked write.
    pub fn set_if_changed<V: Clone + PartialEq, B: Reaction<V>>(&self, rt: &mut Runtime<V, B>, value: V)
        requires
            old(rt).state().memo_depth == 0,
        ensures
            same_frame(old(rt).state(), final(rt).state()),
            !old(rt).state().live(*self) ==> final(rt).state() == old(rt).state(),
            wrote_if_changed(old(rt).state(), final(rt).state(), *self, value),
    {
        proof { use_type_invariant(&*rt); }
        rt.write_and_fan(*self, value, true, Ghost((MAX_EFFECT_DEPTH - rt.st.depth) as nat));
    }

    /// Replace the value by `f` of it, notifying only on a real change.
    pub fn update_if_changed<V: Clone + PartialEq, B: Reaction<V>, F: FnOnce(V) -> V>(&self, rt: &mut Runtime<V, B>, f: F)
        requires
            old(rt).state().memo_depth == 0,
            old(rt).state().live(*self) ==> forall|v: V| #[trigger] cloned(old(rt).state().arena.sig_value(self.id), v) ==> f.requires((v,)),
        ensures
            same_frame(old(rt).state(), final(rt).state()),
            !old(rt).state().live(*self) ==> final(rt).state() == old(rt).state(),
            old(rt).state().live(*self) ==> exists|c: V, v: V| cloned(old(rt).state().arena.sig_value(self.id), c)
                && #[trigger] f.ensures((c,), v) && wrote_if_changed(old(rt).state(), final(rt).state(), *self, v),
    {
        proof { use_type_invariant(&*rt); }
        if !rt.st.is_live(*self) {
            return;
        }
        let cur = self.get_untracked(rt);
        let ghost c = cur;
        let next = f(cur);
        let ghost v = next;
        proof { use_type_invariant(&*rt); }
        rt.write_and_fan(*self, next, true, Ghost((MAX_EFFECT_DEPTH - rt.st.depth) as nat));
        proof { assert(cloned(old(rt).state().arena.sig_value(self.id), c) && f.ensures((c,), v)); }
    }

    /// The read and write halves of this signal.
    pub fn split(self) -> (r: (ReadSignal, WriteSignal))
        ensures
            r.0.sig == self,
            r.1.sig == self,
    {
        (ReadSignal { sig: self }, WriteSignal { sig: self })
    }

    /// The read half.
    pub fn read_only(self) -> (r: ReadSignal)
        ensures
            r.sig == self,
    {
        ReadSignal { sig: self }
    }

    /// The write half.
    pub fn write_only(self) -> (w: WriteSignal)
        ensures
            w.sig == self,
    {
        WriteSignal { sig: self }
    }
}

impl Default for Signal {
    /// The detached handle: names no slot, so every write through it is a
    /// no-op.
    fn default() -> (s: Self)
        ensures
            s.id == DETACHED,
            s.gen == 0,
    {
        Signal { id: DETACHED, gen: 0 }
    }
}

/// The read half of a signal.
#[derive(Clone, Copy, Debug)]
pub struct ReadSignal {
    pub sig: Signal,
}

/// The write half of a signal.
#[derive(Clone, Copy, Debug)]
pub struct WriteSignal {
    pub sig: Signal,
}

impl Default for ReadSignal {
    fn default() -> (r: Self)
        ensures
            r.sig.id == DETACHED,
    {
        ReadSignal { sig: Signal::default() }
    }
}

impl Default for WriteSignal {
    fn default() -> (w: Self)
        ensures
            w.sig.id == DETACHED,
    {
        WriteSignal { sig: Signal::default() }
    }
}

impl ReadSignal {
    pub fn id(&self) -> (r: u64)
        ensures
            r == self.sig.id as u64,
    {
        self.sig.id()
    }

    /// Tracked read, as `Signal::get`.
    pub fn get<V: Clone + PartialEq, B: Reaction<V>>(&self, rt: &mut Runtime<V, B>) -> (v: V)
        requires
            old(rt).state().live(self.sig),
        ensures
            cloned(old(rt).state().arena.sig_value(self.sig.id), v),
            final(rt).state().arena.values == old(rt).state().arena.values,
            same_frame(old(rt).state(), final(rt).state()),
    {
        self.sig.get(rt)
    }

    /// Untracked read, as `Signal::get_untracked`.
    pub fn get_untracked<V: Clone + PartialEq, B: Reaction<V>>(&self, rt: &Runtime<V, B>) -> (v: V)
        requires
            rt.state().live(self.sig),
        ensures
            cloned(rt.state().arena.sig_value(self.sig.id), v),
    {
        self.sig.get_untracked(rt)
    }
}

impl WriteSignal {
    pub fn id(&self) -> (r: u64)
        ensures
            r == self.sig.id as u64,
    {
        self.sig.id()
    }

    /// As `Signal::set`.
    pub fn set<V: Clone + PartialEq, B: Reaction<V>>(&self, rt: &mut Runtime<V, B>, value: V)
        requires
            old(rt).state().memo_depth == 0,
        ensures
            same_frame(old(rt).state(), final(rt).state()),
            !old(rt).state().live(self.sig) ==> final(rt).state() == old(rt).state(),
            wrote(old(rt).state(), final(rt).state(), self.sig, value),
    {
        self.sig.set(rt, value)
    }

    /// As `Signal::update`.
    pub fn update<V: Clone + PartialEq, B: Reaction<V>, F: FnOnce(V) -> V>(&self, rt: &mut Runtime<V, B>, f: F)
        requires
            old(rt).state().memo_depth == 0,
            old(rt).state().live(self.sig) ==> f.requires((old(rt).state().arena.sig_value(self.sig.id),)),
        ensures
            same_frame(old(rt).state(), final(rt).state()),
            !old(rt).state().live(self.sig) ==> final(rt).state() == old(rt).state(),
            old(rt).state().live(self.sig) ==> exists|v: V| #[trigger] f.ensures((old(rt).state().arena.sig_value(self.sig.id),), v)
                && wrote(old(rt).state(), final(rt).state(), self.sig, v),
    {
        self.sig.update(rt, f)
    }

    /// As `Signal::set_if_changed`.
    pub fn set_if_changed<V: Clone + PartialEq, B: Reaction<V>>(&self, rt: &mut Runtime<V, B>, value: V)
        requires
            old(rt).state().memo_depth == 0,
        ensures
            same_frame(old(rt).state(), final(rt).state()),
            !old(rt).state().live(self.sig) ==> final(rt).state() == old(rt).state(),
            wrote_if_changed(old(rt).state(), final(rt).state(), self.sig, value),
    {
        self.sig.set_if_changed(rt, value)
    }

    /// As `Signal::update_if_changed`.
    pub fn update_if_changed<V: Clone + PartialEq, B: Reaction<V>, F: FnOnce(V) -> V>(&self, rt: &mut Runtime<V, B>, f: F)
        requires
            old(rt).state().memo_depth == 0,
            old(rt).state().live(self.sig) ==> forall|v: V| #[trigger] cloned(old(rt).state().arena.sig_value(self.sig.id), v) ==> f.requires((v,)),
        ensures
            same_frame(old(rt).state(), final(rt).state()),
            !old(rt).state().live(self.sig) ==> final(rt).state() == old(rt).state(),
            old(rt).state().live(self.sig) ==> exists|c: V, v: V| cloned(old(rt).state().arena.sig_value(self.sig.id), c)
                && #[trigger] f.ensures((c,), v) && wrote_if_changed(old(rt).state(), final(rt).state(), self.sig, v),
    {
        self.sig.update_if_changed(rt, f)
    }
}

/// A handle whose slot a scope teardown freed is not revived when a new
/// signal reuses the slot: the teardown advanced the slot's generation
/// (`a` to `b`), the new signal `s` takes that generation, and in the
/// state `c` after its creation only handles of that generation are live
/// at the slot.
pub proof fn law_reused_slot_stays_dead<V, B>(a: State<V, B>, b: State<V, B>, c: State<V, B>, t: Signal, s: Signal)
    requires
        a.live(t),
        b.arena.gens@[t.id as int] == next_gen(a.arena.gens@[t.id as int]),
        s.id == t.id,
        s.gen == b.arena.gens@[s.id as int],
        forall|u: Signal| u.id == s.id ==> (c.live(u) <==> u.gen == s.gen),
    ensures
        !c.live(t),
{
}

/// Effect slots are recycled: an effect created right after one was
/// disposed (its slot pushed on the free list, `a` to `b`) takes that
/// slot, so create-and-dispose cycles keep the slot table bounded.
pub proof fn law_freed_effect_slot_is_reused<V, B>(a: State<V, B>, b: State<V, B>, freed: u32, created_id: u32)
    requires
        b.arena.eff_free@ == a.arena.eff_free@.push(freed),
        b.arena.eff_free@.len() > 0 ==> created_id == b.arena.eff_free@.last(),
    ensures
        created_id == freed,
{
}

/// A write outside any batch wakes every effect subscribed to the written
/// signal: for a write of `v` through `s` in state `a` (as `fanned`
/// describes it) and an effect `e` subscribed to `s`, `e` is woken at its
/// place in the subscription order, and a plain effect idle at that point
/// runs its body there (below the run-depth limit).
pub proof fn law_subscriber_is_woken_by_write<V: Clone, B: Reaction<V>>(a: State<V, B>, s: Signal, v: V, e: u32)
    requires
        fanned(a, s, v),
        a.live(s),
        a.window is None,
        quiet(a),
        a.memo_depth == 0,
        a.arena.subscribers(s.id).contains(e),
    ensures
        exists|t: Seq<State<V, B>>, k: int| #![trigger fan_trace(a.arena.subscribers(s.id), t), a.arena.subscribers(s.id)[k]]
            fan_trace(a.arena.subscribers(s.id), t)
            && 0 <= k < a.arena.subscribers(s.id).len() && a.arena.subscribers(s.id)[k] == e
            && woke(t[k], e, t[k + 1])
            && (idle_plain(t[k], e) && t[k].depth < MAX_EFFECT_DEPTH ==>
                ran_plain(e, t[k].arena.effects@[e as int].body->Some_0, t[k].arena.values@)),
{
    let ids = a.arena.subscribers(s.id);
    let t = choose|t: Seq<State<V, B>>| #[trigger] fan_trace(ids, t) && written_start(a, s, v, t[0])
        && t[0].busy >= 1 && notified_after(t[ids.len() as int], s.id);
    let k = choose|k: int| 0 <= k < ids.len() && ids[k] == e;
    assert(woke(t[k], ids[k], t[k + 1]));
}

/// Handle to an effect slot. Disposing it frees the slot unless a scope
/// adopted it.
pub struct Effect {
    pub id: u32,
    /// The handle (not a scope) owns the slot.
    pub owns: bool,
}

impl Effect {
    /// An effect running `body` now and after each change of what it
    /// read; the innermost active scope adopts it.
    pub fn new<V: Clone + PartialEq, B: Reaction<V>>(rt: &mut Runtime<V, B>, body: B) -> (e: Effect)
        requires
            old(rt).state().arena.can_insert_effect(),
        ensures
            !old(rt).state().arena.eff_live(e.id),
            old(rt).state().arena.eff_free@.len() > 0 ==> e.id == old(rt).state().arena.eff_free@.last(),
            old(rt).state().arena.eff_free@.len() == 0 ==> e.id == old(rt).state().arena.n_effects(),
            e.owns == !old(rt).state().top_scope_exists(),
            same_frame(old(rt).state(), final(rt).state()),
            old(rt).state().depth < MAX_EFFECT_DEPTH && !old(rt).state().running@.contains(e.id) ==>
                ran_plain(e.id, body, old(rt).state().arena.values@),
    {
        rt.create(body, EffectKind::Plain, true)
    }

    /// An effect owned by the innermost active scope. With no active scope
    /// nothing owns it: it runs once and is then disposed.
    pub fn scoped<V: Clone + PartialEq, B: Reaction<V>>(rt: &mut Runtime<V, B>, body: B)
        requires
            old(rt).state().arena.can_insert_effect(),
        ensures
            same_frame(old(rt).state(), final(rt).state()),
            old(rt).state().depth >= MAX_EFFECT_DEPTH && old(rt).state().top_scope_exists() ==>
                exists|id: u32| #[trigger] created(old(rt).state(), final(rt).state(), id, body, EffectKind::Plain, true),
            old(rt).state().depth < MAX_EFFECT_DEPTH ==> exists|id: u32| #![trigger old(rt).state().arena.eff_live(id)]
                !old(rt).state().arena.eff_live(id)
                && (!old(rt).state().running@.contains(id) ==> ran_plain(id, body, old(rt).state().arena.values@)),
    {
        let e = rt.create(body, EffectKind::Plain, true);
        proof {
            if old(rt).state().depth >= MAX_EFFECT_DEPTH {
                if old(rt).state().top_scope_exists() {
                    assert(created(old(rt).state(), rt.state(), e.id, body, EffectKind::Plain, true));
                }
            } else {
                assert(!old(rt).state().arena.eff_live(e.id)
                    && (!old(rt).state().running@.contains(e.id) ==> ran_plain(e.id, body, old(rt).state().arena.values@)));
            }
        }
        if e.owns {
            e.dispose(rt);
        }
    }

    /// An effect whose dependency set is recorded by its first run and
    /// kept as is by later runs.
    pub fn new_with_stable_deps<V: Clone + PartialEq, B: Reaction<V>>(rt: &mut Runtime<V, B>, body: B) -> (e: Effect)
        requires
            old(rt).state().arena.can_insert_effect(),
        ensures
            !old(rt).state().arena.eff_live(e.id),
            e.owns == !old(rt).state().top_scope_exists(),
            same_frame(old(rt).state(), final(rt).state()),
            old(rt).state().depth < MAX_EFFECT_DEPTH && !old(rt).state().running@.contains(e.id) ==>
                ran_plain(e.id, body, old(rt).state().arena.values@),
    {
        let e = rt.create(body, EffectKind::Plain, true);
        let mut st = rt.take_state();
        if (e.id as usize) < st.arena.effects.len() && st.arena.effects[e.id as usize].live {
            st.arena.set_stable(e.id);
        }
        rt.put_state(st);
        e
    }

    /// Keep the effect for the runtime's lifetime: the handle is given up
    /// without freeing the slot.
    pub fn persist(self)
    {
    }

    /// Give the handle up: an owning handle frees the slot (its pending
    /// cleanups fire, last first, or are parked by the drop-deferral
    /// policy); a scope-adopted one leaves it to the scope.
    pub fn dispose<V: Clone + PartialEq, B: Reaction<V>>(self, rt: &mut Runtime<V, B>)
        ensures
            same_frame(old(rt).state(), final(rt).state()),
            !self.owns ==> final(rt).state() == old(rt).state(),
            self.owns && old(rt).state().arena.eff_live(self.id)
                && old(rt).state().arena.effects@[self.id as int].cleanups@.len() == 0 ==>
                !final(rt).state().arena.eff_live(self.id),
            self.owns && old(rt).state().deferral && old(rt).state().arena.eff_live(self.id) ==>
                !final(rt).state().arena.eff_live(self.id)
                && final(rt).state().deferred@ == old(rt).state().deferred@ + parked(old(rt).state(), self.id),
            self.owns && old(rt).state().arena.eff_live(self.id)
                && (old(rt).state().deferral || old(rt).state().arena.effects@[self.id as int].cleanups@.len() == 0) ==>
                final(rt).state().arena.eff_free@ == old(rt).state().arena.eff_free@.push(self.id),
            self.owns && !old(rt).state().deferral && old(rt).state().arena.eff_live(self.id) ==>
                forall|i: int| 0 <= i < old(rt).state().arena.effects@[self.id as int].cleanups@.len() ==>
                    #[trigger] fired_any::<V, B>(old(rt).state().arena.effects@[self.id as int].cleanups@[i]),
    {
        if self.owns {
            rt.dispose_effect_slot(self.id);
        }
    }
}

/// A caller-owned effect: it runs until the subscription is disposed.
pub struct Subscription {
    pub effect: Effect,
}

impl Subscription {
    /// Keep the effect for the runtime's lifetime.
    pub fn leak(self)
    {
    }

    /// Stop the effect and free its slot.
    pub fn dispose<V: Clone + PartialEq, B: Reaction<V>>(self, rt: &mut Runtime<V, B>)
        ensures
            same_frame(old(rt).state(), final(rt).state()),
            self.effect.owns && old(rt).state().arena.eff_live(self.effect.id)
                && old(rt).state().arena.effects@[self.effect.id as int].cleanups@.len() == 0 ==>
                !final(rt).state().arena.eff_live(self.effect.id),
    {
        self.effect.dispose(rt)
    }
}

/// An effect owned by the returned subscription, never adopted by a scope.
pub fn watch<V: Clone + PartialEq, B: Reaction<V>>(rt: &mut Runtime<V, B>, body: B) -> (sub: Subscription)
    requires
        old(rt).state().arena.can_insert_effect(),
    ensures
        sub.effect.owns,
        !old(rt).state().arena.eff_live(sub.effect.id),
        same_frame(old(rt).state(), final(rt).state()),
        old(rt).state().depth < MAX_EFFECT_DEPTH && !old(rt).state().running@.contains(sub.effect.id) ==>
            ran_plain(sub.effect.id, body, old(rt).state().arena.values@),
{
    Subscription { effect: rt.create(body, EffectKind::Plain, false) }
}

/// A set of signals an `on` effect tracks: one signal or a tuple of them.
pub trait Trackable {
    /// The signals, in order (spec).
    spec fn dep_list(&self) -> Seq<Signal>;

    /// The signals, in order.
    fn signals(&self) -> (v: Vec<Signal>)
        ensures
            v@ == self.dep_list();
}

impl Trackable for Signal {
    open spec fn dep_list(&self) -> Seq<Signal> {
        seq![*self]
    }

    fn signals(&self) -> (v: Vec<Signal>)
    {
        let mut v = Vec::new();
        v.push(*self);
        v
    }
}

impl Trackable for (Signal, Signal) {
    open spec fn dep_list(&self) -> Seq<Signal> {
        seq![self.0, self.1]
    }

    fn signals(&self) -> (v: Vec<Signal>)
    {
        let mut v = Vec::new();
        v.push(self.0);
        v.push(self.1);
        v
    }
}

impl Trackable for (Signal, Signal, Signal) {
    open spec fn dep_list(&self) -> Seq<Signal> {
        seq![self.0, self.1, self.2]
    }

    fn signals(&self) -> (v: Vec<Signal>)
    {
        let mut v = Vec::new();
        v.push(self.0);
        v.push(self.1);
        v.push(self.2);
        v
    }
}

impl Trackable for (Signal, Signal, Signal, Signal) {
    open spec fn dep_list(&self) -> Seq<Signal> {
        seq![self.0, self.1, self.2, self.3]
    }

    fn signals(&self) -> (v: Vec<Signal>)
    {
        let mut v = Vec::new();
        v.push(self.0);
        v.push(self.1);
        v.push(self.2);
        v.push(self.3);
        v
    }
}

/// An effect that tracks exactly `deps` and calls `body.changed` with their
/// values now and on the previous run (`None` the first time); reads in
/// the body do not subscribe.
pub fn on<V: Clone + PartialEq, B: Reaction<V>, D: Trackable>(rt: &mut Runtime<V, B>, deps: D, body: B) -> (e: Effect)
    requires
        old(rt).state().arena.can_insert_effect(),
    ensures
        !old(rt).state().arena.eff_live(e.id),
        e.owns == !old(rt).state().top_scope_exists(),
        same_frame(old(rt).state(), final(rt).state()),
        old(rt).state().depth < MAX_EFFECT_DEPTH && !old(rt).state().running@.contains(e.id)
            && (forall|j: int| 0 <= j < deps.dep_list().len() ==> #[trigger] old(rt).state().live(deps.dep_list()[j])) ==>
            ran_on_first(e.id, body, Seq::new(deps.dep_list().len(), |j: int| old(rt).state().arena.sig_value(deps.dep_list()[j].id))),
{
    let (ids, gens) = split_handles(&deps.signals());
    proof {
        let t = deps.dep_list();
        assert forall|j: int| 0 <= j < ids@.len() implies
            (old(rt).state().live(t[j]) ==> #[trigger] old(rt).state().live(Signal { id: ids@[j], gen: gens@[j] })) by {
            assert(t[j] == Signal { id: ids@[j], gen: gens@[j] });
        }
        assert(Seq::new(ids@.len(), |j: int| old(rt).state().arena.sig_value(ids@[j]))
            =~= Seq::new(t.len(), |j: int| old(rt).state().arena.sig_value(t[j].id)));
    }
    rt.create(body, EffectKind::On { dep_ids: ids, dep_gens: gens, prev: None, defer: false }, true)
}

/// As `on`, but the body is skipped on the first run.
pub fn on_defer<V: Clone + PartialEq, B: Reaction<V>, D: Trackable>(rt: &mut Runtime<V, B>, deps: D, body: B) -> (e: Effect)
    requires
        old(rt).state().arena.can_insert_effect(),
    ensures
        !old(rt).state().arena.eff_live(e.id),
        e.owns == !old(rt).state().top_scope_exists(),
        same_frame(old(rt).state(), final(rt).state()),
        old(rt).state().depth < MAX_EFFECT_DEPTH && !old(rt).state().running@.contains(e.id) && quiet(old(rt).state())
            && (forall|j: int| 0 <= j < deps.dep_list().len() ==> #[trigger] old(rt).state().live(deps.dep_list()[j])) ==>
            final(rt).state().arena.eff_live(e.id)
            && forall|j: int| 0 <= j < deps.dep_list().len() ==>
                #[trigger] final(rt).state().arena.subscribers(deps.dep_list()[j].id).contains(e.id),
{
    let (ids, gens) = split_handles(&deps.signals());
    proof {
        let t = deps.dep_list();
        assert forall|j: int| 0 <= j < ids@.len() implies
            (old(rt).state().live(t[j]) ==> #[trigger] old(rt).state().live(Signal { id: ids@[j], gen: gens@[j] })) by {
            assert(t[j] == Signal { id: ids@[j], gen: gens@[j] });
        }
    }
    let ghost gi = ids@;
    let ghost gg = gens@;
    let kind = EffectKind::On { dep_ids: ids, dep_gens: gens, prev: None, defer: true };
    let ghost k = kind;
    let e = rt.create(body, kind, true);
    proof {
        let t = deps.dep_list();
        let a = old(rt).state();
        if a.depth < MAX_EFFECT_DEPTH && !a.running@.contains(e.id) && quiet(a)
            && (forall|j: int| 0 <= j < t.len() ==> #[trigger] a.live(t[j])) {
            assert(deps_live(a, gi, gg));
            assert(k->dep_ids@ == gi && k->dep_gens@ == gg);
            assert(rt.state().arena.eff_live(e.id));
            assert forall|j: int| 0 <= j < t.len() implies
                #[trigger] rt.state().arena.subscribers(t[j].id).contains(e.id) by {
                assert(gi[j] == t[j].id);
                assert(rt.state().arena.subscribers(k->dep_ids@[j]).contains(e.id));
            }
        }
    }
    e
}

/// The ids and generations of `deps`, in order.
fn split_handles(deps: &Vec<Signal>) -> (r: (Vec<u32>, Vec<u32>))
    ensures
        r.0@.len() == deps@.len(),
        r.1@.len() == deps@.len(),
        forall|i: int| 0 <= i < deps@.len() ==> r.0@[i] == deps@[i].id && r.1@[i] == deps@[i].gen,
{
    let mut ids: Vec<u32> = Vec::new();
    let mut gens: Vec<u32> = Vec::new();
    let mut i: usize = 0;
    while i < deps.len()
        invariant
            0 <= i <= deps@.len(),
            ids@.len() == i,
            gens@.len() == i,
            forall|k: int| 0 <= k < i ==> ids@[k] == deps@[k].id && gens@[k] == deps@[k].gen,
        decreases deps@.len() - i,
    {
        ids.push(deps[i].id);
        gens.push(deps[i].gen);
        i = i + 1;
    }
    (ids, gens)
}

/// A derived signal: `body.compute` runs once untracked to seed it, then as
/// an effect whose result is written out only when it differs from the
/// last one (by `==`, or by `body.same` with `custom_eq`). `None` when the
/// slot tables filled up during the first computation.
fn derive<V: Clone + PartialEq, B: Reaction<V>>(rt: &mut Runtime<V, B>, body: B, custom_eq: bool) -> (r: Option<ReadSignal>)
    ensures
        same_frame(old(rt).state(), final(rt).state()),
        old(rt).state().depth >= MAX_EFFECT_DEPTH ==> (r matches Some(rs) ==> memo_made(final(rt).state(), rs.sig, custom_eq)),
        seeded(body, old(rt).state().arena.values@),
        exists|b: &mut B, x: &mut Runtime<V, B>, v: V| #[trigger] call_ensures(B::compute, (b, x), v)
            && *b == body && (*x).state().current is None && (*x).state().arena.values@ == old(rt).state().arena.values@
            && (r is None <==> !(final(x).state().arena.can_insert_signal() && final(x).state().arena.can_insert_effect())),
{
    let f = rt.frame();
    let ghost b0 = body;
    let mut body = body;
    let mut st = rt.take_state();
    if st.memo_depth < u32::MAX {
        st.memo_depth = st.memo_depth + 1;
    }
    st.current = None;
    rt.put_state(st);
    let initial = body.compute(rt);
    let ghost after = rt.state();
    proof { assert(seeded(b0, old(rt).state().arena.values@)); }
    rt.set_frame(f.0, f.1, f.2, f.3);
    proof { use_type_invariant(&*rt); }
    if !(rt.st.arena.sig_free.len() > 0 || rt.st.arena.values.len() < MAX_SLOTS as usize) {
        return None;
    }
    let s = Signal::new(rt, initial.clone());
    proof { use_type_invariant(&*rt); }
    if !(rt.st.arena.eff_free.len() > 0 || rt.st.arena.effects.len() < MAX_SLOTS as usize) {
        return None;
    }
    let ghost seed = initial;
    let e = rt.create(body, EffectKind::Memo { out_id: s.id, out_gen: s.gen, last: initial, custom_eq }, true);
    proof {
        if old(rt).state().depth >= MAX_EFFECT_DEPTH {
            assert(rt.state().arena.eff_live(e.id));
        }
    }
    e.persist();
    Some(s.read_only())
}

/// A derived signal notifying only when its value changes (by `==`).
pub fn memo<V: Clone + PartialEq, B: Reaction<V>>(rt: &mut Runtime<V, B>, body: B) -> (r: Option<ReadSignal>)
    ensures
        same_frame(old(rt).state(), final(rt).state()),
        old(rt).state().depth >= MAX_EFFECT_DEPTH ==> (r matches Some(rs) ==> memo_made(final(rt).state(), rs.sig, false)),
        seeded(body, old(rt).state().arena.values@),
        exists|b: &mut B, x: &mut Runtime<V, B>, v: V| #[trigger] call_ensures(B::compute, (b, x), v)
            && *b == body && (*x).state().current is None && (*x).state().arena.values@ == old(rt).state().arena.values@
            && (r is None <==> !(final(x).state().arena.can_insert_signal() && final(x).state().arena.can_insert_effect())),
{
    derive(rt, body, false)
}

/// A derived signal notifying only when `body.same` says its value changed.
pub fn memo_with<V: Clone + PartialEq, B: Reaction<V>>(rt: &mut Runtime<V, B>, body: B) -> (r: Option<ReadSignal>)
    ensures
        same_frame(old(rt).state(), final(rt).state()),
        old(rt).state().depth >= MAX_EFFECT_DEPTH ==> (r matches Some(rs) ==> memo_made(final(rt).state(), rs.sig, true)),
        seeded(body, old(rt).state().arena.values@),
        exists|b: &mut B, x: &mut Runtime<V, B>, v: V| #[trigger] call_ensures(B::compute, (b, x), v)
            && *b == body && (*x).state().current is None && (*x).state().arena.values@ == old(rt).state().arena.values@
            && (r is None <==> !(final(x).state().arena.can_insert_signal() && final(x).state().arena.can_insert_effect())),
{
    derive(rt, body, true)
}

/// The state `batch` runs its closure in: a batch window is open (a fresh,
/// empty one unless one was open already), and the slots and the frame
/// are as the caller left them.
pub open spec fn batch_frame<V, B>(before: State<V, B>, inside: State<V, B>) -> bool {
    &&& inside.window is Some
    &&& inside.arena == before.arena
    &&& same_frame(before, inside)
    &&& before.window is Some ==> inside.window == before.window
    &&& before.window is None ==> inside.window->Some_0.order@.len() == 0
}

/// Run `f` with every signal write's notification deferred to the end of
/// the outermost batch: each subscriber then runs once, in first-write
/// order, and only for signals that really changed; the external
/// notifiers of those signals run after them.
pub fn batch<V: Clone + PartialEq, B: Reaction<V>, R, F: FnOnce(&mut Runtime<V, B>) -> R>(rt: &mut Runtime<V, B>, f: F) -> (r: R)
    requires
        forall|x: &mut Runtime<V, B>| f.requires((x,)),
    ensures
        same_frame(old(rt).state(), final(rt).state()),
        old(rt).state().window is Some ==> final(rt).state().depth == old(rt).state().depth,
        exists|x: &mut Runtime<V, B>| #[trigger] f.ensures((x,), r) && batch_frame(old(rt).state(), (*x).state())
            && (old(rt).state().window is Some ==> final(rt).state().arena == final(x).state().arena
                && final(rt).state().window == final(x).state().window)
            && (old(rt).state().window is None && (final(x).state().window is None || unheard(final(x).state())) ==>
                final(rt).state().window is None && final(rt).state().arena == final(x).state().arena)
            && (old(rt).state().window is None && final(x).state().window is Some && V::obeys_eq_spec() ==>
                flushes(final(x).state(), old(rt).state().depth)),
{
    let fr = rt.frame();
    let mut st = rt.take_state();
    let outer = st.open_batch();
    rt.put_state(st);
    let r = f(rt);
    let ghost fx = rt.state();
    rt.set_frame(fr.0, fr.1, fr.2, fr.3);
    let ghost sf = rt.state();
    if outer {
        rt.flush();
    }
    proof {
        if outer && V::obeys_eq_spec() && sf.window is Some {
            lemma_flushes_frame(sf, fx, fr.0);
        }
    }
    r
}

/// One reactive turn: the same as `batch`.
pub fn cycle<V: Clone + PartialEq, B: Reaction<V>, R, F: FnOnce(&mut Runtime<V, B>) -> R>(rt: &mut Runtime<V, B>, f: F) -> (r: R)
    requires
        forall|x: &mut Runtime<V, B>| f.requires((x,)),
    ensures
        same_frame(old(rt).state(), final(rt).state()),
        exists|x: &mut Runtime<V, B>| #[trigger] f.ensures((x,), r) && batch_frame(old(rt).state(), (*x).state())
            && (old(rt).state().window is Some ==> final(rt).state().arena == final(x).state().arena
                && final(rt).state().window == final(x).state().window)
            && (old(rt).state().window is None && (final(x).state().window is None || unheard(final(x).state())) ==>
                final(rt).state().window is None && final(rt).state().arena == final(x).state().arena)
            && (old(rt).state().window is None && final(x).state().window is Some && V::obeys_eq_spec() ==>
                flushes(final(x).state(), old(rt).state().depth)),
{
    batch(rt, f)
}

/// Run `f` with tracking off: its reads subscribe nothing.
pub fn untrack<V: Clone + PartialEq, B: Reaction<V>, R, F: FnOnce(&mut Runtime<V, B>) -> R>(rt: &mut Runtime<V, B>, f: F) -> (r: R)
    requires
        forall|x: &mut Runtime<V, B>| f.requires((x,)),
    ensures
        final(rt).state().current == old(rt).state().current,
        exists|x: &mut Runtime<V, B>| #[trigger] f.ensures((x,), r)
            && (*x).state().current is None
            && (*x).state().arena == old(rt).state().arena
            && (*x).state().window == old(rt).state().window
            && (*x).state().active@ == old(rt).state().active@
            && (*x).state().depth == old(rt).state().depth
            && (*x).state().memo_depth == old(rt).state().memo_depth
            && final(rt).state().arena == final(x).state().arena
            && final(rt).state().window == final(x).state().window
            && final(rt).state().active@ == final(x).state().active@,
{
    let fr = rt.frame();
    let mut st = rt.take_state();
    st.current = None;
    rt.put_state(st);
    let r = f(rt);
    let now = rt.frame();
    rt.set_frame(now.0, now.1, fr.2, now.3);
    r
}

/// Install the hook run whenever the outermost mutation window closes.
pub fn install_reactive_idle_hook<V: Clone + PartialEq, B: Reaction<V>>(rt: &mut Runtime<V, B>, hook: B)
    ensures
        final(rt).state().idle_hook == Some(hook),
        final(rt).state().arena == old(rt).state().arena,
        final(rt).state().window == old(rt).state().window,
        same_frame(old(rt).state(), final(rt).state()),
{
    let mut st = rt.take_state();
    st.idle_hook = Some(hook);
    rt.put_state(st);
}

/// Whether a mutation window is open.
pub fn is_reactive_busy<V: Clone + PartialEq, B: Reaction<V>>(rt: &Runtime<V, B>) -> (b: bool)
    ensures
        b == (rt.state().busy > 0),
{
    rt.st.busy > 0
}

/// The registration context a deferred callback re-enters: the active
/// scope stack and the tracking target at the time it was captured.
pub struct ReactiveCtx {
    pub owning_stack: Vec<u32>,
    pub current: Option<u32>,
}

/// Capture the active scope stack and the tracking target, for a
/// callback that fires later to re-enter them.
pub fn capture_reactive_ctx<V: Clone + PartialEq, B: Reaction<V>>(rt: &Runtime<V, B>) -> (c: ReactiveCtx)
    ensures
        c.owning_stack@ == rt.state().active@,
        c.current == rt.state().current,
{
    let f = rt.frame();
    ReactiveCtx { owning_stack: f.3, current: f.2 }
}

/// `inside` is `before` with context `ctx` entered: its scopes pushed on
/// the active stack and its tracking target set, all else as it was.
pub open spec fn entered<V, B>(before: State<V, B>, ctx: ReactiveCtx, inside: State<V, B>) -> bool {
    &&& inside.active@ == before.active@ + ctx.owning_stack@
    &&& inside.current == ctx.current
    &&& inside.depth == before.depth
    &&& inside.memo_depth == before.memo_depth
    &&& inside.arena == before.arena
    &&& inside.window == before.window
    &&& inside.busy == before.busy
}

/// Run `f` re-entering `ctx` (see `entered`); the active stack and the
/// tracking target are restored afterwards.
pub fn with_reactive_ctx<V: Clone + PartialEq, B: Reaction<V>, R, F: FnOnce(&mut Runtime<V, B>) -> R>(
    rt: &mut Runtime<V, B>, ctx: &ReactiveCtx, f: F) -> (r: R)
    requires
        forall|x: &mut Runtime<V, B>| f.requires((x,)),
    ensures
        same_frame(old(rt).state(), final(rt).state()),
        exists|x: &mut Runtime<V, B>| #[trigger] f.ensures((x,), r) && entered(old(rt).state(), *ctx, (*x).state())
            && final(rt).state().arena == final(x).state().arena
            && final(rt).state().window == final(x).state().window,
{
    let fr = rt.frame();
    enter_ctx(rt, ctx);
    let r = f(rt);
    rt.set_frame(fr.0, fr.1, fr.2, fr.3);
    r
}

/// Enter `ctx` on `rt` (see `entered`).
fn enter_ctx<V: Clone + PartialEq, B: Reaction<V>>(rt: &mut Runtime<V, B>, ctx: &ReactiveCtx)
    ensures
        entered(old(rt).state(), *ctx, final(rt).state()),
{
    let fr = rt.frame();
    let mut active = fr.3;
    let mut i: usize = 0;
    while i < ctx.owning_stack.len()
        invariant
            0 <= i <= ctx.owning_stack@.len(),
            active@ == fr.3@ + ctx.owning_stack@.subrange(0, i as int),
        decreases ctx.owning_stack@.len() - i,
    {
        active.push(ctx.owning_stack[i]);
        proof {
            assert(ctx.owning_stack@.subrange(0, i + 1) == ctx.owning_stack@.subrange(0, i as int).push(ctx.owning_stack@[i as int]));
        }
        i = i + 1;
    }
    proof { assert(ctx.owning_stack@.subrange(0, ctx.owning_stack@.len() as int) == ctx.owning_stack@); }
    rt.set_frame(fr.0, fr.1, ctx.current, active);
}

/// One firing of a scope-bound deferred callback (a timer shot or an
/// animation frame): skipped, changing nothing, when its registration was
/// cleaned up (`cancelled`) or a reactive mutation is in flight; otherwise
/// `f` runs in the registering context `ctx`, inside one reactive cycle,
/// so its writes fan out once, after it returns.
pub fn fire_scoped<V: Clone + PartialEq, B: Reaction<V>, F: FnOnce(&mut Runtime<V, B>)>(
    rt: &mut Runtime<V, B>, ctx: &ReactiveCtx, cancelled: bool, f: F) -> (ran: bool)
    requires
        forall|x: &mut Runtime<V, B>| f.requires((x,)),
    ensures
        ran == (!cancelled && old(rt).state().busy == 0),
        !ran ==> *final(rt) == *old(rt),
        same_frame(old(rt).state(), final(rt).state()),
        ran ==> exists|x: &mut Runtime<V, B>| #[trigger] f.ensures((x,), ()) && (*x).state().window is Some
            && (*x).state().active@ == old(rt).state().active@ + ctx.owning_stack@
            && (*x).state().current == ctx.current
            && (*x).state().arena == old(rt).state().arena,
{
    if cancelled || is_reactive_busy(rt) {
        return false;
    }
    let fr = rt.frame();
    enter_ctx(rt, ctx);
    cycle(rt, f);
    rt.set_frame(fr.0, fr.1, fr.2, fr.3);
    true
}

/// Whether a cleanup registered now would be kept (by the running effect
/// or the innermost active scope) rather than dropped.
pub fn cleanup_has_owner<V: Clone + PartialEq, B: Reaction<V>>(rt: &Runtime<V, B>) -> (b: bool)
    ensures
        b == ((rt.state().current is Some && rt.state().current->Some_0 < rt.state().arena.n_effects())
            || rt.state().top_scope_exists()),
{
    proof { use_type_invariant(rt); }
    match rt.st.current {
        Some(e) => {
            if (e as usize) < rt.st.arena.effects.len() {
                return true;
            }
        }
        None => {}
    }
    if rt.st.active.len() == 0 {
        return false;
    }
    let top = rt.st.active[rt.st.active.len() - 1];
    (top as usize) < rt.st.scopes.len() && rt.st.scopes[top as usize].is_some()
}

/// Whether an effect run was ever refused at the run-depth limit (a
/// chain of effects that re-trigger each other without end).
pub fn effect_depth_exceeded<V: Clone + PartialEq, B: Reaction<V>>(rt: &Runtime<V, B>) -> (b: bool)
    ensures
        b == rt.state().depth_exceeded,
{
    rt.st.depth_exceeded
}

/// From now on, disposed effect bodies, their cleanups and scope guards
/// are parked (see `take_deferred`) instead of being dropped or fired.
pub fn install_drop_deferral<V: Clone + PartialEq, B: Reaction<V>>(rt: &mut Runtime<V, B>)
    ensures
        final(rt).state().deferral,
        final(rt).state().arena == old(rt).state().arena,
        final(rt).state().deferred == old(rt).state().deferred,
        same_frame(old(rt).state(), final(rt).state()),
{
    let mut st = rt.take_state();
    st.deferral = true;
    rt.put_state(st);
}

/// Drain what the drop-deferral policy parked, oldest first.
pub fn take_deferred<V: Clone + PartialEq, B: Reaction<V>>(rt: &mut Runtime<V, B>) -> (items: Vec<B>)
    ensures
        items@ == old(rt).state().deferred@,
        final(rt).state().deferred@.len() == 0,
        final(rt).state().arena == old(rt).state().arena,
        same_frame(old(rt).state(), final(rt).state()),
{
    let mut st = rt.take_state();
    let mut items: Vec<B> = Vec::new();
    std::mem::swap(&mut items, &mut st.deferred);
    rt.put_state(st);
    items
}

/// Counters over the slot tables.
pub fn arena_stats<V: Clone + PartialEq, B: Reaction<V>>(rt: &Runtime<V, B>) -> (a: ArenaStats)
    ensures
        a.signals_in_use == count_some(rt.state().arena.values@),
        a.signals_total == rt.state().arena.values@.len(),
        a.effects_in_use == count_live(rt.state().arena.effects@),
        a.effects_total == rt.state().arena.effects@.len(),
        a.refs_in_use == count_some(rt.state().arena.refs@),
        a.refs_total == rt.state().arena.refs@.len(),
        a.total_subscribers == if total_len(rt.state().arena.subs@) <= usize::MAX { total_len(rt.state().arena.subs@) } else { usize::MAX as nat },
        a.total_deps == if total_len(rt.state().arena.deps@) <= usize::MAX { total_len(rt.state().arena.deps@) } else { usize::MAX as nat },
{
    let a = &rt.st.arena;
    ArenaStats {
        signals_in_use: a.signals_in_use(),
        signals_total: a.values.len(),
        effects_in_use: a.effects_in_use(),
        effects_total: a.effects.len(),
        refs_in_use: a.refs_in_use(),
        refs_total: a.refs.len(),
        total_subscribers: crate::reactive::arena::Arena::<V, B>::total_links(&a.subs),
        total_deps: crate::reactive::arena::Arena::<V, B>::total_links(&a.deps),
    }
}

/// The current generation of slot `raw` (0 for a slot never allocated).
pub fn signal_generation<V: Clone + PartialEq, B: Reaction<V>>(rt: &Runtime<V, B>, raw: u64) -> (g: u32)
    ensures
        raw < rt.state().arena.gens@.len() ==> g == rt.state().arena.gens@[raw as int],
        raw >= rt.state().arena.gens@.len() ==> g == 0,
{
    if raw < rt.st.arena.gens.len() as u64 {
        rt.st.arena.gens[raw as usize]
    } else {
        0
    }
}

/// Whether slot `raw` is occupied with generation `gen`.
pub fn signal_is_live<V: Clone + PartialEq, B: Reaction<V>>(rt: &Runtime<V, B>, raw: u64, gen: u32) -> (b: bool)
    ensures
        b == (raw < rt.state().arena.n_signals() && rt.state().arena.sig_live(raw as u32, gen)),
{
    proof { use_type_invariant(rt); }
    if raw < rt.st.arena.values.len() as u64 {
        rt.st.arena.gens[raw as usize] == gen && rt.st.arena.values[raw as usize].is_some()
    } else {
        false
    }
}

/// Register `notifier` to run after each notified write to slot `raw`,
/// replacing any earlier one.
pub fn register_signal_js_notifier<V: Clone + PartialEq, B: Reaction<V>>(rt: &mut Runtime<V, B>, raw: u64, notifier: B)
    ensures
        final(rt).state().notifier_ids@.contains(raw),
        notifier_of(final(rt).state(), raw) == Some(notifier),
        forall|x: u64| x != raw ==> (#[trigger] final(rt).state().notifier_ids@.contains(x) <==> old(rt).state().notifier_ids@.contains(x)),
        final(rt).state().arena == old(rt).state().arena,
        same_frame(old(rt).state(), final(rt).state()),
{
    let mut st = rt.take_state();
    let _prev = st.set_notifier(raw, notifier);
    rt.put_state(st);
}

/// Remove the notifier of slot `raw`.
pub fn unregister_signal_js_notifier<V: Clone + PartialEq, B: Reaction<V>>(rt: &mut Runtime<V, B>, raw: u64)
    ensures
        !final(rt).state().notifier_ids@.contains(raw),
        forall|x: u64| x != raw ==> (#[trigger] final(rt).state().notifier_ids@.contains(x) <==> old(rt).state().notifier_ids@.contains(x)),
        final(rt).state().arena == old(rt).state().arena,
        same_frame(old(rt).state(), final(rt).state()),
{
    let mut st = rt.take_state();
    let _gone = st.remove_notifier(raw);
    rt.put_state(st);
}

/// Whether slot `raw` has a notifier.
pub fn signal_has_js_notifier<V: Clone + PartialEq, B: Reaction<V>>(rt: &Runtime<V, B>, raw: u64) -> (b: bool)
    ensures
        b == rt.state().notifier_ids@.contains(raw),
{
    proof { use_type_invariant(rt); }
    rt.st.notifier_index(raw).is_some()
}


/// Tearing scope `id` down runs no callback: it has no cleanups, and its
/// effects have no pending cleanups to fire (or a drop-deferral policy
/// parks them).
pub open spec fn teardown_quiet<V, B>(st: State<V, B>, id: u32) -> bool {
    &&& id < st.scopes@.len()
    &&& st.scopes@[id as int] is Some
    &&& st.scopes@[id as int]->Some_0.cleanups@.len() == 0
    &&& !st.deferral ==> forall|j: int| 0 <= j < st.scopes@[id as int]->Some_0.effects@.len()
            && st.arena.eff_live(st.scopes@[id as int]->Some_0.effects@[j]) ==>
            (#[trigger] st.arena.effects@[st.scopes@[id as int]->Some_0.effects@[j] as int]).cleanups@.len() == 0
}

/// A reactive scope: owns the signals, effects and refs created while it
/// is active, the contexts provided in it, its cleanups and guards.
pub struct Scope {
    pub id: u32,
}

impl Scope {
    /// A new, empty scope.
    pub fn new<V: Clone + PartialEq, B: Reaction<V>>(rt: &mut Runtime<V, B>) -> (sc: Scope)
        requires
            old(rt).state().scopes@.len() < MAX_SLOTS,
        ensures
            sc.id == old(rt).state().scopes@.len(),
            final(rt).state().scopes@.len() == old(rt).state().scopes@.len() + 1,
            final(rt).state().scopes@[sc.id as int] is Some,
            final(rt).state().arena == old(rt).state().arena,
            same_frame(old(rt).state(), final(rt).state()),
    {
        let mut st = rt.take_state();
        let id = st.new_scope();
        rt.put_state(st);
        Scope { id }
    }

    /// Tie `guard` to the scope: it is dropped (or parked by the
    /// drop-deferral policy) when the scope is torn down. Returns `false`,
    /// dropping the guard now, when the scope is already gone.
    pub fn adopt_guard<V: Clone + PartialEq, B: Reaction<V>>(&self, rt: &mut Runtime<V, B>, guard: B) -> (ok: bool)
        ensures
            ok == (self.id < old(rt).state().scopes@.len() && old(rt).state().scopes@[self.id as int] is Some),
            ok ==> final(rt).state().scopes@[self.id as int]->Some_0.guards@
                == old(rt).state().scopes@[self.id as int]->Some_0.guards@.push(guard),
            final(rt).state().arena == old(rt).state().arena,
            same_frame(old(rt).state(), final(rt).state()),
    {
        let mut st = rt.take_state();
        let ok = if (self.id as usize) < st.scopes.len() {
            let taken = st.scopes[self.id as usize].take();
            match taken {
                Some(mut sc) => {
                    sc.guards.push(guard);
                    st.scopes.set(self.id as usize, Some(sc));
                    true
                }
                None => false,
            }
        } else {
            false
        };
        rt.put_state(st);
        ok
    }

    /// Tear the scope down: fire its cleanups (last first), free its
    /// signals (their notifiers go with them), its effects (their pending
    /// cleanups fire, last first) and its refs, and drop its guards. With
    /// a drop-deferral policy, effect bodies, their cleanups and the guards
    /// are parked instead, the guards last.
    pub fn dispose<V: Clone + PartialEq, B: Reaction<V>>(self, rt: &mut Runtime<V, B>)
        ensures
            same_frame(old(rt).state(), final(rt).state()),
            self.id < old(rt).state().scopes@.len() && old(rt).state().scopes@[self.id as int] is Some ==>
                forall|i: int| 0 <= i < old(rt).state().scopes@[self.id as int]->Some_0.cleanups@.len() ==>
                    #[trigger] fired_any::<V, B>(old(rt).state().scopes@[self.id as int]->Some_0.cleanups@[i]),
            teardown_quiet(old(rt).state(), self.id) ==> {
                let sd = old(rt).state().scopes@[self.id as int]->Some_0;
                &&& final(rt).state().scopes@[self.id as int] is None
                &&& forall|i: int| 0 <= i < sd.signals@.len() && sd.signals@[i] < old(rt).state().arena.n_signals() ==>
                        final(rt).state().arena.values@[#[trigger] sd.signals@[i] as int] is None
                &&& forall|i: int| 0 <= i < sd.effects@.len() && sd.effects@[i] < old(rt).state().arena.n_effects() ==>
                        !final(rt).state().arena.eff_live(#[trigger] sd.effects@[i])
                &&& forall|i: int| 0 <= i < sd.refs@.len() && sd.refs@[i] < old(rt).state().arena.refs@.len() ==>
                        final(rt).state().arena.refs@[#[trigger] sd.refs@[i] as int] is None
                &&& forall|s: int| 0 <= s < old(rt).state().arena.n_signals() && !sd.signals@.contains(s as u32) ==>
                        final(rt).state().arena.values@[s] == old(rt).state().arena.values@[s]
                &&& forall|i: int| 0 <= i < sd.signals@.len() && sd.signals@[i] < old(rt).state().arena.n_signals() ==>
                        !final(rt).state().notifier_ids@.contains(#[trigger] sd.signals@[i] as u64)
                &&& forall|x: u64| !sd.signals@.contains(x as u32) || x > u32::MAX ==>
                        (#[trigger] final(rt).state().notifier_ids@.contains(x) <==> old(rt).state().notifier_ids@.contains(x))
                &&& forall|e: int| 0 <= e < old(rt).state().arena.n_effects() && !sd.effects@.contains(e as u32) ==>
                        #[trigger] final(rt).state().arena.effects@[e] == old(rt).state().arena.effects@[e]
                &&& forall|s: int, x: u32| 0 <= s < old(rt).state().arena.n_signals() && !sd.signals@.contains(s as u32) ==>
                        (#[trigger] final(rt).state().arena.subs@[s]@.contains(x)
                            <==> (old(rt).state().arena.subs@[s]@.contains(x) && !sd.effects@.contains(x)))
                &&& forall|s: int| 0 <= s < old(rt).state().arena.n_signals() ==> #[trigger] final(rt).state().arena.gens@[s] ==
                        if old(rt).state().arena.values@[s] is Some && sd.signals@.contains(s as u32) {
                            next_gen(old(rt).state().arena.gens@[s])
                        } else {
                            old(rt).state().arena.gens@[s]
                        }
                &&& old(rt).state().deferral ==> exists|p: Seq<B>|
                        #[trigger] final(rt).state().deferred@ == old(rt).state().deferred@ + p + sd.guards@
                &&& !old(rt).state().deferral ==> final(rt).state().deferred == old(rt).state().deferred
            },
    {
        let f = rt.frame();
        let mut st = rt.take_state();
        let taken = st.take_scope(self.id);
        rt.put_state(st);
        match taken {
            Some(sd) => {
                let ScopeData { signals, effects, refs, cleanups, contexts, guards } = sd;
                let ghost quiet_td = teardown_quiet(old(rt).state(), self.id);
                rt.fire_all(cleanups);
                let mut st = rt.take_state();
                let ghost st1 = st;
                let parked = st.free_scope_slots(&signals, &effects, &refs);
                let ghost st2 = st;
                rt.put_state(st);
                let mut parked = parked;
                proof {
                    if quiet_td && old(rt).state().deferral {
                        assert(rt.state().deferred@ == old(rt).state().deferred@ + Seq::<B>::empty());
                    }
                }
                while parked.len() > 0
                    invariant
                        same_frame(old(rt).state(), rt.state()),
                        quiet_td && old(rt).state().deferral ==> exists|p: Seq<B>|
                            #[trigger] rt.state().deferred@ == old(rt).state().deferred@ + p,
                        quiet_td && !old(rt).state().deferral ==> rt.state().deferred == old(rt).state().deferred,
                        quiet_td ==> rt.state().arena == st2.arena,
                        quiet_td ==> rt.state().scopes == st2.scopes,
                        quiet_td ==> rt.state().notifier_ids == st2.notifier_ids,
                        quiet_td ==> rt.state().deferral == old(rt).state().deferral,
                        quiet_td && !old(rt).state().deferral ==> forall|t: int| 0 <= t < parked@.len() ==>
                            (#[trigger] parked@[t]).1@.len() == 0,
                    decreases parked@.len(),
                {
                    let ghost before = parked@;
                    let (body, cbs) = parked.pop().unwrap();
                    proof { assert(before[before.len() - 1] == (body, cbs)); }
                    proof { use_type_invariant(&*rt); }
                    let ghost d0 = rt.state().deferred@;
                    if rt.st.deferral {
                        let mut items = cbs;
                        match body {
                            Some(b) => { items.push(b); }
                            None => {}
                        }
                        rt.retire(items);
                        proof {
                            if quiet_td && old(rt).state().deferral {
                                let p0 = choose|p: Seq<B>| #[trigger] (old(rt).state().deferred@ + p) == d0;
                                assert(rt.state().deferred@ == old(rt).state().deferred@ + (p0 + items@));
                            }
                        }
                    } else {
                        rt.fire_all(cbs);
                    }
                    proof {
                        assert forall|t: int| 0 <= t < parked@.len() implies before[t] == #[trigger] parked@[t] by {}
                    }
                }
                let ghost d1 = rt.state().deferred@;
                let ghost gs = guards@;
                rt.retire(guards);
                proof {
                    if quiet_td && old(rt).state().deferral {
                        let p1 = choose|p: Seq<B>| #[trigger] (old(rt).state().deferred@ + p) == d1;
                        assert(rt.state().deferred@ == old(rt).state().deferred@ + p1 + gs);
                    }
                }
                rt.set_frame(f.0, f.1, f.2, f.3);
            }
            None => {
                rt.set_frame(f.0, f.1, f.2, f.3);
            }
        }
    }
}

/// Run `f` with `scope` as the innermost active scope.
pub fn with_scope<V: Clone + PartialEq, B: Reaction<V>, R, F: FnOnce(&mut Runtime<V, B>) -> R>(rt: &mut Runtime<V, B>, scope: &Scope, f: F) -> (r: R)
    requires
        forall|x: &mut Runtime<V, B>| f.requires((x,)),
    ensures
        final(rt).state().active@ == old(rt).state().active@,
        exists|x: &mut Runtime<V, B>| #[trigger] f.ensures((x,), r)
            && (*x).state().active@ == old(rt).state().active@.push(scope.id)
            && (*x).state().arena == old(rt).state().arena
            && (*x).state().scopes == old(rt).state().scopes
            && (*x).state().window == old(rt).state().window
            && (*x).state().current == old(rt).state().current
            && final(rt).state().arena == final(x).state().arena
            && final(rt).state().window == final(x).state().window
            && final(rt).state().scopes == final(x).state().scopes,
{
    let fr = rt.frame();
    let mut st = rt.take_state();
    st.push_active(scope.id);
    rt.put_state(st);
    let r = f(rt);
    let now = rt.frame();
    rt.set_frame(now.0, now.1, now.2, fr.3);
    r
}

/// Provide `value` under `key` to the innermost active scope and the
/// scopes and effects created inside it.
pub fn provide<V: Clone + PartialEq, B: Reaction<V>>(rt: &mut Runtime<V, B>, key: u64, value: V)
    requires
        old(rt).state().top_scope_exists(),
        old(rt).state().memo_depth == 0,
    ensures
        ({
            let top = old(rt).state().active@.last() as int;
            &&& final(rt).state().scopes@[top]->Some_0.contexts@ == old(rt).state().scopes@[top]->Some_0.contexts@.push((key, value))
            &&& forall|i: int| 0 <= i < old(rt).state().scopes@.len() && i != top ==>
                    final(rt).state().scopes@[i] == old(rt).state().scopes@[i]
            &&& final(rt).state().scopes@.len() == old(rt).state().scopes@.len()
        }),
        final(rt).state().active == old(rt).state().active,
        final(rt).state().arena == old(rt).state().arena,
        same_frame(old(rt).state(), final(rt).state()),
{
    let mut st = rt.take_state();
    let _ok = st.provide(key, value);
    rt.put_state(st);
}

/// The value provided under `key` nearest to the innermost active scope.
pub fn inject<V: Clone + PartialEq, B: Reaction<V>>(rt: &Runtime<V, B>, key: u64) -> (r: Option<V>)
    ensures
        r is Some <==> lookup(rt.state().scopes@, rt.state().active@, key) is Some,
        r matches Some(v) ==> cloned(lookup(rt.state().scopes@, rt.state().active@, key)->Some_0, v),
{
    proof { use_type_invariant(rt); }
    rt.st.find_context(key)
}

/// Apply `f` to the value provided under `key` nearest to the innermost
/// active scope, by reference (no clone); `None` when nothing is.
pub fn with_inject<V: Clone + PartialEq, B: Reaction<V>, R, F: FnOnce(&V) -> R>(rt: &Runtime<V, B>, key: u64, f: F) -> (r: Option<R>)
    requires
        lookup(rt.state().scopes@, rt.state().active@, key) matches Some(v) ==> f.requires((&v,)),
    ensures
        r is Some <==> lookup(rt.state().scopes@, rt.state().active@, key) is Some,
        r matches Some(x) ==> f.ensures((&lookup(rt.state().scopes@, rt.state().active@, key)->Some_0,), x),
{
    proof { use_type_invariant(rt); }
    match rt.st.find_context_ref(key) {
        Some(v) => Some(f(v)),
        None => None,
    }
}

/// As `inject`, with `default` when nothing is provided.
pub fn inject_or<V: Clone + PartialEq, B: Reaction<V>>(rt: &Runtime<V, B>, key: u64, default: V) -> (r: V)
    ensures
        lookup(rt.state().scopes@, rt.state().active@, key) is None ==> r == default,
        lookup(rt.state().scopes@, rt.state().active@, key) is Some ==>
            cloned(lookup(rt.state().scopes@, rt.state().active@, key)->Some_0, r),
{
    match inject(rt, key) {
        Some(v) => v,
        None => default,
    }
}

/// Run `cb` on the next re-run or disposal of the running effect; outside
/// an effect, on the teardown of the innermost active scope; outside both,
/// never (it is dropped).
pub fn on_cleanup<V: Clone + PartialEq, B: Reaction<V>>(rt: &mut Runtime<V, B>, cb: B)
    ensures
        same_frame(old(rt).state(), final(rt).state()),
        old(rt).state().current is Some && old(rt).state().current->Some_0 < old(rt).state().arena.n_effects() ==> {
            let e = old(rt).state().current->Some_0;
            final(rt).state().arena.effects@[e as int].cleanups@ == old(rt).state().arena.effects@[e as int].cleanups@.push(cb)
        },
        !(old(rt).state().current is Some && old(rt).state().current->Some_0 < old(rt).state().arena.n_effects()) ==>
            final(rt).state().arena == old(rt).state().arena,
        !(old(rt).state().current is Some && old(rt).state().current->Some_0 < old(rt).state().arena.n_effects())
            && !old(rt).state().top_scope_exists() ==> final(rt).state().scopes@ == old(rt).state().scopes@,
{
    let mut st = rt.take_state();
    let (_target, _rest) = st.add_cleanup(cb);
    rt.put_state(st);
}

/// Handle to a ref slot: empty until a mounted component fills it.
#[derive(Clone, Copy, Debug)]
pub struct Ref {
    pub id: u32,
}

impl Default for Ref {
    /// The detached ref: never filled.
    fn default() -> (r: Self)
        ensures
            r.id == DETACHED,
    {
        Ref { id: DETACHED }
    }
}

impl Ref {
    /// An empty ref owned by the innermost active scope.
    pub fn new<V: Clone + PartialEq, B: Reaction<V>>(rt: &mut Runtime<V, B>) -> (r: Ref)
        requires
            old(rt).state().arena.can_insert_ref(),
        ensures
            ref_contents(final(rt).state().arena.refs@, r.id) is None,
            r.id < final(rt).state().arena.refs@.len(),
            final(rt).state().arena.refs@[r.id as int] is Some,
            old(rt).state().arena.ref_free@.len() > 0 ==> r.id == old(rt).state().arena.ref_free@.last(),
            old(rt).state().arena.ref_free@.len() == 0 ==> r.id == old(rt).state().arena.refs@.len(),
            forall|i: int| 0 <= i < old(rt).state().arena.refs@.len() && i != r.id ==>
                final(rt).state().arena.refs@[i] == old(rt).state().arena.refs@[i],
            same_frame(old(rt).state(), final(rt).state()),
    {
        let mut st = rt.take_state();
        let id = st.create_ref();
        rt.put_state(st);
        Ref { id }
    }

    /// Store `handle` (a no-op for a freed or detached ref).
    pub fn fill<V: Clone + PartialEq, B: Reaction<V>>(&self, rt: &mut Runtime<V, B>, handle: V)
        ensures
            (self.id < old(rt).state().arena.refs@.len() && old(rt).state().arena.refs@[self.id as int] is Some) ==>
                ref_contents(final(rt).state().arena.refs@, self.id) == Some(handle),
            forall|i: u32| i != self.id ==> ref_contents(final(rt).state().arena.refs@, i) == ref_contents(old(rt).state().arena.refs@, i),
            !(self.id < old(rt).state().arena.refs@.len() && old(rt).state().arena.refs@[self.id as int] is Some) ==>
                final(rt).state().arena.refs == old(rt).state().arena.refs,
            same_frame(old(rt).state(), final(rt).state()),
    {
        let mut st = rt.take_state();
        st.arena.fill_ref(self.id, handle);
        rt.put_state(st);
    }

    /// Empty the ref (it stays allocated).
    pub fn clear<V: Clone + PartialEq, B: Reaction<V>>(&self, rt: &mut Runtime<V, B>)
        ensures
            ref_contents(final(rt).state().arena.refs@, self.id) is None,
            forall|i: u32| i != self.id ==> ref_contents(final(rt).state().arena.refs@, i) == ref_contents(old(rt).state().arena.refs@, i),
            same_frame(old(rt).state(), final(rt).state()),
    {
        let mut st = rt.take_state();
        st.arena.clear_ref(self.id);
        rt.put_state(st);
    }

    /// `f` of the stored handle, or `None` when the ref is empty.
    pub fn with<V: Clone + PartialEq, B: Reaction<V>, R, F: FnOnce(&V) -> R>(&self, rt: &Runtime<V, B>, f: F) -> (r: Option<R>)
        requires
            ref_contents(rt.state().arena.refs@, self.id) matches Some(h) ==> f.requires((&h,)),
        ensures
            r is Some <==> ref_contents(rt.state().arena.refs@, self.id) is Some,
            r matches Some(x) ==> f.ensures((&ref_contents(rt.state().arena.refs@, self.id)->Some_0,), x),
    {
        match rt.st.arena.ref_handle(self.id) {
            Some(h) => Some(f(h)),
            None => None,
        }
    }

    /// Whether the ref holds a handle.
    pub fn is_mounted<V: Clone + PartialEq, B: Reaction<V>>(&self, rt: &Runtime<V, B>) -> (b: bool)
        ensures
            b == (ref_contents(rt.state().arena.refs@, self.id) is Some),
    {
        rt.st.arena.ref_handle(self.id).is_some()
    }

    /// A copy of the stored handle.
    pub fn get<V: Clone + PartialEq, B: Reaction<V>>(&self, rt: &Runtime<V, B>) -> (r: Option<V>)
        ensures
            r is Some <==> ref_contents(rt.state().arena.refs@, self.id) is Some,
            r matches Some(x) ==> cloned(ref_contents(rt.state().arena.refs@, self.id)->Some_0, x),
    {
        match rt.st.arena.ref_handle(self.id) {
            Some(h) => Some(h.clone()),
            None => None,
        }
    }
}

/// The dispatch half of a reducer: applies its function to the state.
pub struct Dispatch<R> {
    pub state: Signal,
    pub f: R,
}

/// A state signal and a dispatcher that replaces the state by
/// `f(&state, action)` in one reactive turn, without subscribing the
/// caller to the state.
pub fn reducer<V: Clone + PartialEq, B: Reaction<V>, R>(rt: &mut Runtime<V, B>, initial: V, f: R) -> (r: (Signal, Dispatch<R>))
    requires
        old(rt).state().arena.can_insert_signal(),
    ensures
        final(rt).state().live(r.0),
        final(rt).state().arena.sig_value(r.0.id) == initial,
        r.1.state == r.0,
        r.1.f == f,
        same_frame(old(rt).state(), final(rt).state()),
{
    let s = Signal::new(rt, initial);
    (s, Dispatch { state: s, f })
}

impl<R> Dispatch<R> {
    /// Apply the reducer to the current state and `action`; a stale state
    /// handle makes this a no-op.
    pub fn dispatch<V: Clone + PartialEq, B: Reaction<V>, A>(&self, rt: &mut Runtime<V, B>, action: A)
        where R: Fn(&V, A) -> V,
        requires
            old(rt).state().memo_depth == 0,
            forall|v: &V, a: A| self.f.requires((v, a)),
        ensures
            same_frame(old(rt).state(), final(rt).state()),
            !old(rt).state().live(self.state) ==> final(rt).state().arena == old(rt).state().arena,
            old(rt).state().live(self.state) ==> exists|c: V, v: V| cloned(old(rt).state().arena.sig_value(self.state.id), c)
                && #[trigger] self.f.ensures((&c, action), v) && dispatched(old(rt).state(), final(rt).state(), self.state, v)
                && (old(rt).state().window is None && quiet(old(rt).state()) && V::obeys_eq_spec() ==>
                    exists|st: State<V, B>| #[trigger] dispatch_flush(old(rt).state(), self.state, v, st)),
    {
        let fr = rt.frame();
        proof { use_type_invariant(&*rt); }
        if !rt.st.is_live(self.state) {
            return;
        }
        let mut st = rt.take_state();
        let outer = st.open_batch();
        rt.put_state(st);
        let cur = self.state.get_untracked(rt);
        let ghost c = cur;
        let next = (self.f)(&cur, action);
        let ghost v = next;
        let ghost before = rt.state();
        self.state.set(rt, next);
        proof {
            if outer && old(rt).state().live(self.state) && lone_write(old(rt).state(), self.state) {
                let w = rt.state().window->Some_0;
                assert forall|k: int| 0 <= k < w.order@.len() implies
                    (#[trigger] rt.state().arena.subscribers(w.order@[k])).len() == 0
                        && !rt.state().notifier_ids@.contains(w.order@[k] as u64) by {
                    assert(w.order@.contains(w.order@[k]));
                    assert(before.window->Some_0.order@.len() == 0);
                }
            }
        }
        let ghost pf = rt.state();
        if outer {
            rt.flush();
        }
        rt.set_frame(fr.0, fr.1, fr.2, fr.3);
        proof {
            assert(cloned(old(rt).state().arena.sig_value(self.state.id), c) && self.f.ensures((&c, action), v));
            let a = old(rt).state();
            if a.live(self.state) && a.window is None && quiet(a) && V::obeys_eq_spec() {
                assert forall|x: u32| #[trigger] flush_woken(pf, x) implies pf.arena.subscribers(self.state.id).contains(x) by {
                    let w = pf.window->Some_0;
                    let k = choose|k: int| 0 <= k < w.order@.len()
                        && #[trigger] entry_changed(pf.arena, w, k)
                        && w.order@[k] < pf.arena.n_signals()
                        && pf.arena.subscribers(w.order@[k]).contains(x);
                    assert(w.order@.contains(w.order@[k]));
                }
                assert(dispatch_flush(a, self.state, v, pf));
            }
        }
    }
}

} // verus!
