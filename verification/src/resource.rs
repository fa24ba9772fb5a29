//! Async data as a reactive primitive: the bookkeeping of a resource.
//!
//! A resource starts a fetch whenever its inputs change or it is asked to
//! refetch. Starting a fetch cancels the one in flight, issues a fresh
//! sequence number and cancellation token, clears the error, raises
//! `loading` and keeps the previous data. A finished fetch lands only if
//! it is the most recently issued one and its token was not cancelled.
//! Running the fetch itself (the future, the executor) is the host's part.
use vstd::prelude::*;

verus! {

/// Snapshot of a resource: the last payload, the last error, and whether
/// a fetch is in flight. All three can be set at once (stale data shown
/// beside a new error, or while a refetch runs).
#[derive(Clone, Debug)]
pub struct ResourceState<T, E> {
    pub data: Option<T>,
    pub error: Option<E>,
    pub loading: bool,
}

impl<T, E> Default for ResourceState<T, E> {
    /// Nothing fetched yet, the first fetch in flight.
    fn default() -> (s: Self)
        ensures
            s.data is None,
            s.error is None,
            s.loading,
    {
        ResourceState { data: None, error: None, loading: true }
    }
}

/// A resource's state collapsed for matching in UI code.
#[derive(Clone, Debug)]
pub enum NetworkState<T, E> {
    Idle,
    Loading,
    Success(T),
    Error(E),
}

/// The collapsed state: `Loading` over `Error` over `Success` over `Idle`;
/// a refetch over stale data is `Loading`.
pub open spec fn network_of<T, E>(s: ResourceState<T, E>) -> NetworkState<T, E> {
    if s.loading {
        NetworkState::Loading
    } else if s.error is Some {
        NetworkState::Error(s.error->Some_0)
    } else if s.data is Some {
        NetworkState::Success(s.data->Some_0)
    } else {
        NetworkState::Idle
    }
}

/// The state once a fetch starts: loading, no error, data kept.
pub open spec fn started<T, E>(s: ResourceState<T, E>) -> ResourceState<T, E> {
    ResourceState { data: s.data, error: None, loading: true }
}

/// The state once a fetch lands with `result`: a payload replaces the
/// data and clears the error; an error is recorded beside the old data.
pub open spec fn settled<T, E>(s: ResourceState<T, E>, result: Result<T, E>) -> ResourceState<T, E> {
    match result {
        Ok(d) => ResourceState { data: Some(d), error: None, loading: false },
        Err(e) => ResourceState { data: s.data, error: Some(e), loading: false },
    }
}

/// The state after fetch `seq` finishes with `result`, `latest` being
/// the most recently issued sequence number: it lands only if it is the
/// latest and was not cancelled.
pub open spec fn landed<T, E>(s: ResourceState<T, E>, latest: u64, seq: u64, cancelled: bool, result: Result<T, E>) -> ResourceState<T, E> {
    if seq == latest && !cancelled { settled(s, result) } else { s }
}

/// The sequence number after `s` (wrapping).
pub open spec fn next_seq(s: u64) -> u64 {
    if s == u64::MAX { 0 } else { (s + 1) as u64 }
}

/// A callback run once when a token is cancelled.
pub trait CancelHook {
    fn fire(self);
}

/// A cancellation token handed to a fetch: a slot of a `CancelTable`.
/// It fires when a newer fetch starts or the resource is disposed.
/// Cancellation is advisory: a fetch that ignores it is still kept out
/// by the sequence check.
#[derive(Clone, Copy, Debug, PartialEq, Eq, Structural)]
pub struct ResourceCancel {
    pub id: usize,
}

/// The tokens: whether each is cancelled, and the hooks waiting on it.
pub struct CancelTable<H> {
    cancelled: Vec<bool>,
    hooks: Vec<Vec<H>>,
}

/// What a token table holds: per token, cancelled or not and the hooks
/// still waiting.
pub open spec fn cancel_view<H>(v: Seq<(bool, Seq<H>)>, i: int) -> Seq<(bool, Seq<H>)> {
    if 0 <= i < v.len() && !v[i].0 { v.update(i, (true, Seq::empty())) } else { v }
}

/// The table after hook `h` is added to token `i`: it waits if the token
/// is live; on a cancelled token it fires at once and nothing is kept.
pub open spec fn hook_view<H>(v: Seq<(bool, Seq<H>)>, i: int, h: H) -> Seq<(bool, Seq<H>)> {
    if 0 <= i < v.len() && !v[i].0 { v.update(i, (false, v[i].1.push(h))) } else { v }
}

impl<H> CancelTable<H> {
    #[verifier::type_invariant]
    spec fn inv(self) -> bool {
        &&& self.cancelled@.len() == self.hooks@.len()
        &&& forall|i: int| 0 <= i < self.hooks@.len() && #[trigger] self.cancelled@[i] ==> self.hooks@[i]@.len() == 0
    }

    /// Each token's state, in issue order.
    pub closed spec fn tokens(&self) -> Seq<(bool, Seq<H>)> {
        Seq::new(self.cancelled@.len(), |i: int| (self.cancelled@[i], self.hooks@[i]@))
    }

    /// Token `t` is cancelled.
    pub open spec fn cancelled(&self, t: ResourceCancel) -> bool {
        t.id < self.tokens().len() && self.tokens()[t.id as int].0
    }

    /// No token yet.
    pub fn new() -> (t: Self)
        ensures
            t.tokens().len() == 0,
    {
        let t = CancelTable { cancelled: Vec::new(), hooks: Vec::new() };
        proof { assert(t.tokens() =~= Seq::<(bool, Seq<H>)>::empty()); }
        t
    }

    /// Issue a fresh live token.
    pub fn issue(&mut self) -> (t: ResourceCancel)
        ensures
            t.id == old(self).tokens().len(),
            final(self).tokens() == old(self).tokens().push((false, Seq::<H>::empty())),
    {
        proof { use_type_invariant(&*self); }
        let id = self.cancelled.len();
        let mut whole = CancelTable { cancelled: Vec::new(), hooks: Vec::new() };
        std::mem::swap(&mut whole, self);
        let CancelTable { mut cancelled, mut hooks } = whole;
        cancelled.push(false);
        hooks.push(Vec::new());
        *self = CancelTable { cancelled, hooks };
        proof {
            assert(self.tokens() =~= old(self).tokens().push((false, Seq::<H>::empty())));
        }
        ResourceCancel { id }
    }

}

impl<H: CancelHook> CancelTable<H> {
    /// Cancel token `t`: mark it and fire its hooks in the order they were
    /// added. A token already cancelled (or unknown) is left alone.
    pub fn cancel(&mut self, t: ResourceCancel)
        ensures
            final(self).tokens() == cancel_view(old(self).tokens(), t.id as int),
            t.id < old(self).tokens().len() ==> forall|i: int| 0 <= i < old(self).tokens()[t.id as int].1.len() ==>
                #[trigger] call_ensures(H::fire, (old(self).tokens()[t.id as int].1[i],), ()),
    {
        proof { use_type_invariant(&*self); }
        if t.id >= self.cancelled.len() || self.cancelled[t.id] {
            return;
        }
        let mut whole = CancelTable { cancelled: Vec::new(), hooks: Vec::new() };
        std::mem::swap(&mut whole, self);
        let CancelTable { mut cancelled, mut hooks } = whole;
        cancelled.set(t.id, true);
        let mut taken: Vec<H> = Vec::new();
        std::mem::swap(&mut taken, &mut hooks[t.id]);
        *self = CancelTable { cancelled, hooks };
        proof {
            assert(self.tokens() =~= cancel_view(old(self).tokens(), t.id as int));
        }
        let ghost all = taken@;
        proof { assert(all =~= old(self).tokens()[t.id as int].1); }
        let ghost mut k: int = 0;
        while taken.len() > 0
            invariant
                0 <= k <= all.len(),
                taken@ == all.subrange(k, all.len() as int),
                forall|i: int| 0 <= i < k ==> #[trigger] call_ensures(H::fire, (all[i],), ()),
            decreases taken@.len(),
        {
            let h = taken.remove(0);
            proof { assert(h == all[k]); }
            h.fire();
            proof {
                k = k + 1;
                assert(taken@ =~= all.subrange(k, all.len() as int));
            }
        }
    }
}

impl ResourceCancel {
    /// The token has been cancelled.
    pub fn is_cancelled<H>(&self, table: &CancelTable<H>) -> (b: bool)
        ensures
            b == table.cancelled(*self),
    {
        proof { use_type_invariant(table); }
        self.id < table.cancelled.len() && table.cancelled[self.id]
    }

    /// Run `hook` once the token is cancelled; at once if it already is.
    pub fn on_cancel<H: CancelHook>(&self, table: &mut CancelTable<H>, hook: H)
        ensures
            final(table).tokens() == hook_view(old(table).tokens(), self.id as int, hook),
            !(self.id < old(table).tokens().len() && !old(table).tokens()[self.id as int].0) ==>
                call_ensures(H::fire, (hook,), ()),
    {
        proof { use_type_invariant(&*table); }
        if self.id >= table.cancelled.len() || table.cancelled[self.id] {
            hook.fire();
            return;
        }
        let mut whole = CancelTable { cancelled: Vec::new(), hooks: Vec::new() };
        std::mem::swap(&mut whole, table);
        let CancelTable { cancelled, mut hooks } = whole;
        let mut list: Vec<H> = Vec::new();
        std::mem::swap(&mut list, &mut hooks[self.id]);
        list.push(hook);
        hooks.set(self.id, list);
        *table = CancelTable { cancelled, hooks };
        proof {
            assert(table.tokens() =~= hook_view(old(table).tokens(), self.id as int, hook));
        }
    }
}

/// A resource: its state, the last issued sequence number, the token of
/// the fetch in flight and the refetch counter.
pub struct Resource<T, E> {
    state: ResourceState<T, E>,
    sequence: u64,
    active: Option<ResourceCancel>,
    refetches: u64,
}

impl<T, E> Resource<T, E> {
    /// The current state.
    pub closed spec fn current(&self) -> ResourceState<T, E> {
        self.state
    }

    /// The most recently issued sequence number.
    pub closed spec fn sequence(&self) -> u64 {
        self.sequence
    }

    /// The token of the most recent fetch, if one was started.
    pub closed spec fn active(&self) -> Option<ResourceCancel> {
        self.active
    }

    /// How many refetches were asked for (wrapping).
    pub closed spec fn refetches(&self) -> u64 {
        self.refetches
    }

    /// A resource before its first fetch starts.
    pub fn new() -> (r: Self)
        ensures
            r.current().data is None,
            r.current().error is None,
            r.current().loading,
            r.sequence() == 0,
            r.active() is None,
            r.refetches() == 0,
    {
        Resource { state: ResourceState::default(), sequence: 0, active: None, refetches: 0 }
    }

    /// Whether a fetch is in flight.
    pub fn loading(&self) -> (b: bool)
        ensures
            b == self.current().loading,
    {
        self.state.loading
    }

    /// Ask for a refetch with the current inputs.
    pub fn refetch(&mut self)
        ensures
            final(self).refetches() == next_seq(old(self).refetches()),
            final(self).current() == old(self).current(),
            final(self).sequence() == old(self).sequence(),
            final(self).active() == old(self).active(),
    {
        self.refetches = self.refetches.wrapping_add(1);
    }

    /// The refetch counter, which the fetch effect tracks.
    pub fn refetch_count(&self) -> (n: u64)
        ensures
            n == self.refetches(),
    {
        self.refetches
    }

    /// Start a fetch: cancel the one in flight, issue the next sequence
    /// number and a fresh token, raise `loading`, clear the error and keep
    /// the data. The fetch is handed the number and the token.
    pub fn begin_fetch<H: CancelHook>(&mut self, table: &mut CancelTable<H>) -> (ticket: (u64, ResourceCancel))
        ensures
            ticket.0 == next_seq(old(self).sequence()),
            ticket.1.id == cancel_tokens(old(table).tokens(), old(self).active()).len(),
            final(table).tokens() == cancel_tokens(old(table).tokens(), old(self).active()).push((false, Seq::<H>::empty())),
            final(self).sequence() == ticket.0,
            final(self).active() == Some(ticket.1),
            final(self).current() == started(old(self).current()),
            final(self).refetches() == old(self).refetches(),
    {
        match self.active {
            Some(prev) => table.cancel(prev),
            None => {}
        }
        let seq = self.sequence.wrapping_add(1);
        self.sequence = seq;
        let token = table.issue();
        self.active = Some(token);
        self.state.loading = true;
        self.state.error = None;
        (seq, token)
    }

    /// Fetch `seq`, holding `token`, finished with `result`. It lands only
    /// if it is the latest fetch and its token is not cancelled; answers
    /// whether it landed.
    pub fn complete<H>(&mut self, table: &CancelTable<H>, seq: u64, token: ResourceCancel, result: Result<T, E>) -> (applied: bool)
        ensures
            applied == (seq == old(self).sequence() && !table.cancelled(token)),
            final(self).current() == landed(old(self).current(), old(self).sequence(), seq, table.cancelled(token), result),
            final(self).sequence() == old(self).sequence(),
            final(self).active() == old(self).active(),
            final(self).refetches() == old(self).refetches(),
    {
        if self.sequence != seq {
            return false;
        }
        if token.is_cancelled(table) {
            return false;
        }
        self.state.loading = false;
        match result {
            Ok(d) => {
                self.state.data = Some(d);
                self.state.error = None;
            }
            Err(e) => {
                self.state.error = Some(e);
            }
        }
        true
    }

    /// The owning scope is gone: cancel the fetch in flight.
    pub fn dispose<H: CancelHook>(&mut self, table: &mut CancelTable<H>)
        ensures
            final(table).tokens() == cancel_tokens(old(table).tokens(), old(self).active()),
            final(self).current() == old(self).current(),
            final(self).sequence() == old(self).sequence(),
    {
        match self.active {
            Some(prev) => table.cancel(prev),
            None => {}
        }
    }
}

/// The table after the token of the fetch in flight, if any, is cancelled.
pub open spec fn cancel_tokens<H>(v: Seq<(bool, Seq<H>)>, active: Option<ResourceCancel>) -> Seq<(bool, Seq<H>)> {
    match active {
        Some(t) => cancel_view(v, t.id as int),
        None => v,
    }
}

impl<T: Clone, E: Clone> Resource<T, E> {
    /// The last successful payload; kept while a refetch runs and after a
    /// failed one.
    pub fn data(&self) -> (d: Option<T>)
        ensures
            d is Some <==> self.current().data is Some,
            d matches Some(x) ==> cloned(self.current().data->Some_0, x),
    {
        match &self.state.data {
            Some(x) => Some(x.clone()),
            None => None,
        }
    }

    /// The error of the most recent fetch; cleared when a fetch starts.
    pub fn error(&self) -> (e: Option<E>)
        ensures
            e is Some <==> self.current().error is Some,
            e matches Some(x) ==> cloned(self.current().error->Some_0, x),
    {
        match &self.state.error {
            Some(x) => Some(x.clone()),
            None => None,
        }
    }

    /// The whole state at once.
    pub fn state(&self) -> (s: ResourceState<T, E>)
        ensures
            s.loading == self.current().loading,
            s.data is Some <==> self.current().data is Some,
            s.data matches Some(x) ==> cloned(self.current().data->Some_0, x),
            s.error is Some <==> self.current().error is Some,
            s.error matches Some(x) ==> cloned(self.current().error->Some_0, x),
    {
        ResourceState { data: self.data(), error: self.error(), loading: self.state.loading }
    }

    /// The collapsed state (see `network_of`).
    pub fn network_state(&self) -> (n: NetworkState<T, E>)
        ensures
            n is Loading <==> network_of(self.current()) is Loading,
            n is Idle <==> network_of(self.current()) is Idle,
            n is Success <==> network_of(self.current()) is Success,
            n is Error <==> network_of(self.current()) is Error,
            n matches NetworkState::Success(x) ==> cloned(self.current().data->Some_0, x),
            n matches NetworkState::Error(x) ==> cloned(self.current().error->Some_0, x),
    {
        if self.state.loading {
            NetworkState::Loading
        } else {
            match &self.state.error {
                Some(e) => NetworkState::Error(e.clone()),
                None => match &self.state.data {
                    Some(d) => NetworkState::Success(d.clone()),
                    None => NetworkState::Idle,
                },
            }
        }
    }
}

/// A fetch issued before another never lands: whatever it brings, the
/// state is left as the newer fetch found it.
pub proof fn law_superseded_fetch_never_lands<T, E>(s: ResourceState<T, E>, older: u64, cancelled: bool, result: Result<T, E>)
    ensures
        landed(s, next_seq(older), older, cancelled, result) == s,
{
}

/// Starting a fetch keeps the data, clears the error and raises `loading`;
/// when that fetch lands, the payload or the error is what it brought.
pub proof fn law_refetch_keeps_stale_data_until_it_lands<T, E>(s: ResourceState<T, E>, seq: u64, result: Result<T, E>)
    ensures
        started(s).data == s.data,
        started(s).error is None,
        started(s).loading,
        landed(started(s), seq, seq, false, result).loading == false,
        result matches Ok(d) ==> landed(started(s), seq, seq, false, result).data == Some(d)
            && landed(started(s), seq, seq, false, result).error is None,
        result matches Err(e) ==> landed(started(s), seq, seq, false, result).data == s.data
            && landed(started(s), seq, seq, false, result).error == Some(e),
{
}

/// Cancelling a token twice is cancelling it once; a hook added after
/// cancellation is not kept waiting.
pub proof fn law_cancel_is_idempotent<H>(v: Seq<(bool, Seq<H>)>, i: int, h: H)
    ensures
        cancel_view(cancel_view(v, i), i) == cancel_view(v, i),
        hook_view(cancel_view(v, i), i, h) == cancel_view(v, i),
        0 <= i < v.len() ==> cancel_view(v, i)[i].0,
        0 <= i < v.len() && !v[i].0 ==> cancel_view(v, i)[i] == (true, Seq::<H>::empty()),
{
    if 0 <= i < v.len() && !v[i].0 {
        assert(cancel_view(v, i)[i].0);
    }
}

} // verus!
