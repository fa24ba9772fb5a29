//! Deferred work: microtasks, animation frames, timers and frame loops,
//! handed to an installed platform scheduler or, off the web without one,
//! run synchronously (frame loops stay inert).
use vstd::prelude::*;

verus! {

/// Handle to scheduled work that can be cancelled.
pub trait ScheduleHandle: Sized {
    fn cancel(&mut self);
}

/// A platform's scheduler, installed once by a backend.
pub trait Scheduler: Sized {
    type Handle: ScheduleHandle;
    fn schedule_microtask<F: FnOnce()>(&self, f: F);
    fn after_animation_frame<F: FnOnce()>(&self, f: F) -> Self::Handle;
    fn after_ms<F: FnOnce()>(&self, delay_ms: i32, f: F) -> Self::Handle;
    fn raf_loop<F: FnMut()>(&self, f: F) -> Self::Handle;
    fn drain_buffered_microtasks(&self);
}

/// The scheduling state of one thread: the installed scheduler (set at
/// most once), whether the platform is the web (where deferral is
/// mandatory), the frame-activity flag and the detached timers.
pub struct Scheduling<S: Scheduler> {
    pub scheduler: Option<S>,
    pub on_web: bool,
    pub frame_active: bool,
    pub detached: Vec<S::Handle>,
}

/// A cancellable one-shot task; without an installed scheduler it has no
/// handle (the work already ran).
pub struct ScheduledTask<H> {
    pub inner: Option<H>,
}

/// A cancellable frame loop; inert (no handle) without a scheduler.
pub struct RafLoop<H> {
    pub inner: Option<H>,
}

/// Work may run here: a scheduler is installed or the platform is not the
/// web.
pub open spec fn may_schedule<S: Scheduler>(s: &Scheduling<S>) -> bool {
    s.scheduler is Some || !s.on_web
}

impl<S: Scheduler> Scheduling<S> {
    /// No scheduler yet, frames active.
    pub fn new(on_web: bool) -> (s: Self)
        ensures
            s.scheduler is None,
            s.on_web == on_web,
            s.frame_active,
            s.detached@.len() == 0,
    {
        Scheduling { scheduler: None, on_web, frame_active: true, detached: Vec::new() }
    }
}

/// Install `scheduler`; a second install is ignored.
pub fn install_scheduler<S: Scheduler>(sch: &mut Scheduling<S>, scheduler: S)
    ensures
        old(sch).scheduler is None ==> final(sch).scheduler == Some(scheduler),
        old(sch).scheduler is Some ==> final(sch).scheduler == old(sch).scheduler,
        final(sch).on_web == old(sch).on_web,
        final(sch).frame_active == old(sch).frame_active,
        final(sch).detached == old(sch).detached,
{
    if sch.scheduler.is_none() {
        sch.scheduler = Some(scheduler);
    }
}

/// Whether a scheduler is installed.
pub fn is_scheduler_installed<S: Scheduler>(sch: &Scheduling<S>) -> (b: bool)
    ensures
        b == sch.scheduler is Some,
{
    sch.scheduler.is_some()
}

/// Run `f` as a microtask; without a scheduler, now.
pub fn schedule_microtask<S: Scheduler, F: FnOnce()>(sch: &Scheduling<S>, f: F)
    requires
        may_schedule(sch),
        sch.scheduler is None ==> f.requires(()),
    ensures
        sch.scheduler is None ==> f.ensures((), ()),
        sch.scheduler is Some ==> call_ensures(S::schedule_microtask::<F>, (&sch.scheduler->Some_0, f), ()),
{
    match &sch.scheduler {
        Some(s) => s.schedule_microtask(f),
        None => f(),
    }
}

/// Flush microtasks the scheduler buffered (nothing without one).
pub fn drain_buffered_microtasks<S: Scheduler>(sch: &Scheduling<S>)
    ensures
        sch.scheduler is Some ==> call_ensures(S::drain_buffered_microtasks, (&sch.scheduler->Some_0,), ()),
{
    match &sch.scheduler {
        Some(s) => s.drain_buffered_microtasks(),
        None => {}
    }
}

impl<H: ScheduleHandle> ScheduledTask<H> {
    /// Cancel the task; later calls do nothing.
    pub fn cancel(&mut self)
        ensures
            final(self).inner is None,
            old(self).inner is Some ==> exists|b: &mut H| #[trigger] call_ensures(H::cancel, (b,), ())
                && *b == old(self).inner->Some_0,
    {
        match self.inner.take() {
            Some(mut h) => h.cancel(),
            None => {}
        }
    }
}

impl<H: ScheduleHandle> RafLoop<H> {
    /// Stop the loop; later calls do nothing.
    pub fn cancel(&mut self)
        ensures
            final(self).inner is None,
            old(self).inner is Some ==> exists|b: &mut H| #[trigger] call_ensures(H::cancel, (b,), ())
                && *b == old(self).inner->Some_0,
    {
        match self.inner.take() {
            Some(mut h) => h.cancel(),
            None => {}
        }
    }
}

/// Run `f` after the next animation frame; without a scheduler, now.
pub fn after_animation_frame<S: Scheduler, F: FnOnce()>(sch: &Scheduling<S>, f: F) -> (t: ScheduledTask<S::Handle>)
    requires
        may_schedule(sch),
        sch.scheduler is None ==> f.requires(()),
    ensures
        sch.scheduler is None ==> f.ensures((), ()) && t.inner is None,
        sch.scheduler is Some ==> t.inner is Some
            && call_ensures(S::after_animation_frame::<F>, (&sch.scheduler->Some_0, f), t.inner->Some_0),
{
    match &sch.scheduler {
        Some(s) => ScheduledTask { inner: Some(s.after_animation_frame(f)) },
        None => {
            f();
            ScheduledTask { inner: None }
        }
    }
}

/// Run `f` after `delay_ms`; without a scheduler, now (the delay is
/// ignored).
pub fn after_ms<S: Scheduler, F: FnOnce()>(sch: &Scheduling<S>, delay_ms: i32, f: F) -> (t: ScheduledTask<S::Handle>)
    requires
        may_schedule(sch),
        sch.scheduler is None ==> f.requires(()),
    ensures
        sch.scheduler is None ==> f.ensures((), ()) && t.inner is None,
        sch.scheduler is Some ==> t.inner is Some
            && call_ensures(S::after_ms::<F>, (&sch.scheduler->Some_0, delay_ms, f), t.inner->Some_0),
{
    match &sch.scheduler {
        Some(s) => ScheduledTask { inner: Some(s.after_ms(delay_ms, f)) },
        None => {
            f();
            ScheduledTask { inner: None }
        }
    }
}

/// Fire-and-forget `after_ms`: the pending timer is kept by the thread's
/// scheduling state, so no handle has to be held.
pub fn after_ms_detached<S: Scheduler, F: FnOnce()>(sch: &mut Scheduling<S>, delay_ms: i32, f: F)
    requires
        may_schedule(old(sch)),
        old(sch).scheduler is None ==> f.requires(()),
    ensures
        old(sch).scheduler is None ==> f.ensures((), ()) && final(sch).detached == old(sch).detached,
        old(sch).scheduler is Some ==> final(sch).detached@.len() == old(sch).detached@.len() + 1
            && call_ensures(S::after_ms::<F>, (&old(sch).scheduler->Some_0, delay_ms, f), final(sch).detached@.last()),
        final(sch).scheduler == old(sch).scheduler,
        final(sch).on_web == old(sch).on_web,
        final(sch).frame_active == old(sch).frame_active,
{
    let task = after_ms(&*sch, delay_ms, f);
    match task.inner {
        Some(h) => sch.detached.push(h),
        None => {}
    }
}

/// Whether frames are being produced (the app is visible).
pub fn is_frame_active<S: Scheduler>(sch: &Scheduling<S>) -> (b: bool)
    ensures
        b == sch.frame_active,
{
    sch.frame_active
}

/// Record whether frames are being produced.
pub fn set_frame_active<S: Scheduler>(sch: &mut Scheduling<S>, active: bool)
    ensures
        final(sch).frame_active == active,
        final(sch).scheduler == old(sch).scheduler,
        final(sch).on_web == old(sch).on_web,
        final(sch).detached == old(sch).detached,
{
    sch.frame_active = active;
}

/// Run `f` once per animation frame until cancelled; inert without a
/// scheduler.
pub fn raf_loop<S: Scheduler, F: FnMut()>(sch: &Scheduling<S>, f: F) -> (l: RafLoop<S::Handle>)
    requires
        may_schedule(sch),
    ensures
        sch.scheduler is None ==> l.inner is None,
        sch.scheduler is Some ==> l.inner is Some
            && call_ensures(S::raf_loop::<F>, (&sch.scheduler->Some_0, f), l.inner->Some_0),
{
    match &sch.scheduler {
        Some(s) => RafLoop { inner: Some(s.raf_loop(f)) },
        None => RafLoop { inner: None },
    }
}

/// A sink for diagnostic lines; the first one installed stays.
pub struct DebugLog<L> {
    pub sink: Option<L>,
}

impl<L: Fn(&str)> DebugLog<L> {
    pub fn new() -> (d: Self)
        ensures
            d.sink is None,
    {
        DebugLog { sink: None }
    }
}

/// Install the diagnostic sink unless one is installed.
pub fn install_debug_log<L: Fn(&str)>(log: &mut DebugLog<L>, f: L)
    ensures
        old(log).sink is None ==> final(log).sink == Some(f),
        old(log).sink is Some ==> final(log).sink == old(log).sink,
{
    if log.sink.is_none() {
        log.sink = Some(f);
    }
}

/// Send `msg` to the sink, if one is installed.
pub fn debug_log<L: Fn(&str)>(log: &DebugLog<L>, msg: &str)
    requires
        log.sink matches Some(f) ==> f.requires((msg,)),
    ensures
        log.sink matches Some(f) ==> f.ensures((msg,), ()),
{
    match &log.sink {
        Some(f) => f(msg),
        None => {}
    }
}

} // verus!
