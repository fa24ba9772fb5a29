use runtime_core::scheduling::{
    after_animation_frame, after_ms, after_ms_detached, debug_log, install_debug_log, install_scheduler, is_frame_active,
    is_scheduler_installed, raf_loop, schedule_microtask, set_frame_active, DebugLog, ScheduleHandle, Scheduler, Scheduling,
};
use std::cell::{Cell, RefCell};
use std::rc::Rc;

/// A handle that counts its cancels.
struct CountingHandle(Rc<Cell<u32>>);

impl ScheduleHandle for CountingHandle {
    fn cancel(&mut self) {
        self.0.set(self.0.get() + 1);
    }
}

/// A scheduler that only records what it was asked to do.
struct Recorder {
    asked: Rc<Cell<u32>>,
    cancels: Rc<Cell<u32>>,
}

impl Scheduler for Recorder {
    type Handle = CountingHandle;
    fn schedule_microtask<F: FnOnce()>(&self, _f: F) {
        self.asked.set(self.asked.get() + 1);
    }
    fn after_animation_frame<F: FnOnce()>(&self, _f: F) -> CountingHandle {
        self.asked.set(self.asked.get() + 1);
        CountingHandle(self.cancels.clone())
    }
    fn after_ms<F: FnOnce()>(&self, _delay_ms: i32, _f: F) -> CountingHandle {
        self.asked.set(self.asked.get() + 1);
        CountingHandle(self.cancels.clone())
    }
    fn raf_loop<F: FnMut()>(&self, _f: F) -> CountingHandle {
        self.asked.set(self.asked.get() + 1);
        CountingHandle(self.cancels.clone())
    }
    fn drain_buffered_microtasks(&self) {}
}

fn non_web() -> Scheduling<Recorder> {
    Scheduling::new(false)
}

#[test]
fn schedule_microtask_runs_synchronously_without_scheduler() {
    let sch = non_web();
    let fired = Rc::new(Cell::new(false));
    let fired_for_closure = fired.clone();
    schedule_microtask(&sch, move || fired_for_closure.set(true));
    assert!(fired.get(), "schedule_microtask should run synchronously on native without an installed scheduler");
}

#[test]
fn after_animation_frame_runs_synchronously_without_scheduler() {
    let sch = non_web();
    let fired = Rc::new(Cell::new(false));
    let fired_for_closure = fired.clone();
    let task = after_animation_frame(&sch, move || fired_for_closure.set(true));
    assert!(fired.get(), "after_animation_frame should fire synchronously on native without a scheduler");
    assert!(task.inner.is_none(), "native-fallback ScheduledTask should have no inner handle");
}

#[test]
fn after_ms_runs_synchronously_without_scheduler() {
    let sch = non_web();
    let fired = Rc::new(Cell::new(false));
    let fired_for_closure = fired.clone();
    let task = after_ms(&sch, 10_000, move || fired_for_closure.set(true));
    assert!(fired.get(), "after_ms should fire synchronously on native without a scheduler (delay ignored)");
    assert!(task.inner.is_none());
}

#[test]
fn raf_loop_is_inert_on_native_without_scheduler() {
    let sch = non_web();
    let fired = Rc::new(Cell::new(0u32));
    let fired_for_closure = fired.clone();
    let _loop_handle = raf_loop(&sch, move || fired_for_closure.set(fired_for_closure.get() + 1));
    assert_eq!(fired.get(), 0, "raf_loop body should not run on native without a scheduler");
}

#[test]
fn scheduled_task_cancel_is_idempotent_on_native_fallback() {
    let sch = non_web();
    let mut task = after_animation_frame(&sch, || {});
    task.cancel();
    task.cancel();
    drop(task);
}

#[test]
fn raf_loop_cancel_is_idempotent_on_native_fallback() {
    let sch = non_web();
    let mut handle = raf_loop(&sch, || {});
    handle.cancel();
    handle.cancel();
    drop(handle);
}

#[test]
fn schedule_microtask_with_capture_runs_body_with_captured_values() {
    let sch = non_web();
    let cell = Rc::new(Cell::new(0));
    let cell_clone = cell.clone();
    schedule_microtask(&sch, move || cell_clone.set(42));
    assert_eq!(cell.get(), 42);
}

#[test]
fn drop_of_scheduled_task_without_inner_does_not_panic() {
    let sch = non_web();
    let task = after_ms(&sch, 0, || {});
    drop(task);
}

#[test]
fn installed_scheduler_receives_work_and_cancel_reaches_its_handle_once() {
    let mut sch = non_web();
    let asked = Rc::new(Cell::new(0));
    let cancels = Rc::new(Cell::new(0));
    install_scheduler(&mut sch, Recorder { asked: asked.clone(), cancels: cancels.clone() });
    assert!(is_scheduler_installed(&sch));
    let fired = Rc::new(Cell::new(false));
    let f = fired.clone();
    let mut task = after_ms(&sch, 5, move || f.set(true));
    assert!(!fired.get(), "an installed scheduler defers the work");
    assert_eq!(asked.get(), 1);
    task.cancel();
    task.cancel();
    assert_eq!(cancels.get(), 1, "cancel reaches the handle exactly once");
    after_ms_detached(&mut sch, 5, || {});
    assert_eq!(sch.detached.len(), 1, "a detached timer is kept by the scheduling state");
}

#[test]
fn frame_activity_and_debug_log_round_trip() {
    let mut sch = non_web();
    assert!(is_frame_active(&sch));
    set_frame_active(&mut sch, false);
    assert!(!is_frame_active(&sch));
    let lines = Rc::new(RefCell::new(Vec::<String>::new()));
    let sink = lines.clone();
    let mut log: DebugLog<Box<dyn Fn(&str)>> = DebugLog::new();
    install_debug_log(&mut log, Box::new(move |m: &str| sink.borrow_mut().push(m.to_string())));
    install_debug_log(&mut log, Box::new(|_: &str| panic!("the first sink stays")));
    debug_log(&log, "hello");
    assert_eq!(*lines.borrow(), vec!["hello".to_string()]);
}
