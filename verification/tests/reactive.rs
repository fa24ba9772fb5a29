use runtime_core::reactive::runtime::{
    arena_stats, batch, capture_reactive_ctx, cleanup_has_owner, cycle, fire_scoped, inject, inject_or, install_drop_deferral, install_reactive_idle_hook, memo, on,
    on_cleanup, on_defer, provide, reducer, take_deferred, untrack, watch, with_inject, with_scope, Effect, Reaction, Ref,
    Runtime, Scope,
};
use runtime_core::reactive::state::Signal;
use std::any::Any;
use std::cell::{Cell, RefCell};
use std::rc::Rc;

/// A component handle stored in a ref.
#[derive(Clone, Debug)]
struct DummyHandle {
    counter: Rc<Cell<u32>>,
}

impl DummyHandle {
    fn bump(&self) {
        self.counter.set(self.counter.get() + 1);
    }
}

impl PartialEq for DummyHandle {
    fn eq(&self, other: &Self) -> bool {
        Rc::ptr_eq(&self.counter, &other.counter)
    }
}

/// The values the runtimes of these tests hold.
#[derive(Clone, Debug, PartialEq)]
enum Val {
    I(i64),
    B(bool),
    S(String),
    F(f64),
    H(DummyHandle),
    Sig(Signal),
}

impl Val {
    fn i(&self) -> i64 {
        match self {
            Val::I(n) => *n,
            other => panic!("not an integer: {other:?}"),
        }
    }
}

type Rt = Runtime<Val, Fx>;

/// The callbacks handed to the runtime.
enum Fx {
    Body(Box<dyn FnMut(&mut Rt)>),
    Once(Option<Box<dyn FnOnce(&mut Rt)>>),
    Compute(Box<dyn FnMut(&mut Rt) -> Val>),
    On(Box<dyn FnMut(&mut Rt, &Vec<Val>, &Option<Vec<Val>>)>),
    Guard(#[allow(dead_code)] Box<dyn Any>),
}

impl Reaction<Val> for Fx {
    fn run(&mut self, rt: &mut Rt) {
        self.fire(rt)
    }
    fn compute(&mut self, rt: &mut Rt) -> Val {
        match self {
            Fx::Compute(f) => f(rt),
            _ => panic!("not a computation"),
        }
    }
    fn same(&mut self, a: &Val, b: &Val) -> bool {
        a == b
    }
    fn changed(&mut self, rt: &mut Rt, now: &Vec<Val>, prev: &Option<Vec<Val>>) {
        if let Fx::On(f) = self {
            f(rt, now, prev)
        }
    }
    fn fire(&mut self, rt: &mut Rt) {
        match self {
            Fx::Body(f) => f(rt),
            Fx::Once(f) => {
                if let Some(f) = f.take() {
                    f(rt)
                }
            }
            _ => {}
        }
    }
}

fn body(f: impl FnMut(&mut Rt) + 'static) -> Fx {
    Fx::Body(Box::new(f))
}

fn once(f: impl FnOnce(&mut Rt) + 'static) -> Fx {
    Fx::Once(Some(Box::new(f)))
}

fn compute(f: impl FnMut(&mut Rt) -> Val + 'static) -> Fx {
    Fx::Compute(Box::new(f))
}

fn on_body(f: impl FnMut(&mut Rt, &Vec<Val>, &Option<Vec<Val>>) + 'static) -> Fx {
    Fx::On(Box::new(f))
}

fn num(rt: &mut Rt, s: Signal) -> i64 {
    s.get(rt).i()
}

/// Build an effect that reads `sig` and counts its runs.
fn watch1(rt: &mut Rt, sig: Signal) -> (Effect, Rc<Cell<u32>>) {
    let runs = Rc::new(Cell::new(0));
    let r = runs.clone();
    let e = Effect::new(rt, body(move |rt| {
        let _ = sig.get(rt);
        r.set(r.get() + 1);
    }));
    (e, runs)
}

/// An effect reading all of `a`, `b`, `c`, counting its runs.
fn watch3(rt: &mut Rt, a: Signal, b: Signal, c: Signal) -> (Effect, Rc<Cell<u32>>) {
    let runs = Rc::new(Cell::new(0));
    let r = runs.clone();
    let e = Effect::new(rt, body(move |rt| {
        let _ = (a.get(rt), b.get(rt), c.get(rt));
        r.set(r.get() + 1);
    }));
    (e, runs)
}

fn arena_inuse_counts(rt: &Rt) -> (usize, usize) {
    let s = arena_stats(rt);
    (s.signals_in_use, s.effects_in_use)
}

const THEME: u64 = 1;
const LOCALE: u64 = 2;

#[test]
fn signal_is_copy_and_works() {
    let mut rt = Rt::new();
    let s = Signal::new(&mut rt, Val::I(7));
    let s2 = s;
    s.set(&mut rt, Val::I(42));
    assert_eq!(s2.get(&mut rt), Val::I(42));
}

#[test]
fn idle_hook_coalesces_fanout_to_one_window() {
    let mut rt = Rt::new();
    let fires = Rc::new(Cell::new(0u32));
    let f = fires.clone();
    install_reactive_idle_hook(&mut rt, body(move |_| f.set(f.get() + 1)));
    let sel = Signal::new(&mut rt, Val::I(0));
    const N: usize = 64;
    let mut keep = Vec::with_capacity(N);
    for _ in 0..N {
        keep.push(Effect::new(&mut rt, body(move |rt| {
            let _ = sel.get(rt);
        })));
    }
    fires.set(0);
    sel.set(&mut rt, Val::I(1));
    let fired = fires.get();
    assert!(fired <= 2, "fan-out of {N} subscribers must coalesce to a single reactive window (≤2 idle fires); got {fired}");
    install_reactive_idle_hook(&mut rt, body(|_| {}));
    for e in keep {
        e.dispose(&mut rt);
    }
}

#[test]
fn effect_fires_on_change() {
    let mut rt = Rt::new();
    let count = Signal::new(&mut rt, Val::I(0));
    let observed = Rc::new(Cell::new(0));
    let obs = observed.clone();
    let _e = Effect::new(&mut rt, body(move |rt| obs.set(num(rt, count))));
    assert_eq!(observed.get(), 0);
    count.set(&mut rt, Val::I(5));
    assert_eq!(observed.get(), 5);
    count.set(&mut rt, Val::I(11));
    assert_eq!(observed.get(), 11);
}

#[test]
fn persist_keeps_effect_alive_outside_scope() {
    let mut rt = Rt::new();
    let src = Signal::new(&mut rt, Val::I(0));
    let runs = Rc::new(Cell::new(0u32));
    let r = runs.clone();
    Effect::new(&mut rt, body(move |rt| {
        let _ = src.get(rt);
        r.set(r.get() + 1);
    }))
    .persist();
    assert_eq!(runs.get(), 1, "effect runs once at creation");
    src.set(&mut rt, Val::I(1));
    assert_eq!(runs.get(), 2, "persisted effect must re-fire on signal change (handle was not held)");
}

#[test]
fn dropped_effect_outside_scope_does_not_refire() {
    let mut rt = Rt::new();
    let src = Signal::new(&mut rt, Val::I(0));
    let runs = Rc::new(Cell::new(0u32));
    let r = runs.clone();
    Effect::new(&mut rt, body(move |rt| {
        let _ = src.get(rt);
        r.set(r.get() + 1);
    }))
    .dispose(&mut rt);
    assert_eq!(runs.get(), 1);
    src.set(&mut rt, Val::I(1));
    assert_eq!(runs.get(), 1, "dropped effect must not re-fire");
}

#[test]
fn effect_with_self_write_keeps_firing() {
    let mut rt = Rt::new();
    let value = Signal::new(&mut rt, Val::I(0));
    let shadow = Signal::new(&mut rt, Val::I(0));
    let mirror_runs = Rc::new(Cell::new(0));
    let r = mirror_runs.clone();
    let _e = Effect::new(&mut rt, body(move |rt| {
        let v = num(rt, value);
        if num(rt, shadow) != v {
            shadow.set(rt, Val::I(v));
        }
        r.set(r.get() + 1);
    }));
    assert_eq!(mirror_runs.get(), 1);
    assert_eq!(shadow.get(&mut rt), Val::I(0));

    value.set(&mut rt, Val::I(1));
    assert_eq!(shadow.get(&mut rt), Val::I(1));
    let after_first = mirror_runs.get();
    assert!(after_first >= 2, "effect should re-run after first value.set");

    value.set(&mut rt, Val::I(2));
    assert_eq!(shadow.get(&mut rt), Val::I(2), "shadow should track value after the second flip too");
    assert!(mirror_runs.get() > after_first, "effect must fire again after the second value.set");
}

#[test]
fn inject_returns_none_without_provider() {
    let mut rt = Rt::new();
    let scope = Scope::new(&mut rt);
    let result = with_scope(&mut rt, &scope, |rt| inject(rt, THEME));
    assert_eq!(result, None);
}

#[test]
fn with_inject_reads_by_reference() {
    let mut rt = Rt::new();
    let scope = Scope::new(&mut rt);
    let result: Option<i64> = with_scope(&mut rt, &scope, |rt| {
        provide(rt, THEME, Val::I(42));
        with_inject(rt, THEME, |v: &Val| v.i())
    });
    assert_eq!(result, Some(42));
    assert_eq!(with_inject(&rt, THEME, |v: &Val| v.i()), None, "nothing is provided outside the scope");
}

#[test]
fn provide_then_inject_in_same_scope() {
    let mut rt = Rt::new();
    let scope = Scope::new(&mut rt);
    let result = with_scope(&mut rt, &scope, |rt| {
        provide(rt, THEME, Val::S("dark".to_string()));
        inject(rt, THEME)
    });
    assert_eq!(result, Some(Val::S("dark".to_string())));
}

#[test]
fn inject_finds_outer_provision_from_inner_scope() {
    let mut rt = Rt::new();
    let outer = Scope::new(&mut rt);
    let result = with_scope(&mut rt, &outer, |rt| {
        provide(rt, THEME, Val::S("dark".to_string()));
        let inner = Scope::new(rt);
        with_scope(rt, &inner, |rt| inject(rt, THEME))
    });
    assert_eq!(result, Some(Val::S("dark".to_string())));
}

#[test]
fn inner_provision_shadows_outer() {
    let mut rt = Rt::new();
    let outer = Scope::new(&mut rt);
    let result = with_scope(&mut rt, &outer, |rt| {
        provide(rt, THEME, Val::S("light".to_string()));
        let inner = Scope::new(rt);
        let inner_result = with_scope(rt, &inner, |rt| {
            provide(rt, THEME, Val::S("dark".to_string()));
            inject(rt, THEME)
        });
        inner.dispose(rt);
        let outer_after = inject(rt, THEME);
        (inner_result, outer_after)
    });
    assert_eq!(result, (Some(Val::S("dark".to_string())), Some(Val::S("light".to_string()))));
}

#[test]
fn different_types_coexist() {
    let mut rt = Rt::new();
    let scope = Scope::new(&mut rt);
    let (theme, locale) = with_scope(&mut rt, &scope, |rt| {
        provide(rt, THEME, Val::S("dark".to_string()));
        provide(rt, LOCALE, Val::S("ja-JP".to_string()));
        (inject(rt, THEME), inject(rt, LOCALE))
    });
    assert_eq!(theme, Some(Val::S("dark".to_string())));
    assert_eq!(locale, Some(Val::S("ja-JP".to_string())));
}

#[test]
fn provision_dies_with_scope() {
    let mut rt = Rt::new();
    let scope = Scope::new(&mut rt);
    with_scope(&mut rt, &scope, |rt| provide(rt, THEME, Val::S("dark".to_string())));
    scope.dispose(&mut rt);
    assert_eq!(inject(&rt, THEME), None);
}

#[test]
fn inject_or_falls_back_to_default() {
    let mut rt = Rt::new();
    let scope = Scope::new(&mut rt);
    let value = with_scope(&mut rt, &scope, |rt| inject_or(rt, THEME, Val::S("default".to_string())));
    assert_eq!(value, Val::S("default".to_string()));
}

#[test]
fn provided_signal_is_reactive_for_descendants() {
    let mut rt = Rt::new();
    let scope = Scope::new(&mut rt);
    let observed = Rc::new(RefCell::new(String::new()));
    let theme_signal = with_scope(&mut rt, &scope, |rt| {
        let theme = Signal::new(rt, Val::S("light".to_string()));
        provide(rt, THEME, Val::Sig(theme));
        let obs = observed.clone();
        let _e = Effect::new(rt, body(move |rt| {
            let Some(Val::Sig(t)) = inject(rt, THEME) else { panic!("provided above") };
            if let Val::S(s) = t.get(rt) {
                *obs.borrow_mut() = s;
            }
        }));
        theme
    });
    assert_eq!(*observed.borrow(), "light");
    theme_signal.set(&mut rt, Val::S("dark".to_string()));
    assert_eq!(*observed.borrow(), "dark", "descendant must see signal updates");
}

#[test]
fn memo_writing_to_own_output_signal_does_not_panic() {
    let mut rt = Rt::new();
    let source = Signal::new(&mut rt, Val::I(1));
    let scope = Scope::new(&mut rt);
    let m = with_scope(&mut rt, &scope, |rt| memo(rt, compute(move |rt| Val::I(num(rt, source) * 2)))).unwrap();
    assert_eq!(m.get(&mut rt), Val::I(2));
    source.set(&mut rt, Val::I(5));
    assert_eq!(m.get(&mut rt), Val::I(10), "memo updates its output signal normally");
}

#[test]
fn batch_coalesces_fan_out_to_one_run_per_effect() {
    let mut rt = Rt::new();
    let a = Signal::new(&mut rt, Val::I(0));
    let b = Signal::new(&mut rt, Val::I(0));
    let runs = Rc::new(Cell::new(0));
    let r = runs.clone();
    let _e = Effect::new(&mut rt, body(move |rt| {
        let _ = num(rt, a) + num(rt, b);
        r.set(r.get() + 1);
    }));
    assert_eq!(runs.get(), 1, "effect runs once on creation");
    batch(&mut rt, |rt| {
        a.set(rt, Val::I(5));
        b.set(rt, Val::I(7));
        a.set(rt, Val::I(8));
    });
    assert_eq!(runs.get(), 2, "three writes inside a batch produce one re-run, not three");
}

#[test]
fn batch_nested_only_flushes_at_outermost() {
    let mut rt = Rt::new();
    let a = Signal::new(&mut rt, Val::I(0));
    let runs = Rc::new(Cell::new(0));
    let r = runs.clone();
    let _e = Effect::new(&mut rt, body(move |rt| {
        let _ = a.get(rt);
        r.set(r.get() + 1);
    }));
    assert_eq!(runs.get(), 1);
    let seen = runs.clone();
    batch(&mut rt, |rt| {
        a.set(rt, Val::I(1));
        batch(rt, |rt| {
            a.set(rt, Val::I(2));
        });
        assert_eq!(seen.get(), 1, "no flush during inner batch");
        a.set(rt, Val::I(3));
    });
    assert_eq!(runs.get(), 2, "outermost batch flushes once at exit");
}

#[test]
fn batch_returns_inner_result() {
    let mut rt = Rt::new();
    let value = batch(&mut rt, |_| 42);
    assert_eq!(value, 42);
}

#[test]
fn set_if_changed_skips_when_value_unchanged() {
    let mut rt = Rt::new();
    let a = Signal::new(&mut rt, Val::I(7));
    let (_e, runs) = watch1(&mut rt, a);
    assert_eq!(runs.get(), 1, "initial effect run");
    a.set_if_changed(&mut rt, Val::I(7));
    assert_eq!(runs.get(), 1, "no re-run on no-op set");
    a.set_if_changed(&mut rt, Val::I(8));
    assert_eq!(runs.get(), 2, "re-run on real change");
}

#[test]
fn set_still_notifies_when_value_unchanged() {
    let mut rt = Rt::new();
    let a = Signal::new(&mut rt, Val::I(7));
    let (_e, runs) = watch1(&mut rt, a);
    assert_eq!(runs.get(), 1);
    a.set(&mut rt, Val::I(7));
    assert_eq!(runs.get(), 2);
}

#[test]
fn set_if_changed_net_zero_batch_skips_fanout() {
    let mut rt = Rt::new();
    let a = Signal::new(&mut rt, Val::I(1));
    let (_e, runs) = watch1(&mut rt, a);
    assert_eq!(runs.get(), 1);
    batch(&mut rt, |rt| {
        a.set_if_changed(rt, Val::I(2));
        a.set_if_changed(rt, Val::I(1));
    });
    assert_eq!(runs.get(), 1, "net-zero window must not fan out");
}

#[test]
fn set_if_changed_net_change_batch_fires_once() {
    let mut rt = Rt::new();
    let a = Signal::new(&mut rt, Val::I(1));
    let (_e, runs) = watch1(&mut rt, a);
    assert_eq!(runs.get(), 1);
    batch(&mut rt, |rt| {
        a.set_if_changed(rt, Val::I(2));
        a.set_if_changed(rt, Val::I(3));
    });
    assert_eq!(runs.get(), 2, "net change fans out exactly once");
}

#[test]
fn plain_set_taints_batch_window_forcing_notify() {
    let mut rt = Rt::new();
    let a = Signal::new(&mut rt, Val::I(1));
    let (_e, runs) = watch1(&mut rt, a);
    assert_eq!(runs.get(), 1);
    batch(&mut rt, |rt| {
        a.set_if_changed(rt, Val::I(1));
        a.set(rt, Val::I(1));
    });
    assert_eq!(runs.get(), 2, "force-write notifies despite net-zero");
}

#[test]
fn set_if_changed_nan_always_notifies() {
    let mut rt = Rt::new();
    let a = Signal::new(&mut rt, Val::F(0.0));
    let (_e, runs) = watch1(&mut rt, a);
    assert_eq!(runs.get(), 1);
    a.set_if_changed(&mut rt, Val::F(f64::NAN));
    assert_eq!(runs.get(), 2, "0.0 -> NaN is a change");
    a.set_if_changed(&mut rt, Val::F(f64::NAN));
    assert_eq!(runs.get(), 3, "NaN -> NaN still notifies (NaN != NaN)");
}

#[test]
fn update_if_changed_dedups() {
    let mut rt = Rt::new();
    let a = Signal::new(&mut rt, Val::I(5));
    let (_e, runs) = watch1(&mut rt, a);
    assert_eq!(runs.get(), 1);
    a.update_if_changed(&mut rt, |_| Val::I(5));
    assert_eq!(runs.get(), 1, "no-op update skips fan-out");
    a.update_if_changed(&mut rt, |v| Val::I(v.i() + 1));
    assert_eq!(runs.get(), 2);
}

#[test]
fn set_if_changed_stale_handle_is_noop() {
    let mut rt = Rt::new();
    let scope = Scope::new(&mut rt);
    let stale = with_scope(&mut rt, &scope, |rt| Signal::new(rt, Val::I(1)));
    scope.dispose(&mut rt);
    let fresh = Signal::new(&mut rt, Val::I(7));
    assert_eq!(fresh.id(), stale.id(), "fresh reuses the freed slot");
    stale.set_if_changed(&mut rt, Val::I(2));
    batch(&mut rt, |rt| stale.set_if_changed(rt, Val::I(3)));
    assert_eq!(fresh.get(&mut rt), Val::I(7), "stale write must not touch the recycled signal");
}

#[test]
fn cycle_coalesces_multiple_writes_to_one_fanout() {
    let mut rt = Rt::new();
    let a = Signal::new(&mut rt, Val::I(0));
    let b = Signal::new(&mut rt, Val::I(0));
    let c = Signal::new(&mut rt, Val::I(0));
    let (_e, runs) = watch3(&mut rt, a, b, c);
    assert_eq!(runs.get(), 1, "initial run");
    cycle(&mut rt, |rt| {
        a.set(rt, Val::I(1));
        b.set(rt, Val::I(1));
        c.set(rt, Val::I(1));
    });
    assert_eq!(runs.get(), 2, "three writes in one cycle => one re-run");
}

#[test]
fn unbatched_writes_fan_out_per_write() {
    let mut rt = Rt::new();
    let a = Signal::new(&mut rt, Val::I(0));
    let b = Signal::new(&mut rt, Val::I(0));
    let c = Signal::new(&mut rt, Val::I(0));
    let (_e, runs) = watch3(&mut rt, a, b, c);
    assert_eq!(runs.get(), 1);
    a.set(&mut rt, Val::I(1));
    b.set(&mut rt, Val::I(1));
    c.set(&mut rt, Val::I(1));
    assert_eq!(runs.get(), 4, "three separate fan-outs (1 initial + 3)");
}

#[test]
fn nested_cycle_joins_outer_window() {
    let mut rt = Rt::new();
    let a = Signal::new(&mut rt, Val::I(0));
    let b = Signal::new(&mut rt, Val::I(0));
    let c = Signal::new(&mut rt, Val::I(0));
    let (_e, runs) = watch3(&mut rt, a, b, c);
    assert_eq!(runs.get(), 1);
    cycle(&mut rt, |rt| {
        a.set(rt, Val::I(1));
        cycle(rt, |rt| {
            b.set(rt, Val::I(1));
            c.set(rt, Val::I(1));
        });
    });
    assert_eq!(runs.get(), 2, "nested cycles flush once at the outermost");
}

#[test]
fn memo_caches_and_skips_equal_notifications() {
    let mut rt = Rt::new();
    let source = Signal::new(&mut rt, Val::I(0));
    let scope = Scope::new(&mut rt);
    let runs = Rc::new(Cell::new(0));
    let r0 = runs.clone();
    let m = with_scope(&mut rt, &scope, |rt| {
        let m = memo(rt, compute(move |rt| Val::B(num(rt, source) > 10))).unwrap();
        let r = r0.clone();
        let _e = Effect::new(rt, body(move |rt| {
            let _ = m.get(rt);
            r.set(r.get() + 1);
        }));
        m
    });
    assert_eq!(runs.get(), 1);
    assert_eq!(m.get(&mut rt), Val::B(false));
    source.set(&mut rt, Val::I(5));
    assert_eq!(m.get(&mut rt), Val::B(false));
    assert_eq!(runs.get(), 1, "memo gates equal results — subscriber must not re-run");
    source.set(&mut rt, Val::I(7));
    assert_eq!(runs.get(), 1, "still false → still gated");
    source.set(&mut rt, Val::I(11));
    assert_eq!(m.get(&mut rt), Val::B(true));
    assert_eq!(runs.get(), 2, "subscriber fires when memo's value actually changes");
    source.set(&mut rt, Val::I(3));
    assert_eq!(m.get(&mut rt), Val::B(false));
    assert_eq!(runs.get(), 3);
}

#[test]
fn memo_recomputes_once_per_dep_change_regardless_of_subscriber_count() {
    let mut rt = Rt::new();
    let source = Signal::new(&mut rt, Val::I(1));
    let compute_count = Rc::new(Cell::new(0));
    let c = compute_count.clone();
    let m = memo(&mut rt, compute(move |rt| {
        c.set(c.get() + 1);
        Val::I(num(rt, source) * 2)
    }))
    .unwrap();
    let _e1 = Effect::new(&mut rt, body(move |rt| {
        let _ = m.get(rt);
    }));
    let _e2 = Effect::new(&mut rt, body(move |rt| {
        let _ = m.get(rt);
    }));
    let _e3 = Effect::new(&mut rt, body(move |rt| {
        let _ = m.get(rt);
    }));
    let after_setup = compute_count.get();
    source.set(&mut rt, Val::I(5));
    assert_eq!(compute_count.get(), after_setup + 1, "memo recomputes once per dep change even when three subscribers exist");
}

#[test]
fn on_passes_new_and_previous_values() {
    let mut rt = Rt::new();
    let count = Signal::new(&mut rt, Val::I(0));
    let log: Rc<RefCell<Vec<(i64, Option<i64>)>>> = Rc::new(RefCell::new(Vec::new()));
    let l = log.clone();
    let _e = on(&mut rt, count, on_body(move |_, new, prev| {
        l.borrow_mut().push((new[0].i(), prev.as_ref().map(|p| p[0].i())));
    }));
    count.set(&mut rt, Val::I(5));
    count.set(&mut rt, Val::I(7));
    let recorded = log.borrow().clone();
    assert_eq!(recorded, vec![(0, None), (5, Some(0)), (7, Some(5))], "on() must thread (current, previous) across runs");
}

#[test]
fn on_tuple_subscribes_to_every_member() {
    let mut rt = Rt::new();
    let first = Signal::new(&mut rt, Val::S("Jane".to_string()));
    let last = Signal::new(&mut rt, Val::S("Doe".to_string()));
    let fires = Rc::new(Cell::new(0));
    let f = fires.clone();
    let _e = on(&mut rt, (first, last), on_body(move |_, _new, _prev| {
        f.set(f.get() + 1);
    }));
    assert_eq!(fires.get(), 1, "initial fire");
    first.set(&mut rt, Val::S("Janet".to_string()));
    assert_eq!(fires.get(), 2);
    last.set(&mut rt, Val::S("Smith".to_string()));
    assert_eq!(fires.get(), 3);
}

#[test]
fn on_defer_skips_initial_run() {
    let mut rt = Rt::new();
    let count = Signal::new(&mut rt, Val::I(0));
    let fires = Rc::new(Cell::new(0));
    let f = fires.clone();
    let _e = on_defer(&mut rt, count, on_body(move |_, _new, _prev| {
        f.set(f.get() + 1);
    }));
    assert_eq!(fires.get(), 0, "on_defer must not fire on creation");
    count.set(&mut rt, Val::I(1));
    assert_eq!(fires.get(), 1, "first change after creation fires");
    count.set(&mut rt, Val::I(2));
    assert_eq!(fires.get(), 2);
}

#[test]
fn on_body_reads_do_not_subscribe() {
    let mut rt = Rt::new();
    let trigger = Signal::new(&mut rt, Val::I(0));
    let other = Signal::new(&mut rt, Val::I(0));
    let fires = Rc::new(Cell::new(0));
    let f = fires.clone();
    let _e = on(&mut rt, trigger, on_body(move |rt, _new, _prev| {
        let _shielded = other.get(rt);
        f.set(f.get() + 1);
    }));
    assert_eq!(fires.get(), 1, "initial");
    other.set(&mut rt, Val::I(99));
    assert_eq!(fires.get(), 1, "writes to a signal read inside the body but not in deps must not fire");
    trigger.set(&mut rt, Val::I(1));
    assert_eq!(fires.get(), 2, "writes to a dep do fire");
}

enum Counter {
    Inc,
    Dec,
    Put(i64),
}

#[test]
fn reducer_applies_user_function_to_state() {
    let mut rt = Rt::new();
    let (state, dispatch) = reducer(&mut rt, Val::I(0), |n: &Val, action: Counter| match action {
        Counter::Inc => Val::I(n.i() + 1),
        Counter::Dec => Val::I(n.i() - 1),
        Counter::Put(v) => Val::I(v),
    });
    assert_eq!(state.get(&mut rt), Val::I(0));
    dispatch.dispatch(&mut rt, Counter::Inc);
    assert_eq!(state.get(&mut rt), Val::I(1));
    dispatch.dispatch(&mut rt, Counter::Inc);
    dispatch.dispatch(&mut rt, Counter::Inc);
    assert_eq!(state.get(&mut rt), Val::I(3));
    dispatch.dispatch(&mut rt, Counter::Dec);
    assert_eq!(state.get(&mut rt), Val::I(2));
    dispatch.dispatch(&mut rt, Counter::Put(100));
    assert_eq!(state.get(&mut rt), Val::I(100));
}

#[test]
fn reducer_state_signal_notifies_subscribers() {
    let mut rt = Rt::new();
    let (state, dispatch) = reducer(&mut rt, Val::I(0), |n: &Val, delta: i64| Val::I(n.i() + delta));
    let observed = Rc::new(Cell::new(0i64));
    let o = observed.clone();
    let _e = Effect::new(&mut rt, body(move |rt| o.set(num(rt, state))));
    assert_eq!(observed.get(), 0);
    dispatch.dispatch(&mut rt, 5);
    assert_eq!(observed.get(), 5, "subscriber sees the new state after dispatch");
    dispatch.dispatch(&mut rt, 7);
    assert_eq!(observed.get(), 12);
}

#[test]
fn reducer_dispatch_does_not_subscribe_caller_effect() {
    let mut rt = Rt::new();
    let trigger = Signal::new(&mut rt, Val::I(0));
    let (state, dispatch) = reducer(&mut rt, Val::I(0), |n: &Val, _: ()| Val::I(n.i() + 1));
    let fires = Rc::new(Cell::new(0));
    let f = fires.clone();
    let _e = Effect::new(&mut rt, body(move |rt| {
        let _ = trigger.get(rt);
        f.set(f.get() + 1);
        dispatch.dispatch(rt, ());
    }));
    assert_eq!(fires.get(), 1, "initial run");
    assert_eq!(state.get(&mut rt), Val::I(1), "state advanced once on the initial run");
    trigger.set(&mut rt, Val::I(1));
    assert_eq!(fires.get(), 2, "re-fires on trigger");
    assert_eq!(state.get(&mut rt), Val::I(2), "state advanced again");
    assert_eq!(fires.get(), 2, "dispatch must not subscribe caller effect to state");
}

#[test]
fn reducer_state_is_a_plain_signal() {
    let mut rt = Rt::new();
    let (state, dispatch) = reducer(&mut rt, Val::I(0), |n: &Val, a: i64| Val::I(n.i() + a));
    let alias: Signal = state;
    dispatch.dispatch(&mut rt, 10);
    assert_eq!(alias.get(&mut rt), Val::I(10));
    alias.update(&mut rt, |_| Val::I(-5));
    assert_eq!(state.get(&mut rt), Val::I(-5));
    dispatch.dispatch(&mut rt, 3);
    assert_eq!(state.get(&mut rt), Val::I(-2));
}

#[test]
fn effect_macro_runs_and_rebinds_in_scope() {
    let mut rt = Rt::new();
    let count = Signal::new(&mut rt, Val::I(0));
    let runs = Rc::new(Cell::new(0));
    let r = runs.clone();
    let scope = Scope::new(&mut rt);
    with_scope(&mut rt, &scope, |rt| {
        Effect::scoped(rt, body(move |rt| {
            let _ = count.get(rt);
            r.set(r.get() + 1);
        }));
    });
    assert_eq!(runs.get(), 1);
    count.set(&mut rt, Val::I(7));
    assert_eq!(runs.get(), 2, "macro-built effect should re-fire on signal change");
    scope.dispose(&mut rt);
    count.set(&mut rt, Val::I(8));
    assert_eq!(runs.get(), 2, "effect should not fire after its scope drops");
}

#[test]
fn watch_runs_and_refires_until_dropped() {
    let mut rt = Rt::new();
    let count = Signal::new(&mut rt, Val::I(0));
    let runs = Rc::new(Cell::new(0));
    let r = runs.clone();
    let sub = watch(&mut rt, body(move |rt| {
        let _ = count.get(rt);
        r.set(r.get() + 1);
    }));
    assert_eq!(runs.get(), 1, "watch runs once immediately");
    count.set(&mut rt, Val::I(1));
    assert_eq!(runs.get(), 2, "watch re-fires on dependency change");
    sub.dispose(&mut rt);
    count.set(&mut rt, Val::I(2));
    assert_eq!(runs.get(), 2, "dropping the Subscription disposes the effect");
}

#[test]
fn watch_subscription_drop_runs_cleanup() {
    let mut rt = Rt::new();
    let dep = Signal::new(&mut rt, Val::I(0));
    let cleaned = Rc::new(Cell::new(0));
    let c = cleaned.clone();
    let sub = watch(&mut rt, body(move |rt| {
        let _ = dep.get(rt);
        let c2 = c.clone();
        on_cleanup(rt, once(move |_| c2.set(c2.get() + 1)));
    }));
    assert_eq!(cleaned.get(), 0);
    dep.set(&mut rt, Val::I(1));
    assert_eq!(cleaned.get(), 1, "cleanup fires before re-run");
    sub.dispose(&mut rt);
    assert_eq!(cleaned.get(), 2, "cleanup fires again on disposal");
}

#[test]
fn watch_leak_survives_handle_drop() {
    let mut rt = Rt::new();
    let count = Signal::new(&mut rt, Val::I(0));
    let runs = Rc::new(Cell::new(0));
    let r = runs.clone();
    watch(&mut rt, body(move |rt| {
        let _ = count.get(rt);
        r.set(r.get() + 1);
    }))
    .leak();
    assert_eq!(runs.get(), 1);
    count.set(&mut rt, Val::I(1));
    assert_eq!(runs.get(), 2, "leaked subscription keeps firing past handle drop");
}

#[test]
fn watch_is_caller_owned_not_scope_adopted() {
    let mut rt = Rt::new();
    let count = Signal::new(&mut rt, Val::I(0));
    let runs = Rc::new(Cell::new(0));
    let r = runs.clone();
    let scope = Scope::new(&mut rt);
    let sub = with_scope(&mut rt, &scope, |rt| {
        watch(rt, body(move |rt| {
            let _ = count.get(rt);
            r.set(r.get() + 1);
        }))
    });
    assert_eq!(runs.get(), 1);
    scope.dispose(&mut rt);
    count.set(&mut rt, Val::I(1));
    assert_eq!(runs.get(), 2, "watch survives its enclosing scope's drop");
    sub.dispose(&mut rt);
    count.set(&mut rt, Val::I(2));
    assert_eq!(runs.get(), 2, "dropping the Subscription disposes it");
}

#[test]
fn subscription_single_slot_replacement_disposes_prior() {
    let mut rt = Rt::new();
    let a = Signal::new(&mut rt, Val::I(0));
    let runs = Rc::new(Cell::new(0));
    let r1 = runs.clone();
    let mut slot = Some(watch(&mut rt, body(move |rt| {
        let _ = a.get(rt);
        r1.set(r1.get() + 1);
    })));
    assert_eq!(runs.get(), 1);
    let r2 = runs.clone();
    let replacement = watch(&mut rt, body(move |rt| {
        let _ = a.get(rt);
        r2.set(r2.get() + 1);
    }));
    if let Some(prior) = slot.replace(replacement) {
        prior.dispose(&mut rt);
    }
    assert_eq!(runs.get(), 2, "replacement watch runs once at creation");
    a.set(&mut rt, Val::I(1));
    assert_eq!(runs.get(), 3, "only the surviving subscription re-fires; the replaced one was disposed");
    if let Some(s) = slot {
        s.dispose(&mut rt);
    }
}

#[test]
fn on_cleanup_fires_before_effect_rerun() {
    let mut rt = Rt::new();
    let trigger = Signal::new(&mut rt, Val::I(0));
    let cleanup_count = Rc::new(Cell::new(0));
    let run_count = Rc::new(Cell::new(0));
    let c = cleanup_count.clone();
    let r = run_count.clone();
    let _e = Effect::new(&mut rt, body(move |rt| {
        let _ = trigger.get(rt);
        r.set(r.get() + 1);
        let c2 = c.clone();
        on_cleanup(rt, once(move |_| c2.set(c2.get() + 1)));
    }));
    assert_eq!(run_count.get(), 1);
    assert_eq!(cleanup_count.get(), 0);
    trigger.set(&mut rt, Val::I(1));
    assert_eq!(run_count.get(), 2);
    assert_eq!(cleanup_count.get(), 1);
    trigger.set(&mut rt, Val::I(2));
    assert_eq!(run_count.get(), 3);
    assert_eq!(cleanup_count.get(), 2);
}

#[test]
fn on_cleanup_fires_on_effect_drop() {
    let mut rt = Rt::new();
    let cleanup_count = Rc::new(Cell::new(0));
    let c = cleanup_count.clone();
    let e = Effect::new(&mut rt, body(move |rt| {
        let c2 = c.clone();
        on_cleanup(rt, once(move |_| c2.set(c2.get() + 1)));
    }));
    assert_eq!(cleanup_count.get(), 0);
    e.dispose(&mut rt);
    assert_eq!(cleanup_count.get(), 1);
}

#[test]
fn on_cleanup_attaches_to_scope_outside_effect() {
    let mut rt = Rt::new();
    let cleanup_count = Rc::new(Cell::new(0));
    let c = cleanup_count.clone();
    let scope = Scope::new(&mut rt);
    with_scope(&mut rt, &scope, |rt| {
        on_cleanup(rt, once(move |_| c.set(c.get() + 1)));
    });
    assert_eq!(cleanup_count.get(), 0);
    scope.dispose(&mut rt);
    assert_eq!(cleanup_count.get(), 1);
}

#[test]
fn on_cleanup_outside_any_context_is_noop() {
    let mut rt = Rt::new();
    let dropped = Rc::new(Cell::new(false));
    let d = dropped.clone();
    on_cleanup(&mut rt, once(move |_| {}));
    struct Witness(Rc<Cell<bool>>);
    impl Drop for Witness {
        fn drop(&mut self) {
            self.0.set(true);
        }
    }
    let w = Witness(d);
    on_cleanup(&mut rt, once(move |_| {
        let _hold = w;
    }));
    assert!(dropped.get());
}

#[test]
fn untrack_blocks_subscription() {
    let mut rt = Rt::new();
    let s = Signal::new(&mut rt, Val::I(0));
    let runs = Rc::new(Cell::new(0));
    let r = runs.clone();
    let _e = Effect::new(&mut rt, body(move |rt| {
        untrack(rt, |rt| {
            let _ = s.get(rt);
        });
        r.set(r.get() + 1);
    }));
    assert_eq!(runs.get(), 1);
    s.set(&mut rt, Val::I(99));
    assert_eq!(runs.get(), 1);
}

#[test]
fn scope_frees_signals_and_effects_on_drop() {
    let mut rt = Rt::new();
    let (s0, e0) = arena_inuse_counts(&rt);
    let scope = Scope::new(&mut rt);
    with_scope(&mut rt, &scope, |rt| {
        let _a = Signal::new(rt, Val::I(1));
        let _b = Signal::new(rt, Val::I(2));
        let _e = Effect::new(rt, body(|_| {}));
        let (s1, e1) = arena_inuse_counts(rt);
        assert_eq!(s1, s0 + 2, "two new signal slots in use inside scope");
        assert_eq!(e1, e0 + 1, "one new effect slot in use inside scope");
    });
    let (s_active, e_active) = arena_inuse_counts(&rt);
    assert_eq!(s_active, s0 + 2);
    assert_eq!(e_active, e0 + 1);
    scope.dispose(&mut rt);
    let (s_after, e_after) = arena_inuse_counts(&rt);
    assert_eq!(s_after, s0, "all signal slots returned to baseline");
    assert_eq!(e_after, e0, "all effect slots returned to baseline");
}

#[test]
fn stale_signal_write_after_scope_drop_is_noop_not_panic() {
    let mut rt = Rt::new();
    let scope = Scope::new(&mut rt);
    let stale = with_scope(&mut rt, &scope, |rt| Signal::new(rt, Val::B(false)));
    scope.dispose(&mut rt);
    let fresh = Signal::new(&mut rt, Val::I(7));
    assert_eq!(fresh.id(), stale.id(), "fresh signal should reuse the freed slot (LIFO freelist)");
    stale.set(&mut rt, Val::B(true));
    assert_eq!(fresh.get(&mut rt), Val::I(7), "stale write must not clobber the recycled signal");
    stale.update(&mut rt, |_| Val::B(true));
    assert_eq!(fresh.get(&mut rt), Val::I(7));
    fresh.set(&mut rt, Val::I(9));
    assert_eq!(fresh.get(&mut rt), Val::I(9));
}

#[test]
fn stale_signal_write_does_not_fire_recycled_subscribers() {
    let mut rt = Rt::new();
    let scope = Scope::new(&mut rt);
    let stale = with_scope(&mut rt, &scope, |rt| Signal::new(rt, Val::B(false)));
    scope.dispose(&mut rt);
    let fresh = Signal::new(&mut rt, Val::I(0));
    assert_eq!(fresh.id(), stale.id());
    let runs = Rc::new(Cell::new(0));
    let r = runs.clone();
    let _e = Effect::new(&mut rt, body(move |rt| {
        let _ = fresh.get(rt);
        r.set(r.get() + 1);
    }));
    assert_eq!(runs.get(), 1, "effect runs once on creation");
    stale.set(&mut rt, Val::B(true));
    assert_eq!(runs.get(), 1, "stale write fired the recycled signal's subscribers");
    fresh.set(&mut rt, Val::I(1));
    assert_eq!(runs.get(), 2);
}

#[test]
fn freelist_recycles_slot_ids_across_scopes() {
    let mut rt = Rt::new();
    const N: usize = 64;
    let stats_before = arena_stats(&rt);
    for _ in 0..5 {
        let scope = Scope::new(&mut rt);
        with_scope(&mut rt, &scope, |rt| {
            for _ in 0..N {
                let _ = Signal::new(rt, Val::I(0));
                let _ = Effect::new(rt, body(|_| {}));
            }
        });
        scope.dispose(&mut rt);
    }
    let stats_after = arena_stats(&rt);
    let growth = stats_after.effects_total - stats_before.effects_total;
    assert!(growth <= N + 2, "effects_total grew by {} (expected ≤ {} with freelist recycling)", growth, N + 2);
    let sig_growth = stats_after.signals_total - stats_before.signals_total;
    assert!(sig_growth <= N + 2, "signals_total grew by {} (expected ≤ {} with freelist recycling)", sig_growth, N + 2);
}

#[test]
fn nested_scopes_drop_independently() {
    let mut rt = Rt::new();
    let (s0, e0) = arena_inuse_counts(&rt);
    let outer = Scope::new(&mut rt);
    with_scope(&mut rt, &outer, |rt| {
        let _outer_sig = Signal::new(rt, Val::S("outer".to_string()));
        let inner = Scope::new(rt);
        with_scope(rt, &inner, |rt| {
            let _inner_sig = Signal::new(rt, Val::S("inner".to_string()));
            let _inner_eff = Effect::new(rt, body(|_| {}));
            let (s, e) = arena_inuse_counts(rt);
            assert_eq!(s, s0 + 2);
            assert_eq!(e, e0 + 1);
        });
        inner.dispose(rt);
        let (s, e) = arena_inuse_counts(rt);
        assert_eq!(s, s0 + 1, "inner scope's signal freed");
        assert_eq!(e, e0, "inner scope's effect freed");
    });
    outer.dispose(&mut rt);
    let (s, e) = arena_inuse_counts(&rt);
    assert_eq!(s, s0);
    assert_eq!(e, e0);
}

/// Marks `dropped` when it is dropped.
struct Sentinel(Rc<RefCell<bool>>);

impl Drop for Sentinel {
    fn drop(&mut self) {
        *self.0.borrow_mut() = true;
    }
}

#[test]
fn install_drop_deferral_routes_effects_and_guards_not_signals() {
    // 1) No policy installed: everything drops synchronously.
    let mut rt = Rt::new();
    let guard_dropped = Rc::new(RefCell::new(false));
    let scope = Scope::new(&mut rt);
    let g = guard_dropped.clone();
    with_scope(&mut rt, &scope, |rt| {
        let _e = Effect::new(rt, body(|_| {}));
        assert!(scope.adopt_guard(rt, Fx::Guard(Box::new(Sentinel(g)))));
    });
    scope.dispose(&mut rt);
    assert!(*guard_dropped.borrow(), "without an installed policy, scope guards must drop synchronously");

    // 2) With the policy installed: effects and guards are parked, signals are not.
    install_drop_deferral(&mut rt);
    let signal_cleanup_observed = Rc::new(RefCell::new(false));
    let guard2_dropped = Rc::new(RefCell::new(false));
    let scope = Scope::new(&mut rt);
    let g2 = guard2_dropped.clone();
    let sv = signal_cleanup_observed.clone();
    with_scope(&mut rt, &scope, |rt| {
        let s = Signal::new(rt, Val::B(false));
        runtime_core::reactive::runtime::register_signal_js_notifier(rt, s.id(), Fx::Guard(Box::new(Sentinel(sv))));
        let _e = Effect::new(rt, body(|_| {}));
        assert!(scope.adopt_guard(rt, Fx::Guard(Box::new(Sentinel(g2)))));
    });
    scope.dispose(&mut rt);
    assert!(!*guard2_dropped.borrow(), "with an installed policy, the scope guard must be parked in the policy queue rather than dropping synchronously");
    let queued = take_deferred(&mut rt);
    assert!(queued.len() >= 2, "policy should have received at least the effect box + the guard box (got {})", queued.len());
    assert!(*signal_cleanup_observed.borrow(), "signals are not routed through the deferral policy");
    drop(queued);
    assert!(*guard2_dropped.borrow(), "draining the policy queue must finally drop the guard");
}

#[test]
fn layout_subscription_via_on_cleanup_unsubscribes_on_scope_drop() {
    let mut rt = Rt::new();
    let disconnected = Rc::new(Cell::new(false));
    let scope = Scope::new(&mut rt);
    let flag = disconnected.clone();
    with_scope(&mut rt, &scope, |rt| {
        on_cleanup(rt, once(move |_| flag.set(true)));
    });
    assert!(!disconnected.get(), "subscription must stay live until the scope drops");
    scope.dispose(&mut rt);
    assert!(disconnected.get(), "scope drop must run the subscription's cleanup");
}

#[test]
fn memo_in_scope_releases_signal_and_effect_on_scope_drop() {
    let mut rt = Rt::new();
    let source = Signal::new(&mut rt, Val::I(0));
    let (s0, e0) = arena_inuse_counts(&rt);
    let scope = Scope::new(&mut rt);
    with_scope(&mut rt, &scope, |rt| {
        for _ in 0..16 {
            let _m = memo(rt, compute(move |rt| Val::I(num(rt, source) * 2)));
        }
    });
    let (s_active, e_active) = arena_inuse_counts(&rt);
    assert_eq!(s_active - s0, 16, "expected 16 memo output signals in arena (was +{})", s_active - s0);
    assert_eq!(e_active - e0, 16, "expected 16 memo driver effects in arena (was +{})", e_active - e0);
    scope.dispose(&mut rt);
    let (s_after, e_after) = arena_inuse_counts(&rt);
    assert_eq!(s_after, s0, "memo output signals must be freed on scope drop");
    assert_eq!(e_after, e0, "memo driver effects must be freed on scope drop");
}

#[test]
fn hot_signal_subscribers_pruned_on_scope_drop() {
    let mut rt = Rt::new();
    let hot = Signal::new(&mut rt, Val::I(0));
    let base_subs = arena_stats(&rt).total_subscribers;
    assert_eq!(base_subs, 0, "fresh signal has no subscribers");
    const ROUNDS: usize = 32;
    const EFFECTS_PER_SCOPE: usize = 16;
    for _ in 0..ROUNDS {
        let scope = Scope::new(&mut rt);
        with_scope(&mut rt, &scope, |rt| {
            for _ in 0..EFFECTS_PER_SCOPE {
                let _e = Effect::new(rt, body(move |rt| {
                    let _ = hot.get(rt);
                }));
            }
        });
        scope.dispose(&mut rt);
    }
    let subs_after = arena_stats(&rt).total_subscribers;
    assert_eq!(subs_after, 0, "hot signal must have zero subscribers after all reading scopes drop");
    let observed = Rc::new(Cell::new(-1));
    let o = observed.clone();
    let _e = Effect::new(&mut rt, body(move |rt| o.set(num(rt, hot))));
    hot.set(&mut rt, Val::I(42));
    assert_eq!(observed.get(), 42);
}

fn arena_refs_inuse(rt: &Rt) -> usize {
    arena_stats(rt).refs_in_use
}

#[test]
fn ref_fills_and_clears() {
    let mut rt = Rt::new();
    let scope = Scope::new(&mut rt);
    let r = with_scope(&mut rt, &scope, |rt| Ref::new(rt));
    let counter = Rc::new(Cell::new(0));
    let bump = |h: &Val| {
        if let Val::H(h) = h {
            h.bump()
        }
    };
    assert!(!r.is_mounted(&rt));
    assert!(r.with(&rt, bump).is_none());
    assert_eq!(counter.get(), 0);
    r.fill(&mut rt, Val::H(DummyHandle { counter: counter.clone() }));
    assert!(r.is_mounted(&rt));
    r.with(&rt, bump);
    assert_eq!(counter.get(), 1);
    r.clear(&mut rt);
    assert!(!r.is_mounted(&rt));
    assert!(r.with(&rt, bump).is_none());
    assert_eq!(counter.get(), 1);
}

#[test]
fn scope_drop_frees_ref_slot() {
    let mut rt = Rt::new();
    let baseline = arena_refs_inuse(&rt);
    let scope = Scope::new(&mut rt);
    let r = with_scope(&mut rt, &scope, |rt| Ref::new(rt));
    r.fill(&mut rt, Val::H(DummyHandle { counter: Rc::new(Cell::new(0)) }));
    assert_eq!(arena_refs_inuse(&rt), baseline + 1, "ref slot in use inside scope");
    scope.dispose(&mut rt);
    assert_eq!(arena_refs_inuse(&rt), baseline, "ref slot freed at scope drop");
}

#[test]
fn ref_get_returns_owned_clone() {
    let mut rt = Rt::new();
    let scope = Scope::new(&mut rt);
    let r = with_scope(&mut rt, &scope, |rt| Ref::new(rt));
    let counter = Rc::new(Cell::new(0));
    assert!(r.get(&rt).is_none());
    r.fill(&mut rt, Val::H(DummyHandle { counter: counter.clone() }));
    if let Some(Val::H(h)) = r.get(&rt) {
        h.bump();
    }
    assert_eq!(counter.get(), 1);
    let Some(Val::H(owned)) = r.get(&rt) else { panic!("filled above") };
    owned.bump();
    owned.bump();
    assert_eq!(counter.get(), 3);
    r.clear(&mut rt);
    assert!(r.get(&rt).is_none(), "post-unmount get() returns None");
}

#[test]
fn runaway_effect_chain_sets_the_depth_flag() {
    let mut rt = Rt::new();
    let sigs: Vec<Signal> = (0..300).map(|_| Signal::new(&mut rt, Val::I(0))).collect();
    let mut effects = Vec::new();
    for i in 0..299 {
        let (from, to) = (sigs[i], sigs[i + 1]);
        effects.push(Effect::new(&mut rt, body(move |rt| {
            let n = num(rt, from);
            to.set(rt, Val::I(n));
        })));
    }
    assert!(!runtime_core::reactive::runtime::effect_depth_exceeded(&rt));
    sigs[0].set(&mut rt, Val::I(1));
    assert!(runtime_core::reactive::runtime::effect_depth_exceeded(&rt), "a chain longer than the run-depth limit must be cut");
}

#[test]
fn second_notifier_replaces_the_first() {
    let mut rt = Rt::new();
    let s = Signal::new(&mut rt, Val::I(0));
    let first = Rc::new(Cell::new(0u32));
    let second = Rc::new(Cell::new(0u32));
    let f1 = first.clone();
    let f2 = second.clone();
    runtime_core::reactive::runtime::register_signal_js_notifier(&mut rt, s.id(), body(move |_| f1.set(f1.get() + 1)));
    runtime_core::reactive::runtime::register_signal_js_notifier(&mut rt, s.id(), body(move |_| f2.set(f2.get() + 1)));
    assert!(runtime_core::reactive::runtime::signal_has_js_notifier(&rt, s.id()));
    s.set(&mut rt, Val::I(1));
    assert_eq!((first.get(), second.get()), (0, 1));
}

#[test]
fn idle_hook_fires_after_a_lone_write_with_the_value_stored() {
    let mut rt = Rt::new();
    let s = Signal::new(&mut rt, Val::I(0));
    let seen = Rc::new(RefCell::new(Vec::new()));
    let sv = seen.clone();
    install_reactive_idle_hook(&mut rt, body(move |rt| sv.borrow_mut().push(s.get_untracked(rt).i())));
    s.set(&mut rt, Val::I(5));
    assert!(!seen.borrow().is_empty(), "closing the write's window must fire the hook");
    assert!(seen.borrow().iter().all(|v| *v == 5), "the hook runs after the value is stored");
}

#[test]
fn first_run_of_an_effect_sees_current_values() {
    let mut rt = Rt::new();
    let s = Signal::new(&mut rt, Val::I(3));
    let seen = Rc::new(RefCell::new(Vec::new()));
    let sv = seen.clone();
    let _e = Effect::new(&mut rt, body(move |rt| {
        let n = num(rt, s);
        sv.borrow_mut().push(n);
    }));
    assert_eq!(*seen.borrow(), vec![3]);
    s.set(&mut rt, Val::I(4));
    assert_eq!(*seen.borrow(), vec![3, 4]);
}

#[test]
fn notifier_fires_after_the_woken_effects() {
    let mut rt = Rt::new();
    let s = Signal::new(&mut rt, Val::I(0));
    let runs = Rc::new(Cell::new(0));
    let r = runs.clone();
    let _e = Effect::new(&mut rt, body(move |rt| {
        let _ = num(rt, s);
        r.set(r.get() + 1);
    }));
    let seen = Rc::new(Cell::new(-1));
    let (sn, rn) = (seen.clone(), runs.clone());
    runtime_core::reactive::runtime::register_signal_js_notifier(&mut rt, s.id(), body(move |_| sn.set(rn.get())));
    s.set(&mut rt, Val::I(1));
    assert_eq!(runs.get(), 2);
    assert_eq!(seen.get(), 2, "the notifier runs once the subscriber has re-run");
}

#[test]
fn batch_notifier_fires_once_after_the_flush_effects() {
    let mut rt = Rt::new();
    let s = Signal::new(&mut rt, Val::I(0));
    let runs = Rc::new(Cell::new(0));
    let r = runs.clone();
    let _e = Effect::new(&mut rt, body(move |rt| {
        let _ = num(rt, s);
        r.set(r.get() + 1);
    }));
    let seen = Rc::new(RefCell::new(Vec::new()));
    let (sn, rn) = (seen.clone(), runs.clone());
    runtime_core::reactive::runtime::register_signal_js_notifier(&mut rt, s.id(), body(move |_| sn.borrow_mut().push(rn.get())));
    batch(&mut rt, |rt| {
        s.set(rt, Val::I(1));
        s.set(rt, Val::I(2));
    });
    assert_eq!(runs.get(), 2);
    assert_eq!(*seen.borrow(), vec![2], "one notification, after the subscriber re-ran");
}

#[test]
fn deferred_scope_teardown_parks_the_guards_last() {
    let mut rt = Rt::new();
    install_drop_deferral(&mut rt);
    let scope = Scope::new(&mut rt);
    with_scope(&mut rt, &scope, |rt| {
        let _e = Effect::new(rt, body(|_| {}));
        assert!(scope.adopt_guard(rt, Fx::Guard(Box::new(1u8))));
    });
    scope.dispose(&mut rt);
    let queued = take_deferred(&mut rt);
    assert_eq!(queued.len(), 2, "the effect body and the guard");
    assert!(matches!(queued[0], Fx::Body(_)));
    assert!(matches!(queued[1], Fx::Guard(_)));
}

#[test]
fn scoped_firing_reenters_the_registering_context() {
    let mut rt = Rt::new();
    assert!(!cleanup_has_owner(&rt), "outside any scope a cleanup has no owner");
    let scope = Scope::new(&mut rt);
    let ctx = with_scope(&mut rt, &scope, |rt| {
        provide(rt, THEME, Val::I(7));
        assert!(cleanup_has_owner(rt));
        capture_reactive_ctx(rt)
    });
    let seen = Rc::new(Cell::new(0i64));
    let s2 = seen.clone();
    let ran = fire_scoped(&mut rt, &ctx, false, move |rt| {
        s2.set(with_inject(rt, THEME, |v: &Val| v.i()).unwrap_or(-1));
    });
    assert!(ran);
    assert_eq!(seen.get(), 7, "the shot sees the scope it was registered in");
    assert_eq!(with_inject(&rt, THEME, |v: &Val| v.i()), None, "the context is left afterwards");

    let s3 = seen.clone();
    let ran = fire_scoped(&mut rt, &ctx, true, move |_| s3.set(99));
    assert!(!ran, "a cancelled shot does nothing");
    assert_eq!(seen.get(), 7);
}

#[test]
fn scoped_firing_coalesces_writes_into_one_cycle() {
    let mut rt = Rt::new();
    let s = Signal::new(&mut rt, Val::I(0));
    let runs = Rc::new(Cell::new(0));
    let r = runs.clone();
    let _e = Effect::new(&mut rt, body(move |rt| {
        let _ = num(rt, s);
        r.set(r.get() + 1);
    }));
    let ctx = capture_reactive_ctx(&rt);
    let ran = fire_scoped(&mut rt, &ctx, false, move |rt| {
        s.set(rt, Val::I(1));
        s.set(rt, Val::I(2));
    });
    assert!(ran);
    assert_eq!(runs.get(), 2, "one re-run for both writes");
    assert_eq!(s.get(&mut rt), Val::I(2));
}
