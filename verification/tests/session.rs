use runtime_core::reactive::runtime::{Reaction, Runtime};
use runtime_core::reactive::state::Signal;
use runtime_core::session::{
    clear, clear_prefix, epoch_micros, get_or_init, push_scope, reset_epoch, signal, Session, EPOCH_TAG,
};

/// The values these sessions hold.
#[derive(Clone, Debug, PartialEq)]
enum SV {
    U(u64),
    S(String),
}

const U64: u64 = 1;
const STRING: u64 = 2;

fn u(s: &mut Session<SV>, key: &str, v: u64) -> u64 {
    match get_or_init(s, key, U64, |_| SV::U(v)) {
        SV::U(n) => n,
        other => panic!("not a u64: {other:?}"),
    }
}

#[test]
fn get_or_init_returns_same_value_on_repeat() {
    let mut s = Session::new();
    let a = u(&mut s, "test_repeat", 42);
    let b = u(&mut s, "test_repeat", 99);
    assert_eq!(a, 42);
    assert_eq!(b, 42, "init should run only once per key");
}

#[test]
fn get_or_init_independent_keys() {
    let mut s = Session::new();
    let a = u(&mut s, "test_key_a", 1);
    let b = u(&mut s, "test_key_b", 2);
    assert_eq!(a, 1);
    assert_eq!(b, 2);
}

#[test]
fn get_or_init_type_mismatch_reinitialises() {
    let mut s = Session::new();
    let _ = u(&mut s, "test_typeswap", 7);
    let v = get_or_init(&mut s, "test_typeswap", STRING, |_| SV::S("hello".to_string()));
    assert_eq!(v, SV::S("hello".to_string()));
}

#[test]
fn get_or_init_reentrancy_safe() {
    let mut s = Session::new();
    let outer = get_or_init(&mut s, "test_reentry_outer", U64, |s| {
        let inner = u(s, "test_reentry_inner", 100);
        SV::U(inner * 2)
    });
    assert_eq!(outer, SV::U(200));
    assert_eq!(u(&mut s, "test_reentry_inner", 0), 100);
}

#[test]
fn epoch_micros_is_stable_within_thread() {
    let mut s = Session::new();
    let first = epoch_micros(&mut s, |_| SV::U(1_000));
    let second = epoch_micros(&mut s, |_| SV::U(2_000));
    assert_eq!(first, second);
}

#[test]
fn push_scope_masks_root_scope_entries() {
    let mut s = Session::new();
    let _root = u(&mut s, "scope_test_masking", 11);
    let guard = push_scope(&mut s);
    let inside = u(&mut s, "scope_test_masking", 22);
    assert_eq!(inside, 22);
    let inside_again = u(&mut s, "scope_test_masking", 33);
    assert_eq!(inside_again, 22);
    guard.pop(&mut s);
    let after = u(&mut s, "scope_test_masking", 44);
    assert_eq!(after, 11);
}

#[test]
fn scope_guard_drop_pops_back_to_root() {
    let mut s = Session::new();
    let baseline = u(&mut s, "scope_test_pop", 1);
    assert_eq!(baseline, 1);
    {
        let guard = push_scope(&mut s);
        let _ = u(&mut s, "scope_test_pop", 999);
        guard.pop(&mut s);
    }
    let after = u(&mut s, "scope_test_pop", 2);
    assert_eq!(after, 1);
}

#[test]
fn nested_scopes_isolate_per_level() {
    let mut s = Session::new();
    let outer_guard = push_scope(&mut s);
    let _ = u(&mut s, "scope_test_nest", 100);
    {
        let inner_guard = push_scope(&mut s);
        let inner = u(&mut s, "scope_test_nest", 200);
        assert_eq!(inner, 200);
        inner_guard.pop(&mut s);
    }
    let outer = u(&mut s, "scope_test_nest", 300);
    assert_eq!(outer, 100);
    outer_guard.pop(&mut s);
}

#[test]
fn clear_only_affects_top_scope() {
    let mut s = Session::new();
    let root_keep = u(&mut s, "scope_test_clear_root", 7);
    assert_eq!(root_keep, 7);
    {
        let guard = push_scope(&mut s);
        let _ = u(&mut s, "scope_test_clear_inner", 77);
        clear(&mut s);
        let inner_after = u(&mut s, "scope_test_clear_inner", 88);
        assert_eq!(inner_after, 88, "inner key should be wiped");
        guard.pop(&mut s);
    }
    assert_eq!(u(&mut s, "scope_test_clear_root", 0), 7, "root scope must survive an inner clear()");
}

#[test]
fn clear_prefix_only_affects_top_scope() {
    let mut s = Session::new();
    let _ = u(&mut s, "scope_test_prefix_root_a", 1);
    let _ = u(&mut s, "scope_test_prefix_root_b", 2);
    {
        let guard = push_scope(&mut s);
        let _ = u(&mut s, "scope_test_prefix_root_a", 10);
        clear_prefix(&mut s, "scope_test_prefix_root_");
        assert_eq!(u(&mut s, "scope_test_prefix_root_a", 11), 11);
        guard.pop(&mut s);
    }
    assert_eq!(u(&mut s, "scope_test_prefix_root_a", 0), 1);
    assert_eq!(u(&mut s, "scope_test_prefix_root_b", 0), 2);
}

#[test]
fn root_scope_is_never_popped() {
    let mut s = Session::new();
    for _ in 0..5 {
        let g = push_scope(&mut s);
        g.pop(&mut s);
    }
    let v = u(&mut s, "scope_test_root_indestructible", 42);
    assert_eq!(v, 42);
    assert_eq!(s.depth(), 1);
}

#[test]
fn reset_epoch_only_affects_top_scope() {
    let mut s = Session::new();
    let root_epoch = epoch_micros(&mut s, |_| SV::U(10));
    {
        let guard = push_scope(&mut s);
        let inner_epoch = epoch_micros(&mut s, |_| SV::U(20));
        reset_epoch(&mut s);
        let inner_after = epoch_micros(&mut s, |_| SV::U(30));
        assert!(inner_after != inner_epoch, "after reset_epoch, the next epoch_micros re-reads the clock");
        guard.pop(&mut s);
    }
    assert_eq!(epoch_micros(&mut s, |_| SV::U(40)), root_epoch);
    let _ = EPOCH_TAG;
}

/// Callbacks that do nothing.
struct Quiet;

impl Reaction<i64> for Quiet {
    fn run(&mut self, _rt: &mut Runtime<i64, Quiet>) {}
    fn compute(&mut self, _rt: &mut Runtime<i64, Quiet>) -> i64 {
        0
    }
    fn same(&mut self, a: &i64, b: &i64) -> bool {
        a == b
    }
    fn changed(&mut self, _rt: &mut Runtime<i64, Quiet>, _now: &Vec<i64>, _prev: &Option<Vec<i64>>) {}
    fn fire(&mut self, _rt: &mut Runtime<i64, Quiet>) {}
}

#[test]
fn session_signal_survives_a_rerender() {
    let mut session: Session<Signal> = Session::new();
    let mut rt: Runtime<i64, Quiet> = Runtime::new();
    let first = signal(&mut session, &mut rt, "count", 1, 5);
    assert_eq!(first.get_untracked(&rt), 5);
    first.set(&mut rt, 9);
    let again = signal(&mut session, &mut rt, "count", 1, 5);
    assert_eq!(again, first, "the stored signal comes back");
    assert_eq!(again.get_untracked(&rt), 9, "its value was kept, not reset to the initial one");
    let other = signal(&mut session, &mut rt, "count", 2, 7);
    assert_ne!(other, first, "another type tag under the key makes a fresh signal");
    assert_eq!(other.get_untracked(&rt), 7);
}
