use runtime_core::resource::{CancelHook, CancelTable, NetworkState, Resource, ResourceCancel, ResourceState};
use std::cell::Cell;
use std::rc::Rc;

/// Counts how many times it fired.
struct Count(Rc<Cell<u32>>);

impl CancelHook for Count {
    fn fire(self) {
        self.0.set(self.0.get() + 1);
    }
}

/// Start a fetch for `key` and land what `fetch` brings at once, as a host
/// without an executor does.
fn run<T, E>(
    r: &mut Resource<T, E>,
    table: &mut CancelTable<Count>,
    key: i32,
    fetch: impl Fn(i32, ResourceCancel, &mut CancelTable<Count>) -> Result<T, E>,
) -> bool {
    let (seq, token) = r.begin_fetch(table);
    let result = fetch(key, token, table);
    r.complete(table, seq, token, result)
}

#[test]
fn resource_initial_state_resolves_synchronously_via_pollster_fallback() {
    let mut table = CancelTable::new();
    let mut r: Resource<i32, &'static str> = Resource::new();
    run(&mut r, &mut table, 1, |k, _c, _t| Ok(k * 10));
    assert_eq!(r.data(), Some(10));
    assert_eq!(r.error(), None);
    assert!(!r.loading());
}

#[test]
fn resource_dep_change_triggers_refetch() {
    let mut table = CancelTable::new();
    let mut r: Resource<i32, &'static str> = Resource::new();
    run(&mut r, &mut table, 1, |k, _c, _t| Ok(k * 10));
    assert_eq!(r.data(), Some(10));
    run(&mut r, &mut table, 7, |k, _c, _t| Ok(k * 10));
    assert_eq!(r.data(), Some(70));
    assert!(!r.loading());
}

#[test]
fn resource_error_path_populates_error_and_keeps_data() {
    let mut table = CancelTable::new();
    let mut r: Resource<i32, &'static str> = Resource::new();
    run(&mut r, &mut table, 1, |k, _c, _t| Ok(k * 10));
    assert_eq!(r.data(), Some(10));
    run(&mut r, &mut table, 2, |_k, _c, _t| Err("boom"));
    assert_eq!(r.data(), Some(10), "data should be retained across a failed refetch");
    assert_eq!(r.error(), Some("boom"));
    assert!(!r.loading());
}

#[test]
fn resource_refetch_re_runs_fetcher_without_dep_change() {
    let mut table = CancelTable::new();
    let mut r: Resource<u32, &'static str> = Resource::new();
    let calls = Rc::new(Cell::new(0u32));
    let fetch = |_k: i32, _c: ResourceCancel, _t: &mut CancelTable<Count>| {
        let n = calls.get() + 1;
        calls.set(n);
        Ok(n)
    };
    run(&mut r, &mut table, 0, fetch);
    assert_eq!(r.data(), Some(1));
    r.refetch();
    assert_eq!(r.refetch_count(), 1);
    run(&mut r, &mut table, 0, fetch);
    assert_eq!(r.data(), Some(2));
    r.refetch();
    run(&mut r, &mut table, 0, fetch);
    assert_eq!(r.data(), Some(3));
}

#[test]
fn resource_cancellation_token_fires_on_dep_change() {
    let mut table = CancelTable::new();
    let mut r: Resource<i32, &'static str> = Resource::new();
    let last: Rc<Cell<Option<ResourceCancel>>> = Rc::new(Cell::new(None));
    let fetch = |k: i32, c: ResourceCancel, _t: &mut CancelTable<Count>| {
        last.set(Some(c));
        Ok(k)
    };
    run(&mut r, &mut table, 0, fetch);
    let first = last.get().unwrap();
    assert!(!first.is_cancelled(&table), "fresh token is alive");
    run(&mut r, &mut table, 1, fetch);
    assert!(first.is_cancelled(&table), "previous fetch's token should be cancelled on dep change");
}

#[test]
fn resource_on_cancel_callback_fires_with_cancellation() {
    let mut table = CancelTable::new();
    let mut r: Resource<i32, &'static str> = Resource::new();
    let cancel_count = Rc::new(Cell::new(0u32));
    let fetch = |k: i32, c: ResourceCancel, t: &mut CancelTable<Count>| {
        c.on_cancel(t, Count(cancel_count.clone()));
        Ok(k)
    };
    run(&mut r, &mut table, 0, fetch);
    assert_eq!(cancel_count.get(), 0);
    run(&mut r, &mut table, 1, fetch);
    assert_eq!(cancel_count.get(), 1, "previous fetch's on_cancel callback should fire once");
    run(&mut r, &mut table, 2, fetch);
    assert_eq!(cancel_count.get(), 2);
}

#[test]
fn superseded_fetch_is_discarded() {
    let mut table = CancelTable::<Count>::new();
    let mut r: Resource<i32, &'static str> = Resource::new();
    let (old_seq, old_token) = r.begin_fetch(&mut table);
    let (new_seq, new_token) = r.begin_fetch(&mut table);
    assert!(old_token.is_cancelled(&table));
    assert!(!r.complete(&table, old_seq, old_token, Ok(1)), "an older fetch never lands");
    assert_eq!(r.data(), None);
    assert!(r.loading());
    assert!(r.complete(&table, new_seq, new_token, Ok(2)));
    assert_eq!(r.data(), Some(2));
}

#[test]
fn disposed_resource_drops_its_fetch() {
    let mut table = CancelTable::new();
    let mut r: Resource<i32, &'static str> = Resource::new();
    let fired = Rc::new(Cell::new(0u32));
    let (seq, token) = r.begin_fetch(&mut table);
    token.on_cancel(&mut table, Count(fired.clone()));
    r.dispose(&mut table);
    assert_eq!(fired.get(), 1);
    assert!(!r.complete(&table, seq, token, Ok(5)), "a cancelled fetch never lands");
    assert_eq!(r.data(), None);
    // Cancellation is idempotent, and a late hook fires at once.
    r.dispose(&mut table);
    assert_eq!(fired.get(), 1);
    token.on_cancel(&mut table, Count(fired.clone()));
    assert_eq!(fired.get(), 2);
}

#[test]
fn network_state_collapses_with_loading_first() {
    let mut table = CancelTable::<Count>::new();
    let mut r: Resource<i32, &'static str> = Resource::new();
    assert!(matches!(r.network_state(), NetworkState::Loading));
    let (seq, token) = r.begin_fetch(&mut table);
    r.complete(&table, seq, token, Ok(3));
    assert!(matches!(r.network_state(), NetworkState::Success(3)));
    let (seq, token) = r.begin_fetch(&mut table);
    assert!(matches!(r.network_state(), NetworkState::Loading), "a refetch over stale data is loading");
    r.complete(&table, seq, token, Err("down"));
    assert!(matches!(r.network_state(), NetworkState::Error("down")));
    let s = r.state();
    assert_eq!(s.data, Some(3));
    let d: ResourceState<i32, &'static str> = ResourceState::default();
    assert!(d.loading && d.data.is_none() && d.error.is_none());
}
