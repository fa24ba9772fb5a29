use runtime_core::reactive::runtime::{signal_generation, signal_is_live, with_scope, Reaction, Runtime, Scope};
use runtime_core::reactive::state::Signal;
use runtime_core::robot::watch::{read_reply_json, str_lt, watched_rows_json, Render, Watches, WatchedSnapshot};

/// Callbacks that do nothing.
struct Quiet;

impl Reaction<i32> for Quiet {
    fn run(&mut self, _rt: &mut Runtime<i32, Quiet>) {}
    fn compute(&mut self, _rt: &mut Runtime<i32, Quiet>) -> i32 {
        0
    }
    fn same(&mut self, a: &i32, b: &i32) -> bool {
        a == b
    }
    fn changed(&mut self, _rt: &mut Runtime<i32, Quiet>, _now: &Vec<i32>, _prev: &Option<Vec<i32>>) {}
    fn fire(&mut self, _rt: &mut Runtime<i32, Quiet>) {}
}

/// Renders a value with its `Debug` form.
struct DebugForm;

impl Render<i32> for DebugForm {
    fn render(&self, v: &i32) -> String {
        format!("{v:?}")
    }
}

#[test]
fn watch_then_read_returns_live_debug_value() {
    let mut rt: Runtime<i32, Quiet> = Runtime::new();
    let mut w = Watches::new();
    let s = Signal::new(&mut rt, 1);
    w.watch_signal(&rt, "counter", s);
    s.set(&mut rt, 42);
    assert_eq!(w.read_watched_by_name(&rt, &DebugForm, "counter"), Some("42".to_string()));
    assert!(w.list_watched(&rt, &DebugForm).iter().any(|x| x.name == "counter" && x.value == "42"));
    w.unwatch_signal(s.id);
}

#[test]
fn unwatch_removes_entry() {
    let mut rt: Runtime<i32, Quiet> = Runtime::new();
    let mut w = Watches::new();
    let s = Signal::new(&mut rt, 5);
    w.watch_signal(&rt, "gone", s);
    assert!(w.read_watched_by_name(&rt, &DebugForm, "gone").is_some());
    w.unwatch_signal(s.id);
    assert!(w.read_watched_by_name(&rt, &DebugForm, "gone").is_none());
}

#[test]
fn recycled_slot_does_not_read_stale_watch_entry() {
    let mut rt: Runtime<i32, Quiet> = Runtime::new();
    let mut w = Watches::new();
    let scope = Scope::new(&mut rt);
    let stale: Signal = with_scope(&mut rt, &scope, |rt| Signal::new(rt, 7));
    let stale_gen = signal_generation(&rt, stale.id as u64);
    w.watch_signal(&rt, "stale", stale);
    assert_eq!(w.read_watched_by_name(&rt, &DebugForm, "stale"), Some("7".to_string()));

    scope.dispose(&mut rt);

    let fresh = Signal::new(&mut rt, 999);
    assert_eq!(fresh.id, stale.id, "fresh must reuse the freed slot");
    assert!(w.read_watched_by_name(&rt, &DebugForm, "stale").is_none(), "a disposed signal's watch entry must not survive");
    assert!(!signal_is_live(&rt, stale.id as u64, stale_gen), "the old generation must read as not-live after recycle");
    assert_eq!(fresh.get_untracked(&rt), 999);
    assert!(w.list_watched(&rt, &DebugForm).is_empty(), "the stale entry was pruned");
}

#[test]
fn list_is_sorted_by_name_then_slot() {
    let mut rt: Runtime<i32, Quiet> = Runtime::new();
    let mut w = Watches::new();
    let a = Signal::new(&mut rt, 1);
    let b = Signal::new(&mut rt, 2);
    let c = Signal::new(&mut rt, 3);
    w.watch_signal(&rt, "zeta", a);
    w.watch_signal(&rt, "alpha", b);
    w.watch_signal(&rt, "alpha", c);
    let names: Vec<(String, u32)> = w.list_watched(&rt, &DebugForm).iter().map(|x| (x.name.clone(), x.id)).collect();
    assert_eq!(names, vec![("alpha".to_string(), b.id), ("alpha".to_string(), c.id), ("zeta".to_string(), a.id)]);
    assert!(str_lt("abc", "abd"));
    assert!(str_lt("ab", "abc"));
    assert!(!str_lt("b", "abc"));
    assert!(!str_lt("same", "same"));
}

#[test]
fn watch_replies_are_json() {
    let rows = vec![
        WatchedSnapshot { id: 3, name: "count".to_string(), value: "42".to_string() },
        WatchedSnapshot { id: 9, name: "say \"hi\"".to_string(), value: "\"x\"".to_string() },
    ];
    assert_eq!(
        watched_rows_json(&rows),
        "[{\"id\":3,\"name\":\"count\",\"value\":\"42\"},{\"id\":9,\"name\":\"say \\\"hi\\\"\",\"value\":\"\\\"x\\\"\"}]"
    );
    assert_eq!(watched_rows_json(&Vec::new()), "[]");
    assert_eq!(read_reply_json(&Some("42".to_string())), "\"42\"");
    assert_eq!(read_reply_json(&None), "null");
}

#[test]
fn read_signal_verb_needs_a_name_or_an_id() {
    let mut rt: Runtime<i32, Quiet> = Runtime::new();
    let mut w = Watches::new();
    let s = Signal::new(&mut rt, 7);
    w.watch_signal(&rt, "bridge_counter", s);
    assert_eq!(w.read_signal_verb(&rt, &DebugForm, Some("bridge_counter"), None), Ok("\"7\"".to_string()));
    assert_eq!(w.read_signal_verb(&rt, &DebugForm, None, Some(s.id as u64)), Ok("\"7\"".to_string()));
    assert_eq!(w.read_signal_verb(&rt, &DebugForm, Some("nope"), None), Ok("null".to_string()));
    assert_eq!(
        w.read_signal_verb(&rt, &DebugForm, None, None),
        Err("read_signal requires a 'name' or 'id' argument".to_string())
    );
}
