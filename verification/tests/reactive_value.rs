use runtime_core::reactive::runtime::{Reaction, Runtime};
use runtime_core::reactive::state::Signal;
use runtime_core::reactive_value::Reactive;
use std::cell::RefCell;
use std::rc::Rc;

/// No callbacks: these runtimes only hold signals.
struct NoFx;

impl<V: Clone + PartialEq> Reaction<V> for NoFx {
    fn run(&mut self, _rt: &mut Runtime<V, Self>) {}
    fn compute(&mut self, _rt: &mut Runtime<V, Self>) -> V {
        panic!("no computations here")
    }
    fn same(&mut self, a: &V, b: &V) -> bool {
        a == b
    }
    fn changed(&mut self, _rt: &mut Runtime<V, Self>, _now: &Vec<V>, _prev: &Option<Vec<V>>) {}
    fn fire(&mut self, _rt: &mut Runtime<V, Self>) {}
}

type Fixed<T> = Reactive<T, fn() -> T>;

#[test]
fn bare_value_into_reactive_is_static() {
    let r: Fixed<String> = String::from("hi").into();
    assert!(r.is_static());
    assert_eq!(r.get(), "hi");
    let r2: Fixed<String> = "yo".to_string().into();
    assert!(r2.is_static());
    assert_eq!(r2.get(), "yo");
}

#[test]
fn option_string_coerces_into_reactive_option_string() {
    let some: Fixed<Option<String>> = Some("hi".to_string()).into();
    assert!(some.is_static());
    assert_eq!(some.get(), Some("hi".to_string()));
    let none: Fixed<Option<String>> = Option::<String>::None.into();
    assert!(none.is_static());
    assert_eq!(none.get(), None);

    let rt = Rc::new(RefCell::new(Runtime::<Option<String>, NoFx>::new()));
    let sig = Signal::new(&mut rt.borrow_mut(), Some("a".to_string()));
    let reader = rt.clone();
    let live = Reactive::derive(move || sig.get_untracked(&reader.borrow()));
    assert!(!live.is_static());
    assert_eq!(live.get(), Some("a".to_string()));
    sig.set(&mut rt.borrow_mut(), None);
    assert_eq!(live.get(), None);
}

#[test]
fn signal_into_reactive_is_dynamic_and_live() {
    let rt = Rc::new(RefCell::new(Runtime::<i32, NoFx>::new()));
    let sig = Signal::new(&mut rt.borrow_mut(), 1);
    let reader = rt.clone();
    let r = Reactive::derive(move || sig.get_untracked(&reader.borrow()));
    assert!(!r.is_static());
    assert_eq!(r.get(), 1);
    sig.set(&mut rt.borrow_mut(), 42);
    assert_eq!(r.get(), 42);
}

#[test]
fn default_is_static_default() {
    let r: Fixed<String> = Reactive::default();
    assert!(r.is_static());
    assert_eq!(r.get(), "");
}

#[test]
fn into_closure_static_is_constant() {
    let r: Fixed<i32> = Reactive::Static(9);
    let f = r.into_closure();
    assert_eq!(f(), 9);
    assert_eq!(f(), 9);
}

#[test]
fn reactive_from_signal_reads_through_the_runtime() {
    let mut rt = Runtime::<i32, NoFx>::new();
    let sig = Signal::new(&mut rt, 5);
    let r: Reactive<i32, Signal> = Reactive::from_signal(sig);
    assert!(!r.is_static());
    assert_eq!(r.read(&mut rt), 5);
    sig.set(&mut rt, 6);
    assert_eq!(r.read(&mut rt), 6);
    let fixed: Reactive<i32, Signal> = Reactive::Static(3);
    assert_eq!(fixed.read(&mut rt), 3);
}
