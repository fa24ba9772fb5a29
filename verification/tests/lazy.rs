use runtime_core::primitives::lazy::{LazyError, LazyState};
use runtime_core::primitives::navigator::NavigatorRegistry;

#[test]
fn lazy_state_predicates() {
    assert!(LazyState::Loading.is_loading());
    assert!(LazyState::Loaded.is_loading());
    assert!(!LazyState::Rendered.is_loading());
    assert!(!LazyState::Error("x".into()).is_loading());
    assert!(LazyState::Error("x".into()).is_error());
}

#[test]
fn lazy_error_carries_message_and_retry() {
    let e = LazyError::new("boom".to_string(), 7u32);
    assert_eq!(e.message(), "boom");
    assert_eq!(e.retry(), 7);
}

#[test]
fn navigator_registry_registers_replaces_and_finds() {
    let mut reg: NavigatorRegistry<&'static str> = NavigatorRegistry::new();
    assert!(!reg.has(1));
    assert_eq!(reg.register(1, "stack"), None);
    assert_eq!(reg.register(2, "tabs"), None);
    assert!(reg.has(1) && reg.has_id(2));
    assert_eq!(reg.register(1, "stack2"), Some("stack"));
    assert_eq!(reg.get(1), Some(&"stack2"));
    assert_eq!(reg.get(3), None);
}
