use rpgsanta_2022::registry::{Route, SessionRegistry};

#[test]
fn new_registry_is_empty() {
    let registry: SessionRegistry<&str> = SessionRegistry::new();
    assert_eq!(registry.len(), 0);
    assert!(!registry.contains(1));
    assert_eq!(registry.lookup(1), None);
    assert_eq!(registry.route(1), Route::Create);
    let registry: SessionRegistry<&str> = SessionRegistry::default();
    assert_eq!(registry.len(), 0);
}

#[test]
fn register_enters_the_first_handle_only() {
    let mut registry = SessionRegistry::new();
    assert_eq!(registry.register(7, "first"), None);
    assert_eq!(registry.register(7, "second"), Some("second"));
    assert_eq!(registry.lookup(7), Some(&"first"));
    assert_eq!(registry.len(), 1);
    assert_eq!(registry.route(7), Route::Existing);
    assert_eq!(registry.route(8), Route::Create);
}

#[test]
fn channels_are_independent() {
    let mut registry = SessionRegistry::new();
    registry.register(1, "a");
    registry.register(2, "b");
    assert_eq!(registry.len(), 2);
    assert_eq!(registry.lookup(1), Some(&"a"));
    assert_eq!(registry.lookup(2), Some(&"b"));
    assert_eq!(registry.deregister(1), Some("a"));
    assert!(!registry.contains(1));
    assert!(registry.contains(2));
}

#[test]
fn deregister_removes_once() {
    let mut registry = SessionRegistry::new();
    registry.register(3, 30u32);
    assert_eq!(registry.deregister(3), Some(30));
    assert_eq!(registry.deregister(3), None);
    assert_eq!(registry.len(), 0);
    assert_eq!(registry.route(3), Route::Create);
}

#[test]
fn register_again_after_deregister_enters_the_new_handle() {
    let mut registry = SessionRegistry::new();
    assert_eq!(registry.register(9, 1u8), None);
    assert_eq!(registry.deregister(9), Some(1));
    assert_eq!(registry.register(9, 2u8), None);
    assert_eq!(registry.lookup(9), Some(&2));
    assert_eq!(registry.len(), 1);
}
