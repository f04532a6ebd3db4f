use rwf::connection::session::{Session, Sessions, Value};
use rwf::state::Context;

#[test]
fn store_issues_consecutive_ids_from_zero() {
    let mut store = Sessions::new();
    assert!(!store.contains(&0));
    assert_eq!(store.add(), 0);
    assert_eq!(store.add(), 1);
    assert_eq!(store.add(), 2);
    assert!(store.contains(&0));
    assert!(store.contains(&2));
    assert!(!store.contains(&3));
}

#[test]
fn resolve_keeps_known_id() {
    let mut store = Sessions::new();
    let a = store.add();
    let b = store.add();
    assert_eq!(store.resolve(Some(a)), a);
    assert_eq!(store.resolve(Some(b)), b);
    assert!(!store.contains(&2));
}

#[test]
fn resolve_replaces_unknown_or_missing_id() {
    let mut store = Sessions::new();
    let first = store.resolve(None);
    assert_eq!(first, 0);
    let second = store.resolve(Some(99));
    assert_eq!(second, 1);
    assert_ne!(second, first);
    let third = store.resolve(None);
    assert_eq!(third, 2);
}

#[test]
fn session_state_persists_under_its_id() {
    let mut store = Sessions::new();
    let id = store.add();
    store.get(id).add("name".to_string(), Value::Str("alice".to_string()));
    let v = store.get(id).get("name").cloned();
    assert_eq!(v, Some(Value::Str("alice".to_string())));
}

#[test]
fn session_overwrites_regardless_of_type() {
    let mut s = Session::new();
    s.add("k".to_string(), Value::Str("x".to_string()));
    s.add("k".to_string(), Value::Int(9));
    assert_eq!(s.get("k").unwrap().as_int(), Some(9));
    assert!(s.get("k").unwrap().as_str().is_none());
}

#[test]
fn session_missing_key_is_absent() {
    let s = Session::new();
    assert!(s.get("nope").is_none());
}

#[test]
fn session_type_mismatch_is_absent_not_wrong() {
    let mut s = Session::new();
    s.add("age".to_string(), Value::Int(30));
    let v = s.get("age").unwrap();
    assert_eq!(v.as_int(), Some(30));
    assert!(v.as_str().is_none());
    assert!(v.as_bool().is_none());
}

#[test]
fn value_downcasts_are_checked() {
    assert_eq!(Value::Int(1).as_int(), Some(1));
    assert!(Value::Int(1).as_bool().is_none());
    assert_eq!(Value::Bool(true).as_bool(), Some(true));
    assert!(Value::Bool(true).as_str().is_none());
    assert_eq!(
        Value::Str("s".to_string()).as_str(),
        Some(&"s".to_string())
    );
    assert!(Value::Str("s".to_string()).as_int().is_none());
}

#[test]
fn context_stores_and_checks_types() {
    let mut c = Context::new();
    c.add("flag".to_string(), Value::Bool(true));
    assert_eq!(c.get("flag").unwrap().as_bool(), Some(true));
    assert!(c.get("flag").unwrap().as_int().is_none());
    assert!(c.get("other").is_none());
    c.add("flag".to_string(), Value::Int(0));
    assert_eq!(c.get("flag").unwrap().as_int(), Some(0));
}
