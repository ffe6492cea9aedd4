use dnsgen::context::{equal, ResolvedContext};
use dnsgen::value::{value_eq, ResolvedValue};

fn list(items: &[&str]) -> ResolvedValue {
    ResolvedValue::List(items.iter().map(|s| s.to_string()).collect())
}

#[test]
fn value_null_equals_only_null() {
    assert!(value_eq(&ResolvedValue::Null, &ResolvedValue::Null));
    assert!(!value_eq(&ResolvedValue::Null, &list(&[])));
    assert!(!value_eq(&list(&[]), &ResolvedValue::Null));
    assert!(!value_eq(&ResolvedValue::Null, &ResolvedValue::Str("".to_string())));
}

#[test]
fn value_strings_compare_exactly() {
    let a = ResolvedValue::Str("x".to_string());
    let b = ResolvedValue::Str("x".to_string());
    let c = ResolvedValue::Str("y".to_string());
    assert!(value_eq(&a, &b));
    assert!(!value_eq(&a, &c));
}

#[test]
fn value_lists_are_order_sensitive() {
    assert!(value_eq(&list(&["a", "b"]), &list(&["a", "b"])));
    assert!(!value_eq(&list(&["a", "b"]), &list(&["b", "a"])));
    assert!(!value_eq(&list(&["a"]), &list(&["a", "a"])));
}

#[test]
fn context_equality_is_reflexive() {
    let mut ctx = ResolvedContext::new();
    ctx.insert("a".to_string(), ResolvedValue::Null);
    ctx.insert("b".to_string(), list(&["1.2.3.4"]));
    assert!(equal(&ctx, &ctx));
}

#[test]
fn context_equality_ignores_insertion_order() {
    let mut ab = ResolvedContext::new();
    ab.insert("a".to_string(), ResolvedValue::Str("1".to_string()));
    ab.insert("b".to_string(), list(&["x", "y"]));
    let mut ba = ResolvedContext::new();
    ba.insert("b".to_string(), list(&["x", "y"]));
    ba.insert("a".to_string(), ResolvedValue::Str("1".to_string()));
    assert!(equal(&ab, &ba));
    assert!(equal(&ba, &ab));
}

#[test]
fn context_equality_sees_value_changes() {
    let mut one = ResolvedContext::new();
    one.insert("a".to_string(), ResolvedValue::Null);
    let mut two = ResolvedContext::new();
    two.insert("a".to_string(), list(&["1.2.3.4"]));
    assert!(!equal(&one, &two));
}

#[test]
fn context_equality_sees_key_changes() {
    let mut one = ResolvedContext::new();
    one.insert("a".to_string(), ResolvedValue::Null);
    let mut two = ResolvedContext::new();
    two.insert("a".to_string(), ResolvedValue::Null);
    two.insert("b".to_string(), ResolvedValue::Null);
    assert!(!equal(&one, &two));
    assert!(!equal(&two, &one));
}

#[test]
fn context_null_never_equals_empty_list() {
    let mut one = ResolvedContext::new();
    one.insert("a".to_string(), ResolvedValue::Null);
    let mut two = ResolvedContext::new();
    two.insert("a".to_string(), list(&[]));
    assert!(!equal(&one, &two));
}

#[test]
fn context_insert_replaces_existing_binding() {
    let mut ctx = ResolvedContext::new();
    ctx.insert("a".to_string(), ResolvedValue::Str("old".to_string()));
    ctx.insert("a".to_string(), ResolvedValue::Str("new".to_string()));
    let key = "a".to_string();
    match ctx.get(&key) {
        Some(ResolvedValue::Str(s)) => assert_eq!(s, "new"),
        _ => panic!("binding missing"),
    }
    assert_eq!(ctx.entries().len(), 1);
}

#[test]
fn context_get_misses_unknown_names() {
    let ctx = ResolvedContext::new();
    let key = "nope".to_string();
    assert!(ctx.get(&key).is_none());
}
