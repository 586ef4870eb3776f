use error_stack::{HookContext, TypeKey, Value, ValueTag};

#[test]
fn storage_round_trip() {
    let mut ctx = HookContext::new(false);
    assert!(ctx.get(ValueTag::Nat).is_none());
    assert_eq!(ctx.insert(Value::Nat(7)), None);
    assert_eq!(ctx.get(ValueTag::Nat), Some(&Value::Nat(7)));
    assert_eq!(ctx.remove(ValueTag::Nat), Some(Value::Nat(7)));
    assert!(ctx.get(ValueTag::Nat).is_none());
    assert!(ctx.remove(ValueTag::Nat).is_none());
}

#[test]
fn insert_replaces_and_returns_prior() {
    let mut ctx = HookContext::new(false);
    assert_eq!(ctx.insert(Value::Text("one".to_string())), None);
    assert_eq!(
        ctx.insert(Value::Text("two".to_string())),
        Some(Value::Text("one".to_string()))
    );
    assert_eq!(ctx.get(ValueTag::Text), Some(&Value::Text("two".to_string())));
}

#[test]
fn distinct_tags_never_alias() {
    let mut ctx = HookContext::new(false);
    ctx.insert(Value::Int(-3));
    ctx.insert(Value::Nat(3));
    ctx.insert(Value::Flag(true));
    assert_eq!(ctx.get(ValueTag::Int), Some(&Value::Int(-3)));
    assert_eq!(ctx.get(ValueTag::Nat), Some(&Value::Nat(3)));
    assert_eq!(ctx.get(ValueTag::Flag), Some(&Value::Flag(true)));
    assert_eq!(ctx.remove(ValueTag::Int), Some(Value::Int(-3)));
    assert_eq!(ctx.get(ValueTag::Nat), Some(&Value::Nat(3)));
}

#[test]
fn get_mut_updates_in_place() {
    let mut ctx = HookContext::new(false);
    ctx.insert(Value::Nat(1));
    if let Some(v) = ctx.get_mut(ValueTag::Nat) {
        *v = Value::Nat(2);
    } else {
        panic!("value should be present");
    }
    assert_eq!(ctx.get(ValueTag::Nat), Some(&Value::Nat(2)));
    assert!(ctx.get_mut(ValueTag::Text).is_none());
}

#[test]
fn increment_counter_from_fresh_yields_zero_one_two() {
    let mut ctx = HookContext::new(false);
    assert_eq!(ctx.increment_counter(), 0);
    assert_eq!(ctx.increment_counter(), 1);
    assert_eq!(ctx.increment_counter(), 2);
}

#[test]
fn decrement_counter_from_fresh_yields_minus_one_two_three() {
    let mut ctx = HookContext::new(false);
    assert_eq!(ctx.decrement_counter(), -1);
    assert_eq!(ctx.decrement_counter(), -2);
    assert_eq!(ctx.decrement_counter(), -3);
}

#[test]
fn counters_are_partitioned_by_owner() {
    let mut ctx = HookContext::new(false);
    ctx.cast(TypeKey::User(1));
    assert_eq!(ctx.increment_counter(), 0);
    assert_eq!(ctx.increment_counter(), 1);
    ctx.cast(TypeKey::User(2));
    assert_eq!(ctx.increment_counter(), 0);
    ctx.cast(TypeKey::User(1));
    assert_eq!(ctx.increment_counter(), 2);
}

#[test]
fn cast_shares_underlying_storage() {
    let mut ctx = HookContext::new(false);
    ctx.cast(TypeKey::User(10));
    ctx.insert(Value::Nat(42));
    ctx.cast(TypeKey::User(20));
    assert!(ctx.get(ValueTag::Nat).is_none());
    ctx.cast(TypeKey::User(10));
    assert_eq!(ctx.get(ValueTag::Nat), Some(&Value::Nat(42)));
}

#[test]
fn cast_counter_is_shared_between_types() {
    let mut ctx = HookContext::new(false);
    ctx.cast(TypeKey::User(1));
    assert_eq!(ctx.increment_counter(), 0);
    // A hook for another type casts to the first type to share its counter.
    ctx.cast(TypeKey::User(2));
    ctx.cast(TypeKey::User(1));
    assert_eq!(ctx.increment_counter(), 1);
}

#[test]
fn alternate_is_fixed_at_creation() {
    let ctx = HookContext::new(true);
    assert!(ctx.alternate());
    let ctx2 = HookContext::new(false);
    assert!(!ctx2.alternate());
}

#[test]
fn take_body_drains_and_appendix_accumulates() {
    let mut ctx = HookContext::new(false);
    ctx.push_body("a".to_string());
    ctx.push_body("b".to_string());
    ctx.push_appendix("x".to_string());
    assert_eq!(ctx.take_body(), vec!["a".to_string(), "b".to_string()]);
    assert_eq!(ctx.take_body(), Vec::<String>::new());
    ctx.push_body("c".to_string());
    ctx.push_appendix("y".to_string());
    assert_eq!(ctx.take_body(), vec!["c".to_string()]);
    assert_eq!(
        ctx.appendix(),
        &vec!["x".to_string(), "y".to_string()]
    );
    assert_eq!(
        ctx.into_appendix(),
        vec!["x".to_string(), "y".to_string()]
    );
}

#[test]
fn counter_survives_body_drain() {
    let mut ctx = HookContext::new(false);
    ctx.cast(TypeKey::User(5));
    assert_eq!(ctx.increment_counter(), 0);
    ctx.push_body("line".to_string());
    let _ = ctx.take_body();
    assert_eq!(ctx.increment_counter(), 1);
}
