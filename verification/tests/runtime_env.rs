use orvane::runtime::env::Env;
use orvane::runtime::values::Value;

fn int_of(v: Option<&Value>) -> Option<i64> {
    match v {
        Some(Value::Int(x)) => Some(*x),
        _ => None,
    }
}

#[test]
fn defines_and_gets() {
    let mut env = Env::new();
    env.define("x".into(), Value::Int(1), false);
    assert_eq!(int_of(env.get("x")), Some(1));
    assert!(!env.contains("y"));
}

#[test]
fn inner_scopes_shadow_outer_ones() {
    let mut env = Env::new();
    env.define("x".into(), Value::Int(1), false);
    env.push();
    env.define("x".into(), Value::Int(2), false);
    assert_eq!(int_of(env.get("x")), Some(2));
    env.pop();
    assert_eq!(int_of(env.get("x")), Some(1));
}

#[test]
fn immutable_bindings_refuse_assignment() {
    let mut env = Env::new();
    env.define("x".into(), Value::Int(1), false);
    assert_eq!(env.assign("x", Value::Int(2)), Ok(false));
    assert_eq!(int_of(env.get("x")), Some(1));
}

#[test]
fn mutable_bindings_accept_assignment() {
    let mut env = Env::new();
    env.define("x".into(), Value::Int(1), true);
    assert_eq!(env.assign("x", Value::Int(2)), Ok(true));
    assert_eq!(int_of(env.get("x")), Some(2));
}

#[test]
fn assigning_an_unbound_name_fails() {
    let mut env = Env::new();
    assert_eq!(env.assign("nope", Value::Int(1)), Err(()));
}

#[test]
fn assignment_reaches_an_outer_mutable_binding() {
    let mut env = Env::new();
    env.define("x".into(), Value::Int(1), true);
    env.push();
    assert_eq!(env.assign("x", Value::Int(9)), Ok(true));
    env.pop();
    assert_eq!(int_of(env.get("x")), Some(9));
}

#[test]
fn the_global_scope_is_never_popped() {
    let mut env = Env::new();
    assert_eq!(env.pop(), 1);
    assert_eq!(env.push(), 2);
    assert_eq!(env.pop(), 1);
    assert_eq!(env.depth(), 1);
}

#[test]
fn redefining_in_the_same_scope_replaces_the_binding() {
    let mut env = Env::new();
    env.define("x".into(), Value::Int(1), false);
    env.define("x".into(), Value::Int(5), true);
    assert_eq!(int_of(env.get("x")), Some(5));
    assert_eq!(env.assign("x", Value::Int(6)), Ok(true));
    env.push();
    env.define("y".into(), Value::Int(3), false);
    env.pop();
    assert!(!env.contains("y"));
    assert_eq!(int_of(env.get("x")), Some(6));
}
