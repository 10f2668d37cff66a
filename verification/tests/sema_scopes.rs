#![allow(unused_imports)]

use orvane::sema::scopes::{Scopes, Symbol};
use orvane::sema::ty::Ty;

fn symbol(name: &str, mutable: bool) -> Symbol {
    Symbol {
        name: name.to_owned(),
        ty: Ty::Int,
        mutable,
    }
}

#[test]
fn declares_and_looks_up() {
    let mut scopes = Scopes::new();
    assert!(scopes.declare(symbol("x", false)));
    assert_eq!(scopes.lookup("x").map(|s| s.ty.duplicate()), Some(Ty::Int));
    assert!(scopes.lookup("y").is_none());
}

#[test]
fn rejects_a_duplicate_in_the_same_scope() {
    let mut scopes = Scopes::new();
    assert!(scopes.declare(symbol("x", false)));
    assert!(!scopes.declare(symbol("x", true)));
    assert!(scopes.declared_here("x"));
}

#[test]
fn shadowing_an_outer_scope_is_allowed() {
    let mut scopes = Scopes::new();
    assert!(scopes.declare(symbol("x", false)));
    scopes.push();
    assert!(scopes.declare(symbol("x", true)));
    assert_eq!(scopes.lookup("x").map(|s| s.mutable), Some(true));
}

#[test]
fn popping_restores_the_outer_binding() {
    let mut scopes = Scopes::new();
    scopes.declare(symbol("x", false));
    scopes.push();
    scopes.declare(symbol("x", true));
    scopes.pop();
    assert_eq!(scopes.lookup("x").map(|s| s.mutable), Some(false));
    assert_eq!(scopes.depth(), 1);
}

#[test]
fn scopes_the_global_scope_is_never_popped() {
    let mut scopes = Scopes::new();
    assert_eq!(scopes.pop(), 1);
}

#[test]
fn nested_scopes_lookup_through_the_chain() {
    let mut scopes = Scopes::new();
    scopes.declare(symbol("global", false));
    scopes.push();
    scopes.declare(symbol("outer", false));
    scopes.push();
    assert!(scopes.lookup("global").is_some());
    assert!(scopes.lookup("outer").is_some());
    assert!(!scopes.declared_here("outer"));
    assert!(scopes.declared_here("x").eq(&false));
}
