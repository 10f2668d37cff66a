#![allow(unused_imports)]

use orvane::runtime::failure::{Failure, FailureKind, Frame, render};
use orvane::span::{FileId, Span};

fn span() -> Span {
    Span::point(FileId(0), 0)
}

#[test]
fn renders_the_spec_shape() {
    let failure = Failure::new(FailureKind::DivisionByZero, "division by zero", span());
    assert_eq!(
        render(&failure),
        "Failure(kind: \"DivisionByZero\", message: \"division by zero\")"
    );
}

#[test]
fn kinds_have_stable_names_and_codes() {
    assert_eq!(FailureKind::DivisionByZero.as_str(), "DivisionByZero");
    assert_eq!(FailureKind::DivisionByZero.code(), "R0001");
    assert_eq!(FailureKind::Overflow.code(), "R0002");
    assert_eq!(FailureKind::IndexOutOfBounds.code(), "R0003");
}

#[test]
fn equality_ignores_the_trace() {
    let a = Failure::new(FailureKind::Overflow, "boom", span()).with_trace(vec![Frame {
        function: "f".into(),
        span: span(),
    }]);
    let b = Failure::new(FailureKind::Overflow, "boom", span());
    assert!(a.equals(&b));
}

#[test]
fn different_kinds_are_not_equal() {
    let a = Failure::new(FailureKind::Overflow, "boom", span());
    let b = Failure::new(FailureKind::MissingKey, "boom", span());
    assert!(!a.equals(&b));
}
