#![allow(unused_imports)]

use orvane::diagnostic::{Diagnostic, Severity};
use orvane::diagnostics::Diagnostics;
use orvane::span::{FileId, Span};

fn span(start: u32, end: u32) -> Span {
    Span::new(FileId(0), start, end)
}

#[test]
fn lexical_diagnostics_are_never_suppressed() {
    // Their own spans intersect themselves; `new` keeps them regardless.
    let lexical = Diagnostic::error("E0005", "invalid numeric literal", span(8, 10));
    let all = Diagnostics::new(vec![lexical.clone()]);
    assert_eq!(all.as_slice(), &[lexical]);
}

#[test]
fn a_parser_diagnostic_on_the_same_span_is_suppressed() {
    // (a) the rule that matters: the lexical one survives, the parser's does not.
    let lexical = Diagnostic::error("E0005", "invalid numeric literal", span(8, 10));
    let parser = Diagnostic::error("E0101", "unexpected token", span(8, 10));

    let mut all = Diagnostics::new(vec![lexical.clone()]);
    all.extend_suppressed(vec![parser]);

    assert_eq!(all.len(), 1, "only the lexical diagnostic survives");
    assert_eq!(all.as_slice(), &[lexical]);
}

#[test]
fn overlapping_and_containing_spans_are_suppressed() {
    let lexical = Diagnostic::error("E0005", "invalid numeric literal", span(8, 12));

    let mut all = Diagnostics::new(vec![lexical.clone()]);
    all.extend_suppressed(vec![
        Diagnostic::error("E0101", "partial overlap", span(10, 20)),
        Diagnostic::error("E0101", "contained", span(9, 11)),
        Diagnostic::error("E0101", "touching the start", span(0, 8)),
        Diagnostic::error("E0101", "touching the end", span(12, 20)),
    ]);

    assert_eq!(all.len(), 1, "every touching span intersects: {all:?}");
    assert_eq!(all.as_slice(), &[lexical]);
}

#[test]
fn unrelated_parser_diagnostics_survive() {
    let lexical = Diagnostic::error("E0005", "invalid numeric literal", span(8, 10));

    let mut all = Diagnostics::new(vec![lexical.clone()]);
    let before = Diagnostic::error("E0101", "before", span(0, 7));
    let after = Diagnostic::error("E0101", "after", span(11, 20));
    all.extend_suppressed(vec![before.clone(), after.clone()]);

    assert_eq!(all.len(), 3, "nothing here intersects: {all:?}");
    assert_eq!(all.as_slice(), &[lexical, before, after]);
}

#[test]
fn suppression_uses_the_primary_span_only() {
    // A parser diagnostic *about* a lexical region, but anchored elsewhere,
    // survives: the contract is about where the error points.
    let lexical = Diagnostic::error("E0005", "invalid numeric literal", span(8, 10));
    let elsewhere = Diagnostic::error("E0101", "unexpected token", span(30, 31))
        .with_label(span(8, 10), "while parsing this literal");

    let mut all = Diagnostics::new(vec![lexical.clone()]);
    all.extend_suppressed(vec![elsewhere.clone()]);

    assert_eq!(all.as_slice(), &[lexical, elsewhere]);
}

#[test]
fn suppression_does_not_cross_files() {
    let lexical = Diagnostic::error(
        "E0005",
        "invalid numeric literal",
        Span::new(FileId(0), 8, 10),
    );
    let other_file =
        Diagnostic::error("E0101", "unexpected token", Span::new(FileId(1), 8, 10));

    let mut all = Diagnostics::new(vec![lexical.clone()]);
    all.extend_suppressed(vec![other_file.clone()]);

    assert_eq!(all.as_slice(), &[lexical, other_file]);
}

#[test]
fn order_is_lexical_first_then_surviving_later_stages() {
    let lexical = Diagnostic::error("E0005", "invalid numeric literal", span(8, 10));
    let parser = Diagnostic::error("E0101", "unrelated", span(20, 21));

    let mut all = Diagnostics::new(vec![lexical.clone()]);
    all.extend_suppressed(vec![parser.clone()]);

    assert_eq!(all.as_slice(), &[lexical, parser]);
}

#[test]
fn has_errors_ignores_warnings() {
    let warning = Diagnostic::warning("W0001", "unused", span(0, 1));
    let all = Diagnostics::new(vec![warning]);
    assert!(
        !all.has_errors(),
        "a warning-only program must still be allowed to run"
    );

    let mut all = Diagnostics::new(vec![Diagnostic::warning("W0001", "unused", span(0, 1))]);
    all.extend_suppressed(vec![Diagnostic::error("E0101", "boom", span(5, 6))]);
    assert!(all.has_errors());
}

#[test]
fn empty_input_yields_an_empty_aggregation() {
    let all = Diagnostics::new(vec![]);
    assert!(all.is_empty());
    assert!(!all.has_errors());
    assert_eq!(all.len(), 0);
}

#[test]
fn no_lexical_diagnostics_suppresses_nothing() {
    let mut all = Diagnostics::new(vec![]);
    let parser = Diagnostic::error("E0101", "unexpected token", span(0, 1));
    all.extend_suppressed(vec![parser.clone()]);
    assert_eq!(all.as_slice(), &[parser]);
}

#[test]
fn into_vec_returns_the_retained_set() {
    let lexical = Diagnostic::error("E0005", "invalid numeric literal", span(8, 10));
    let mut all = Diagnostics::new(vec![lexical.clone()]);
    all.extend_suppressed(vec![Diagnostic::error("E0101", "suppressed", span(9, 10))]);
    assert_eq!(all.into_vec(), vec![lexical]);
}
