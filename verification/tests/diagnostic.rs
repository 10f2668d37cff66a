#![allow(unused_imports)]

use orvane::diagnostic::{Diagnostic, Label, Severity};
use orvane::source::SourceMap;
use orvane::span::{FileId, Span};

fn span(file: u32, start: u32, end: u32) -> Span {
    Span::new(orvane::span::FileId(file), start, end)
}

#[test]
fn error_has_expected_defaults() {
    let d = Diagnostic::error("E0001", "invalid character", span(0, 0, 1));
    assert_eq!(d.code, "E0001");
    assert_eq!(d.severity, Severity::Error);
    assert_eq!(d.message, "invalid character");
    assert!(d.labels.is_empty());
    assert!(d.help.is_none());
}

#[test]
fn builders_accumulate_labels_and_help() {
    let d = Diagnostic::error("E0301", "mismatch", span(0, 0, 1))
        .with_label(span(0, 4, 5), "expected Int here")
        .with_help("annotate the binding");
    assert_eq!(d.labels.len(), 1);
    assert_eq!(d.labels[0].message, "expected Int here");
    assert_eq!(d.help.as_deref(), Some("annotate the binding"));
}

#[test]
fn warning_keeps_code_and_message() {
    let d = Diagnostic::warning("E0001", "unused", span(0, 0, 1));
    assert_eq!(d.severity, Severity::Warning);
    assert_eq!(d.severity.as_str(), "warning");
}

#[test]
fn render_compact_uses_one_based_line_and_column() {
    let mut sm = SourceMap::new();
    let id = sm.add("x.orv", "ab\nwrong\n");
    let d = Diagnostic::error("E0101", "unexpected token", Span::new(id, 3, 8));
    assert_eq!(d.render_compact(&sm), "E0101:2:1: unexpected token");
}

#[test]
fn render_compact_all_emits_one_line_per_diagnostic() {
    let mut sm = SourceMap::new();
    let id = sm.add("x.orv", "abc");
    let ds = vec![
        Diagnostic::error("E0001", "one", Span::new(id, 0, 1)),
        Diagnostic::error("E0002", "two", Span::new(id, 2, 3)),
    ];
    assert_eq!(
        Diagnostic::render_compact_all(&sm, &ds),
        "E0001:1:1: one\nE0002:1:3: two\n"
    );
}

#[test]
fn render_compact_all_of_nothing_is_empty() {
    let sm = SourceMap::new();
    assert_eq!(Diagnostic::render_compact_all(&sm, &[]), "");
}

#[test]
fn render_compact_tolerates_unknown_file() {
    let sm = SourceMap::new();
    let d = Diagnostic::error("E0001", "boom", span(3, 0, 1));
    assert_eq!(d.render_compact(&sm), "E0001:0:0: boom");
}
