#![allow(unused_imports, dead_code)]

use orvane::diagnostic::Diagnostic;
use orvane::lexer::{FloatValue, Keyword, StrPart, Token, TokenKind, finish_lex, lex};
use orvane::source::{SourceFile, SourceMap};
use orvane::span::{FileId, Span};

/// The value the lexer is handed for a finite float literal.
fn float_value(v: f64) -> FloatValue {
    FloatValue { bits: v.to_bits(), display: format!("{}", v) }
}

fn float_kind(v: f64) -> TokenKind {
    TokenKind::Float(float_value(v))
}

/// Lexes a file and completes its float literals with their parsed values.
fn lex_file(file: &SourceFile) -> (Vec<Token>, Vec<Diagnostic>) {
    let lexed = lex(file);
    let values: Vec<Option<FloatValue>> = lexed
        .floats
        .iter()
        .map(|f| match f.text.parse::<f64>() {
            Ok(v) if v.is_finite() => Some(float_value(v)),
            _ => None,
        })
        .collect();
    finish_lex(lexed, values)
}

/// Lexes `text`, also returning the source map and file so callers can render.
fn lex_with_sources(text: &str) -> (SourceMap, SourceFile, Vec<Token>, Vec<Diagnostic>) {
    let mut sources = SourceMap::new();
    let id = sources.add("test.orv", text);
    let file = match sources.file(id).cloned() {
        Some(file) => file,
        None => SourceFile::new(FileId(0), "test.orv", text),
    };
    let (tokens, diagnostics) = lex_file(&file);
    (sources, file, tokens, diagnostics)
}

/// Lexes `text`, returning tokens (including `Eof`) and diagnostics.
fn lex_src(text: &str) -> (Vec<Token>, Vec<Diagnostic>) {
    let (_sources, _file, tokens, diagnostics) = lex_with_sources(text);
    (tokens, diagnostics)
}

/// Lexes `text` and returns the tokens without the trailing `Eof`.
fn lex_kinds(text: &str) -> Vec<TokenKind> {
    let (tokens, diagnostics) = lex_src(text);
    assert!(
        diagnostics.is_empty(),
        "unexpected diagnostics for {text:?}: {diagnostics:?}"
    );
    tokens
        .into_iter()
        .filter(|t| !t.is_eof())
        .map(|t| t.kind)
        .collect()
}

/// Lexes `text`, asserting at least one diagnostic and returning their codes.
fn lex_errors(text: &str) -> Vec<&'static str> {
    let (_, diagnostics) = lex_src(text);
    assert!(
        !diagnostics.is_empty(),
        "expected at least one diagnostic for {text:?}"
    );
    diagnostics.iter().map(|d| d.code).collect()
}

fn ident(name: &str) -> TokenKind {
    TokenKind::Ident(name.to_owned())
}

fn str_parts(parts: Vec<StrPart>) -> TokenKind {
    TokenKind::Str(parts)
}

fn lit(text: &str) -> StrPart {
    StrPart::Lit(text.to_owned())
}

#[test]
fn comments_line_comment_does_not_consume_the_newline() {
    assert_eq!(
        lex_kinds("a // hi\nb"),
        vec![ident("a"), TokenKind::Newline, ident("b")]
    );
}

#[test]
fn comments_line_comment_at_end_of_file_is_fine() {
    assert_eq!(lex_kinds("a // hi"), vec![ident("a")]);
}

#[test]
fn comments_block_comments_are_nestable() {
    assert_eq!(
        lex_kinds("a /* one /* two */ three */ b"),
        vec![ident("a"), ident("b")]
    );
}

#[test]
fn comments_block_comment_with_newline_counts_as_one_newline() {
    assert_eq!(
        lex_kinds("a /* x\ny\nz */ b"),
        vec![ident("a"), TokenKind::Newline, ident("b")]
    );
}

#[test]
fn comments_block_comment_without_newline_emits_no_newline() {
    assert_eq!(lex_kinds("a /* x */ b"), vec![ident("a"), ident("b")]);
}

#[test]
fn comments_unterminated_block_comment_reports_e0003() {
    assert_eq!(lex_errors("a /* x"), vec!["E0003"]);
}
