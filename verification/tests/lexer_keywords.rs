#![allow(unused_imports, dead_code)]

use orvane::diagnostic::Diagnostic;
use orvane::lexer::{FloatValue, Keyword, StrPart, Token, TokenKind, finish_lex, lex};
use orvane::source::{SourceFile, SourceMap};
use orvane::span::{FileId, Span};

/// The value the lexer is handed for a finite float literal.
fn float_value(v: f64) -> FloatValue {
    FloatValue { bits: v.to_bits(), display: format!("{}", v) }
}

fn float_kind(v: f64) -> TokenKind {
    TokenKind::Float(float_value(v))
}

/// Lexes a file and completes its float literals with their parsed values.
fn lex_file(file: &SourceFile) -> (Vec<Token>, Vec<Diagnostic>) {
    let lexed = lex(file);
    let values: Vec<Option<FloatValue>> = lexed
        .floats
        .iter()
        .map(|f| match f.text.parse::<f64>() {
            Ok(v) if v.is_finite() => Some(float_value(v)),
            _ => None,
        })
        .collect();
    finish_lex(lexed, values)
}

/// Lexes `text`, also returning the source map and file so callers can render.
fn lex_with_sources(text: &str) -> (SourceMap, SourceFile, Vec<Token>, Vec<Diagnostic>) {
    let mut sources = SourceMap::new();
    let id = sources.add("test.orv", text);
    let file = match sources.file(id).cloned() {
        Some(file) => file,
        None => SourceFile::new(FileId(0), "test.orv", text),
    };
    let (tokens, diagnostics) = lex_file(&file);
    (sources, file, tokens, diagnostics)
}

/// Lexes `text`, returning tokens (including `Eof`) and diagnostics.
fn lex_src(text: &str) -> (Vec<Token>, Vec<Diagnostic>) {
    let (_sources, _file, tokens, diagnostics) = lex_with_sources(text);
    (tokens, diagnostics)
}

/// Lexes `text` and returns the tokens without the trailing `Eof`.
fn lex_kinds(text: &str) -> Vec<TokenKind> {
    let (tokens, diagnostics) = lex_src(text);
    assert!(
        diagnostics.is_empty(),
        "unexpected diagnostics for {text:?}: {diagnostics:?}"
    );
    tokens
        .into_iter()
        .filter(|t| !t.is_eof())
        .map(|t| t.kind)
        .collect()
}

/// Lexes `text`, asserting at least one diagnostic and returning their codes.
fn lex_errors(text: &str) -> Vec<&'static str> {
    let (_, diagnostics) = lex_src(text);
    assert!(
        !diagnostics.is_empty(),
        "expected at least one diagnostic for {text:?}"
    );
    diagnostics.iter().map(|d| d.code).collect()
}

fn ident(name: &str) -> TokenKind {
    TokenKind::Ident(name.to_owned())
}

fn str_parts(parts: Vec<StrPart>) -> TokenKind {
    TokenKind::Str(parts)
}

fn lit(text: &str) -> StrPart {
    StrPart::Lit(text.to_owned())
}

#[test]
fn keywords_lexes_every_reserved_keyword() {
    let source = "fn intent how given ensure when via priority data enum let mut if else \
                  match for in while return break continue use as try fail true false none \
                  and or not pub test";
    let expected: Vec<TokenKind> = [
        Keyword::Fn,
        Keyword::Intent,
        Keyword::How,
        Keyword::Given,
        Keyword::Ensure,
        Keyword::When,
        Keyword::Via,
        Keyword::Priority,
        Keyword::Data,
        Keyword::Enum,
        Keyword::Let,
        Keyword::Mut,
        Keyword::If,
        Keyword::Else,
        Keyword::Match,
        Keyword::For,
        Keyword::In,
        Keyword::While,
        Keyword::Return,
        Keyword::Break,
        Keyword::Continue,
        Keyword::Use,
        Keyword::As,
        Keyword::Try,
        Keyword::Fail,
        Keyword::True,
        Keyword::False,
        Keyword::NoneLit,
        Keyword::And,
        Keyword::Or,
        Keyword::Not,
        Keyword::Pub,
        Keyword::Test,
    ]
    .iter()
    .map(|k| TokenKind::Kw(*k))
    .collect();
    assert_eq!(lex_kinds(source), expected);
}

#[test]
fn keywords_py_is_lexed_as_an_identifier() {
    assert_eq!(lex_kinds("py"), vec![ident("py")]);
    assert_eq!(
        lex_kinds("py.eval"),
        vec![ident("py"), TokenKind::Dot, ident("eval")]
    );
}

#[test]
fn keywords_identifiers_allow_underscores_and_digits() {
    assert_eq!(
        lex_kinds("_x1 __ f2b"),
        vec![ident("_x1"), ident("__"), ident("f2b")]
    );
}

#[test]
fn keywords_keyword_prefix_is_not_a_keyword() {
    assert_eq!(lex_kinds("fnx"), vec![ident("fnx")]);
}
