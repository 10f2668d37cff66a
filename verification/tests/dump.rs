#![allow(unused_imports, dead_code)]

use orvane::diagnostic::Diagnostic;
use orvane::lexer::{FloatValue, Keyword, StrPart, Token, TokenKind, finish_lex, lex};
use orvane::source::{SourceFile, SourceMap};
use orvane::span::{FileId, Span};
use orvane::dump::{dump_tokens, kind_text};

/// The value the lexer is handed for a finite float literal.
fn float_value(v: f64) -> FloatValue {
    FloatValue { bits: v.to_bits(), display: format!("{}", v) }
}

fn float_kind(v: f64) -> TokenKind {
    TokenKind::Float(float_value(v))
}

/// Lexes a file and completes its float literals with their parsed values.
fn lex_file(file: &SourceFile) -> (Vec<Token>, Vec<Diagnostic>) {
    let lexed = lex(file);
    let values: Vec<Option<FloatValue>> = lexed
        .floats
        .iter()
        .map(|f| match f.text.parse::<f64>() {
            Ok(v) if v.is_finite() => Some(float_value(v)),
            _ => None,
        })
        .collect();
    finish_lex(lexed, values)
}

/// Lexes `text`, also returning the source map and file so callers can render.
fn lex_with_sources(text: &str) -> (SourceMap, SourceFile, Vec<Token>, Vec<Diagnostic>) {
    let mut sources = SourceMap::new();
    let id = sources.add("test.orv", text);
    let file = match sources.file(id).cloned() {
        Some(file) => file,
        None => SourceFile::new(FileId(0), "test.orv", text),
    };
    let (tokens, diagnostics) = lex_file(&file);
    (sources, file, tokens, diagnostics)
}

/// Lexes `text`, returning tokens (including `Eof`) and diagnostics.
fn lex_src(text: &str) -> (Vec<Token>, Vec<Diagnostic>) {
    let (_sources, _file, tokens, diagnostics) = lex_with_sources(text);
    (tokens, diagnostics)
}

/// Lexes `text` and returns the tokens without the trailing `Eof`.
fn lex_kinds(text: &str) -> Vec<TokenKind> {
    let (tokens, diagnostics) = lex_src(text);
    assert!(
        diagnostics.is_empty(),
        "unexpected diagnostics for {text:?}: {diagnostics:?}"
    );
    tokens
        .into_iter()
        .filter(|t| !t.is_eof())
        .map(|t| t.kind)
        .collect()
}

/// Lexes `text`, asserting at least one diagnostic and returning their codes.
fn lex_errors(text: &str) -> Vec<&'static str> {
    let (_, diagnostics) = lex_src(text);
    assert!(
        !diagnostics.is_empty(),
        "expected at least one diagnostic for {text:?}"
    );
    diagnostics.iter().map(|d| d.code).collect()
}

fn ident(name: &str) -> TokenKind {
    TokenKind::Ident(name.to_owned())
}

fn str_parts(parts: Vec<StrPart>) -> TokenKind {
    TokenKind::Str(parts)
}

fn lit(text: &str) -> StrPart {
    StrPart::Lit(text.to_owned())
}

fn dump(text: &str) -> String {
    let mut sources = SourceMap::new();
    let id = sources.add("t.orv", text);
    let file = sources.file(id).cloned();
    let file = match file {
        Some(file) => file,
        None => panic!("file missing"),
    };
    let (tokens, _) = lex_file(&file);
    dump_tokens(&file, &tokens)
}

#[test]
fn renders_kinds_with_payloads() {
    assert_eq!(dump("fn"), "1:1 Kw(fn)\n1:3 Eof\n");
    assert_eq!(dump("main"), "1:1 Ident(main)\n1:5 Eof\n");
    assert_eq!(dump("42"), "1:1 Int(42)\n1:3 Eof\n");
    assert_eq!(dump("1.5"), "1:1 Float(1.5)\n1:4 Eof\n");
}

#[test]
fn renders_integral_floats_with_a_decimal_point() {
    assert_eq!(dump("1.0"), "1:1 Float(1.0)\n1:4 Eof\n");
}

#[test]
fn column_is_one_based_in_chars() {
    // `á` is invalid (non-ASCII identifier), so no token is produced, but
    // Eof still reports column 2 for byte offset 2: columns are in chars.
    assert_eq!(dump("á"), "1:2 Eof\n");
    // A multi-byte char inside a string shifts the *byte* span but the
    // reported column stays a char count.
    assert_eq!(dump("\"á\""), "1:1 Str[Lit(\"á\")]\n1:4 Eof\n");
}

#[test]
fn renders_newlines_and_spans_across_lines() {
    // A `Newline` is a zero-width span at the position *after* the line
    // break, so it reports the first column of the next line. That is the
    // position the parser resumes from, and it keeps spans disjoint.
    assert_eq!(
        dump("a\nb"),
        "1:1 Ident(a)\n2:1 Newline\n2:1 Ident(b)\n2:2 Eof\n"
    );
}

#[test]
fn renders_strings_with_parts() {
    assert_eq!(
        dump("\"Olá {name}\""),
        "1:1 Str[Lit(\"Olá \"), Expr(\"name\")]\n1:13 Eof\n"
    );
}

#[test]
fn renders_escapes_in_literal_parts() {
    assert_eq!(dump(r#""a\nb""#), "1:1 Str[Lit(\"a\\nb\")]\n1:7 Eof\n");
}

#[test]
fn renders_punctuation() {
    assert_eq!(dump("#{"), "1:1 HashLBrace\n1:3 Eof\n");
    assert_eq!(dump("..="), "1:1 DotDotEq\n1:4 Eof\n");
    assert_eq!(dump("??"), "1:1 QuestionQuestion\n1:3 Eof\n");
}
