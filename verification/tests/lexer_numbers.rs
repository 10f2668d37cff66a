#![allow(unused_imports, dead_code)]

use orvane::diagnostic::Diagnostic;
use orvane::lexer::{FloatValue, Keyword, StrPart, Token, TokenKind, finish_lex, lex};
use orvane::source::{SourceFile, SourceMap};
use orvane::span::{FileId, Span};

/// The value the lexer is handed for a finite float literal.
fn float_value(v: f64) -> FloatValue {
    FloatValue { bits: v.to_bits(), display: format!("{}", v) }
}

fn float_kind(v: f64) -> TokenKind {
    TokenKind::Float(float_value(v))
}

/// Lexes a file and completes its float literals with their parsed values.
fn lex_file(file: &SourceFile) -> (Vec<Token>, Vec<Diagnostic>) {
    let lexed = lex(file);
    let values: Vec<Option<FloatValue>> = lexed
        .floats
        .iter()
        .map(|f| match f.text.parse::<f64>() {
            Ok(v) if v.is_finite() => Some(float_value(v)),
            _ => None,
        })
        .collect();
    finish_lex(lexed, values)
}

/// Lexes `text`, also returning the source map and file so callers can render.
fn lex_with_sources(text: &str) -> (SourceMap, SourceFile, Vec<Token>, Vec<Diagnostic>) {
    let mut sources = SourceMap::new();
    let id = sources.add("test.orv", text);
    let file = match sources.file(id).cloned() {
        Some(file) => file,
        None => SourceFile::new(FileId(0), "test.orv", text),
    };
    let (tokens, diagnostics) = lex_file(&file);
    (sources, file, tokens, diagnostics)
}

/// Lexes `text`, returning tokens (including `Eof`) and diagnostics.
fn lex_src(text: &str) -> (Vec<Token>, Vec<Diagnostic>) {
    let (_sources, _file, tokens, diagnostics) = lex_with_sources(text);
    (tokens, diagnostics)
}

/// Lexes `text` and returns the tokens without the trailing `Eof`.
fn lex_kinds(text: &str) -> Vec<TokenKind> {
    let (tokens, diagnostics) = lex_src(text);
    assert!(
        diagnostics.is_empty(),
        "unexpected diagnostics for {text:?}: {diagnostics:?}"
    );
    tokens
        .into_iter()
        .filter(|t| !t.is_eof())
        .map(|t| t.kind)
        .collect()
}

/// Lexes `text`, asserting at least one diagnostic and returning their codes.
fn lex_errors(text: &str) -> Vec<&'static str> {
    let (_, diagnostics) = lex_src(text);
    assert!(
        !diagnostics.is_empty(),
        "expected at least one diagnostic for {text:?}"
    );
    diagnostics.iter().map(|d| d.code).collect()
}

fn ident(name: &str) -> TokenKind {
    TokenKind::Ident(name.to_owned())
}

fn str_parts(parts: Vec<StrPart>) -> TokenKind {
    TokenKind::Str(parts)
}

fn lit(text: &str) -> StrPart {
    StrPart::Lit(text.to_owned())
}

#[test]
fn numbers_lexes_simple_int() {
    assert_eq!(lex_kinds("123"), vec![TokenKind::Int(123)]);
}

#[test]
fn numbers_lexes_int_with_separators() {
    assert_eq!(lex_kinds("1_000"), vec![TokenKind::Int(1000)]);
}

#[test]
fn numbers_lexes_hex_and_binary() {
    assert_eq!(lex_kinds("0xFF"), vec![TokenKind::Int(255)]);
    assert_eq!(lex_kinds("0b1010"), vec![TokenKind::Int(10)]);
    assert_eq!(lex_kinds("0x1_0"), vec![TokenKind::Int(16)]);
}

#[test]
fn radix_prefixes_and_exponents_accept_uppercase() {
    // `0X`/`0B` and `E` are accepted alongside their lowercase forms.
    assert_eq!(lex_kinds("0XFF"), vec![TokenKind::Int(255)]);
    assert_eq!(lex_kinds("0B1010"), vec![TokenKind::Int(10)]);
    assert_eq!(lex_kinds("1E10"), vec![float_kind(1e10)]);
    assert_eq!(lex_kinds("1E-3"), vec![float_kind(1e-3)]);
}

#[test]
fn i64_min_cannot_be_written_as_a_literal() {
    // `9223372036854775808` does not fit in `i64`, so `-9223372036854775808`
    // lexes as `Minus` plus an `E0005`. By design there is
    // no literal for `i64::MIN`, and the program writes `(-9223372036854775807) - 1`.
    let (tokens, diagnostics) = lex_src("-9223372036854775808");
    assert_eq!(diagnostics.len(), 1);
    assert_eq!(diagnostics[0].code, "E0005");
    let kinds: Vec<TokenKind> = tokens
        .into_iter()
        .filter(|t| !t.is_eof())
        .map(|t| t.kind)
        .collect();
    assert_eq!(
        kinds,
        vec![TokenKind::Minus, TokenKind::Int(0)],
        "best-effort tokens: minus plus the Int placeholder"
    );
}

#[test]
fn the_overflowing_magnitude_is_not_recoverable_from_tokens() {
    // This is *why* `Minus` is not folded into the literal:
    // the reject path keeps no trace of `9223372036854775808`, so no later
    // phase could reconstruct `i64::MIN`. Pinning it prevents someone from
    // "fixing" the missing literal by reading the source back.
    let (tokens, _) = lex_src("-9223372036854775808");
    let rendered: Vec<String> = tokens
        .iter()
        .map(|t| orvane::dump::kind_text(&t.kind))
        .collect();
    assert_eq!(rendered, vec!["Minus", "Int(0)", "Eof"]);
    assert!(
        !rendered.iter().any(|k| k.contains("9223372036854775808")),
        "the magnitude must not survive anywhere in the token stream"
    );
}

#[test]
fn i64_max_magnitude_is_fine() {
    // The lexer never applies the sign: `-x` is `Minus` then the literal, so
    // the literal carries the magnitude.
    assert_eq!(
        lex_kinds("-9223372036854775807"),
        vec![TokenKind::Minus, TokenKind::Int(i64::MAX)]
    );
}

#[test]
fn numbers_lexes_float_forms() {
    assert_eq!(lex_kinds("1.5"), vec![float_kind(1.5)]);
    assert_eq!(lex_kinds("2e10"), vec![float_kind(2e10)]);
    assert_eq!(lex_kinds("1e-3"), vec![float_kind(1e-3)]);
    assert_eq!(lex_kinds("1.5e+3"), vec![float_kind(1500.0)]);
    assert_eq!(lex_kinds("1_0.5"), vec![float_kind(10.5)]);
}

#[test]
fn numbers_dot_only_starts_a_fraction_before_a_digit() {
    // `1..5` is Int(1) DotDot Int(5), not a float followed by `.5`.
    assert_eq!(
        lex_kinds("1..5"),
        vec![TokenKind::Int(1), TokenKind::DotDot, TokenKind::Int(5)]
    );
    // `1.foo` is Int(1) Dot Ident(foo).
    assert_eq!(
        lex_kinds("1.foo"),
        vec![TokenKind::Int(1), TokenKind::Dot, ident("foo")]
    );
}

#[test]
fn numbers_lexes_i64_boundaries() {
    assert_eq!(
        lex_kinds("9223372036854775807"),
        vec![TokenKind::Int(i64::MAX)]
    );
    // One past `i64::MAX` is `E0005`, with a best-effort `Int(0)` token so the
    // stream still covers the literal.
    let (tokens, diagnostics) = lex_src("9223372036854775808");
    assert_eq!(diagnostics.len(), 1);
    assert_eq!(diagnostics[0].code, "E0005");
    let kinds: Vec<TokenKind> = tokens
        .into_iter()
        .filter(|t| !t.is_eof())
        .map(|t| t.kind)
        .collect();
    assert_eq!(kinds, vec![TokenKind::Int(0)]);
}

#[test]
fn numbers_invalid_numbers_report_e0005() {
    for source in ["0x", "0b", "1__0", "1_", "0x_1", "1e", "1e+"] {
        let codes = lex_errors(source);
        assert!(
            codes.contains(&"E0005"),
            "{source:?} should report E0005, got {codes:?}"
        );
    }
}

#[test]
fn float_out_of_range_reports_e0005_with_a_float_placeholder() {
    // `1e999` is not representable as a finite `f64`; it must not become
    // `Float(inf)`.
    for source in ["1e999", "1E999", "1.0e999", "1e309"] {
        let (tokens, diagnostics) = lex_src(source);
        assert_eq!(diagnostics.len(), 1, "for {source:?}");
        assert_eq!(diagnostics[0].code, "E0005", "for {source:?}");
        assert_eq!(
            diagnostics[0].help.as_deref(),
            Some("float literal out of range"),
            "for {source:?}"
        );
        let kinds: Vec<TokenKind> = tokens
            .into_iter()
            .filter(|t| !t.is_eof())
            .map(|t| t.kind)
            .collect();
        assert_eq!(kinds, vec![float_kind(0.0)], "for {source:?}");
    }
}

#[test]
fn largest_finite_float_is_still_accepted() {
    // `1e308` is finite, so it must not be rejected by the range check.
    let (tokens, diagnostics) = lex_src("1e308");
    assert!(diagnostics.is_empty(), "got: {diagnostics:?}");
    assert!(matches!(tokens.first().map(|t| &t.kind), Some(TokenKind::Float(v)) if f64::from_bits(v.bits).is_finite()));
}

#[test]
fn numbers_chained_dots_are_not_a_number_error() {
    // `1.2.3` is `Float(1.2)` `.` `Int(3)`: the first `.` starts a fraction,
    // the second follows a value and is a field access.
    assert_eq!(
        lex_kinds("1.2.3"),
        vec![float_kind(1.2), TokenKind::Dot, TokenKind::Int(3)]
    );
}

#[test]
fn float_dot_int_is_a_syntax_error_by_grammar() {
    // `Float Dot <not-IDENT>` is a *syntax* error, not a lexical one.
    // The grammar defines `field = "." IDENT`, so it cannot derive `1.2.3`; the
    // parser rejects it with `E0102`. The lexer must keep producing this
    // sequence, so the decision is not "fixed" in the wrong layer.
    let kinds = lex_kinds("1.2.3");
    assert_eq!(
        kinds,
        vec![float_kind(1.2), TokenKind::Dot, TokenKind::Int(3)]
    );
    assert!(
        matches!(kinds.get(2), Some(TokenKind::Int(_))),
        "the token after `.` is not an IDENT, which is what the parser rejects"
    );

    // The neighbouring forms *are* derivable and must not be caught by mistake:
    // `1.foo` is Int `Dot` Ident (a `field`), and `1..5` is Int `DotDot` Int.
    assert_eq!(
        lex_kinds("1.foo"),
        vec![TokenKind::Int(1), TokenKind::Dot, ident("foo")]
    );
    assert_eq!(
        lex_kinds("1..5"),
        vec![TokenKind::Int(1), TokenKind::DotDot, TokenKind::Int(5)]
    );
}
