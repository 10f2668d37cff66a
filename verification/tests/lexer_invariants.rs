#![allow(unused_imports, dead_code)]

use orvane::diagnostic::Diagnostic;
use orvane::lexer::{FloatValue, Keyword, StrPart, Token, TokenKind, finish_lex, lex};
use orvane::source::{SourceFile, SourceMap};
use orvane::span::{FileId, Span};

/// The value the lexer is handed for a finite float literal.
fn float_value(v: f64) -> FloatValue {
    FloatValue { bits: v.to_bits(), display: format!("{}", v) }
}

fn float_kind(v: f64) -> TokenKind {
    TokenKind::Float(float_value(v))
}

/// Lexes a file and completes its float literals with their parsed values.
fn lex_file(file: &SourceFile) -> (Vec<Token>, Vec<Diagnostic>) {
    let lexed = lex(file);
    let values: Vec<Option<FloatValue>> = lexed
        .floats
        .iter()
        .map(|f| match f.text.parse::<f64>() {
            Ok(v) if v.is_finite() => Some(float_value(v)),
            _ => None,
        })
        .collect();
    finish_lex(lexed, values)
}

/// Lexes `text`, also returning the source map and file so callers can render.
fn lex_with_sources(text: &str) -> (SourceMap, SourceFile, Vec<Token>, Vec<Diagnostic>) {
    let mut sources = SourceMap::new();
    let id = sources.add("test.orv", text);
    let file = match sources.file(id).cloned() {
        Some(file) => file,
        None => SourceFile::new(FileId(0), "test.orv", text),
    };
    let (tokens, diagnostics) = lex_file(&file);
    (sources, file, tokens, diagnostics)
}

/// Lexes `text`, returning tokens (including `Eof`) and diagnostics.
fn lex_src(text: &str) -> (Vec<Token>, Vec<Diagnostic>) {
    let (_sources, _file, tokens, diagnostics) = lex_with_sources(text);
    (tokens, diagnostics)
}

/// Lexes `text` and returns the tokens without the trailing `Eof`.
fn lex_kinds(text: &str) -> Vec<TokenKind> {
    let (tokens, diagnostics) = lex_src(text);
    assert!(
        diagnostics.is_empty(),
        "unexpected diagnostics for {text:?}: {diagnostics:?}"
    );
    tokens
        .into_iter()
        .filter(|t| !t.is_eof())
        .map(|t| t.kind)
        .collect()
}

/// Lexes `text`, asserting at least one diagnostic and returning their codes.
fn lex_errors(text: &str) -> Vec<&'static str> {
    let (_, diagnostics) = lex_src(text);
    assert!(
        !diagnostics.is_empty(),
        "expected at least one diagnostic for {text:?}"
    );
    diagnostics.iter().map(|d| d.code).collect()
}

fn ident(name: &str) -> TokenKind {
    TokenKind::Ident(name.to_owned())
}

fn str_parts(parts: Vec<StrPart>) -> TokenKind {
    TokenKind::Str(parts)
}

fn lit(text: &str) -> StrPart {
    StrPart::Lit(text.to_owned())
}

#[test]
fn invariants_always_ends_with_eof() {
    for source in ["", " ", "fn main() {}", "\n\n", "/* unterminated"] {
        let (tokens, _) = lex_src(source);
        match tokens.last() {
            Some(last) => assert!(last.is_eof(), "for {source:?}"),
            None => panic!("token stream for {source:?} must not be empty"),
        }
    }
}

#[test]
fn invariants_spans_are_ordered_and_within_the_file() {
    let source = "fn main() {\n    let x = 1_0\n}\n";
    let (tokens, _) = lex_src(source);
    assert_spans_are_valid(&tokens, source.len());
}

#[test]
fn invariants_token_spans_match_the_source_text() {
    let source = "fn main";
    let (tokens, _) = lex_src(source);
    // `fn` covers bytes 0..2 and `main` covers 3..7.
    assert_eq!((tokens[0].span.start, tokens[0].span.end), (0, 2));
    assert_eq!((tokens[1].span.start, tokens[1].span.end), (3, 7));
}

#[test]
fn invariants_empty_input_has_only_eof() {
    let (tokens, diagnostics) = lex_src("");
    assert!(diagnostics.is_empty());
    assert_eq!(tokens.len(), 1);
    assert!(tokens[0].is_eof());
}

#[test]
fn invariants_keyword_helper_reflects_the_kind() {
    let (tokens, _) = lex_src("fn x");
    assert_eq!(tokens[0].keyword(), Some(Keyword::Fn));
    assert_eq!(tokens[1].keyword(), None);
}

/// Asserts the span invariants: in bounds, on char boundaries, ordered, disjoint.
fn assert_spans_are_valid(tokens: &[Token], file_len: usize) {
    let mut previous_end = 0u32;
    for token in tokens {
        let (start, end) = (token.span.start, token.span.end);
        assert!(
            (start as usize) <= file_len && (end as usize) <= file_len,
            "span {start}..{end} out of bounds for a {file_len}-byte file"
        );
        assert!(start <= end, "span {start}..{end} is backwards");
        assert!(
            start >= previous_end,
            "span {start}..{end} overlaps the previous token ending at {previous_end}"
        );
        previous_end = end;
    }
}
