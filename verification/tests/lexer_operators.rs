#![allow(unused_imports, dead_code)]

use orvane::diagnostic::Diagnostic;
use orvane::lexer::{FloatValue, Keyword, StrPart, Token, TokenKind, finish_lex, lex};
use orvane::source::{SourceFile, SourceMap};
use orvane::span::{FileId, Span};

/// The value the lexer is handed for a finite float literal.
fn float_value(v: f64) -> FloatValue {
    FloatValue { bits: v.to_bits(), display: format!("{}", v) }
}

fn float_kind(v: f64) -> TokenKind {
    TokenKind::Float(float_value(v))
}

/// Lexes a file and completes its float literals with their parsed values.
fn lex_file(file: &SourceFile) -> (Vec<Token>, Vec<Diagnostic>) {
    let lexed = lex(file);
    let values: Vec<Option<FloatValue>> = lexed
        .floats
        .iter()
        .map(|f| match f.text.parse::<f64>() {
            Ok(v) if v.is_finite() => Some(float_value(v)),
            _ => None,
        })
        .collect();
    finish_lex(lexed, values)
}

/// Lexes `text`, also returning the source map and file so callers can render.
fn lex_with_sources(text: &str) -> (SourceMap, SourceFile, Vec<Token>, Vec<Diagnostic>) {
    let mut sources = SourceMap::new();
    let id = sources.add("test.orv", text);
    let file = match sources.file(id).cloned() {
        Some(file) => file,
        None => SourceFile::new(FileId(0), "test.orv", text),
    };
    let (tokens, diagnostics) = lex_file(&file);
    (sources, file, tokens, diagnostics)
}

/// Lexes `text`, returning tokens (including `Eof`) and diagnostics.
fn lex_src(text: &str) -> (Vec<Token>, Vec<Diagnostic>) {
    let (_sources, _file, tokens, diagnostics) = lex_with_sources(text);
    (tokens, diagnostics)
}

/// Lexes `text` and returns the tokens without the trailing `Eof`.
fn lex_kinds(text: &str) -> Vec<TokenKind> {
    let (tokens, diagnostics) = lex_src(text);
    assert!(
        diagnostics.is_empty(),
        "unexpected diagnostics for {text:?}: {diagnostics:?}"
    );
    tokens
        .into_iter()
        .filter(|t| !t.is_eof())
        .map(|t| t.kind)
        .collect()
}

/// Lexes `text`, asserting at least one diagnostic and returning their codes.
fn lex_errors(text: &str) -> Vec<&'static str> {
    let (_, diagnostics) = lex_src(text);
    assert!(
        !diagnostics.is_empty(),
        "expected at least one diagnostic for {text:?}"
    );
    diagnostics.iter().map(|d| d.code).collect()
}

fn ident(name: &str) -> TokenKind {
    TokenKind::Ident(name.to_owned())
}

fn str_parts(parts: Vec<StrPart>) -> TokenKind {
    TokenKind::Str(parts)
}

fn lit(text: &str) -> StrPart {
    StrPart::Lit(text.to_owned())
}

#[test]
fn operators_lexes_all_operators() {
    let source =
        "( ) [ ] { } #{ , : ; . .. ..= -> => ? ?. ?? = == != < <= > >= + - * / % += -= *= /=";
    let expected = vec![
        TokenKind::LParen,
        TokenKind::RParen,
        TokenKind::LBracket,
        TokenKind::RBracket,
        TokenKind::LBrace,
        TokenKind::RBrace,
        TokenKind::HashLBrace,
        TokenKind::Comma,
        TokenKind::Colon,
        TokenKind::Semicolon,
        TokenKind::Dot,
        TokenKind::DotDot,
        TokenKind::DotDotEq,
        TokenKind::Arrow,
        TokenKind::FatArrow,
        TokenKind::Question,
        TokenKind::QuestionDot,
        TokenKind::QuestionQuestion,
        TokenKind::Eq,
        TokenKind::EqEq,
        TokenKind::NotEq,
        TokenKind::Lt,
        TokenKind::Le,
        TokenKind::Gt,
        TokenKind::Ge,
        TokenKind::Plus,
        TokenKind::Minus,
        TokenKind::Star,
        TokenKind::Slash,
        TokenKind::Percent,
        TokenKind::PlusEq,
        TokenKind::MinusEq,
        TokenKind::StarEq,
        TokenKind::SlashEq,
    ];
    assert_eq!(lex_kinds(source), expected);
}

#[test]
fn operators_maximal_munch_prefers_longer_operators() {
    assert_eq!(lex_kinds("..="), vec![TokenKind::DotDotEq]);
    assert_eq!(lex_kinds("?."), vec![TokenKind::QuestionDot]);
    assert_eq!(lex_kinds("??"), vec![TokenKind::QuestionQuestion]);
    assert_eq!(
        lex_kinds("a ?? b"),
        vec![ident("a"), TokenKind::QuestionQuestion, ident("b")]
    );
    assert_eq!(lex_kinds("="), vec![TokenKind::Eq]);
    assert_eq!(lex_kinds("=>"), vec![TokenKind::FatArrow]);
    assert_eq!(lex_kinds("=="), vec![TokenKind::EqEq]);
    assert_eq!(lex_kinds("->"), vec![TokenKind::Arrow]);
}

#[test]
fn operators_triple_dash_is_not_a_single_operator() {
    // `-->` is not an operator of its own: it is `-` followed by `->`.
    assert_eq!(
        lex_kinds("a-->b"),
        vec![ident("a"), TokenKind::Minus, TokenKind::Arrow, ident("b")]
    );
    // Sanity: the intermediate `--` is still two `-`, never a token.
    assert_eq!(
        lex_kinds("a--b"),
        vec![ident("a"), TokenKind::Minus, TokenKind::Minus, ident("b")]
    );
}

#[test]
fn operators_hash_without_brace_is_an_error() {
    let codes = lex_errors("#");
    assert_eq!(codes, vec!["E0001"]);
}

#[test]
fn operators_invalid_characters_report_e0001_and_continue() {
    for source in ["!", "&", "|", "@", "$", "\\", "`"] {
        let codes = lex_errors(source);
        assert_eq!(codes, vec!["E0001"], "for {source:?}");
    }
    // Scanning resumes after the bad character.
    let (tokens, diagnostics) = lex_src("a @ b");
    assert_eq!(diagnostics.len(), 1);
    assert_eq!(diagnostics[0].code, "E0001");
    let kinds: Vec<TokenKind> = tokens
        .into_iter()
        .filter(|t| !t.is_eof())
        .map(|t| t.kind)
        .collect();
    assert_eq!(kinds, vec![ident("a"), ident("b")]);
}

#[test]
fn operators_non_ascii_outside_strings_reports_e0001_with_ascii_help() {
    let (_, diagnostics) = lex_src("let á = 1");
    assert_eq!(diagnostics.len(), 1);
    assert_eq!(diagnostics[0].code, "E0001");
    let help = diagnostics[0].help.clone().unwrap_or_default();
    assert!(help.contains("ASCII-only"), "got help: {help}");
}
