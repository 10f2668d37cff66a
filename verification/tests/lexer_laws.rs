use orvane::diagnostic::Diagnostic;
use orvane::dump::dump_tokens;
use orvane::lexer::{finish_lex, lex, FloatValue, Token};
use orvane::source::{SourceFile, SourceMap};

/// Lexes `text` through a source map, completing float literals.
fn lex_text(text: &str) -> (SourceFile, Vec<Token>, Vec<Diagnostic>) {
    let mut sources = SourceMap::new();
    let id = sources.add("law.orv", text);
    let file = sources.file(id).expect("just added").clone();
    let lexed = lex(&file);
    let values: Vec<Option<FloatValue>> = lexed
        .floats
        .iter()
        .map(|f| match f.text.parse::<f64>() {
            Ok(v) if v.is_finite() => Some(FloatValue { bits: v.to_bits(), display: format!("{}", v) }),
            _ => None,
        })
        .collect();
    let (tokens, diagnostics) = finish_lex(lexed, values);
    (file, tokens, diagnostics)
}

/// The dump without its `line:col` prefixes.
fn kind_lines(file: &SourceFile, tokens: &[Token]) -> Vec<String> {
    dump_tokens(file, tokens)
        .lines()
        .map(|line| match line.split_once(' ') {
            Some((_position, kind)) => kind.to_owned(),
            None => line.to_owned(),
        })
        .collect()
}

fn reports(diagnostics: &[Diagnostic]) -> Vec<(&'static str, String)> {
    diagnostics.iter().map(|d| (d.code, d.message.clone())).collect()
}

const SAMPLES: [&str; 8] = [
    "fn main() {\n    let x = 1_0\n}\n",
    "a // comment\nb /* block\ncomment */ c\n",
    "\"abc\nfn main",
    "\"a{f(\"b\")}c\"\n\"{\n}\"",
    "x = \"a\\\nb\"\n1.5e3\n0x\n",
    "#{\n1: 2\n}\n(a,\nb)\n",
    "\u{feff}fn main\n\u{feff}x\n",
    "\"unterminated {interp\n/* open",
];

#[test]
fn crlf_lexes_to_the_same_kinds_and_reports() {
    for text in SAMPLES {
        let crlf = text.replace('\n', "\r\n");
        let (lf_file, lf_tokens, lf_diags) = lex_text(text);
        let (crlf_file, crlf_tokens, crlf_diags) = lex_text(&crlf);
        assert_eq!(kind_lines(&lf_file, &lf_tokens), kind_lines(&crlf_file, &crlf_tokens), "kinds for {text:?}");
        assert_eq!(reports(&lf_diags), reports(&crlf_diags), "reports for {text:?}");
    }
}

#[test]
fn spans_start_and_end_on_character_boundaries() {
    for text in ["é x \"日本語\" 😀 y", "\"a\\é\" 名前", "\u{feff}\u{feff}z", "1é2 # ! `"] {
        let (file, tokens, diagnostics) = lex_text(text);
        let body = file.text.clone();
        for token in &tokens {
            assert!(body.is_char_boundary(token.span.start as usize), "{text:?}: {token:?}");
            assert!(body.is_char_boundary(token.span.end as usize), "{text:?}: {token:?}");
            assert!(token.span.start <= token.span.end);
        }
        for diagnostic in &diagnostics {
            assert!(body.is_char_boundary(diagnostic.primary.start as usize), "{text:?}: {diagnostic:?}");
            assert!(body.is_char_boundary(diagnostic.primary.end as usize), "{text:?}: {diagnostic:?}");
        }
    }
}

#[test]
fn diagnostic_messages_are_single_lines() {
    for text in ["\"\\\n\"", "\"\\\u{7}\"", "\"\\\t\"", "\"a\nb", "/* x", "\"{\\\"a\\\"}\"", "1e999", "é"] {
        let (_, _, diagnostics) = lex_text(text);
        assert!(!diagnostics.is_empty(), "{text:?} should report something");
        for diagnostic in &diagnostics {
            assert!(!diagnostic.message.contains('\n') && !diagnostic.message.contains('\r'), "{:?}", diagnostic.message);
        }
    }
}

#[test]
fn only_the_last_token_is_eof() {
    for text in ["fn main() {\n  x\n}\n", "\"a{b}\" 1.5 /* c */ -->", "", "\u{feff}\u{feff}z"] {
        let (_file, tokens, _diagnostics) = lex_text(text);
        let (last, rest) = tokens.split_last().expect("at least Eof");
        assert!(last.is_eof());
        assert!(rest.iter().all(|t| !t.is_eof()), "{text:?}");
    }
}

#[test]
fn unknown_escape_messages_stay_on_one_line() {
    for text in ["\"\\\u{7}\"", "\"\\\u{2028}\"", "\"\\q\""] {
        let (_file, _tokens, diagnostics) = lex_text(text);
        assert_eq!(diagnostics.len(), 1, "{text:?}");
        assert!(!diagnostics[0].message.contains('\n') && !diagnostics[0].message.contains('\r'));
    }
}
