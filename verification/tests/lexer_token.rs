#![allow(unused_imports)]

use orvane::lexer::{Keyword, StrPart, Token, TokenKind};
use orvane::span::{FileId, Span};

fn span() -> Span {
    Span::new(FileId(0), 0, 1)
}

#[test]
fn keyword_table_covers_spec_list() {
    let spec = [
        "fn", "intent", "how", "given", "ensure", "when", "via", "priority", "data", "enum",
        "let", "mut", "if", "else", "match", "for", "in", "while", "return", "break",
        "continue", "use", "as", "try", "fail", "true", "false", "none", "and", "or", "not",
        "pub", "test",
    ];
    for text in spec {
        let kw = Keyword::from_str(text).unwrap_or_else(|| panic!("missing keyword {text}"));
        assert_eq!(kw.as_str(), text);
    }
}

#[test]
fn py_is_not_a_reserved_keyword() {
    assert_eq!(Keyword::from_str("py"), None);
}

#[test]
fn keyword_lookup_rejects_identifiers() {
    for text in ["py", "main", "Fn", "FN", "lets", "if_", "none2", ""] {
        assert_eq!(Keyword::from_str(text), None, "{text} must not be a keyword");
    }
}

#[test]
fn token_exposes_keyword() {
    let t = Token::new(TokenKind::Kw(Keyword::Fn), span());
    assert_eq!(t.keyword(), Some(Keyword::Fn));
    assert!(!t.is_newline());
    assert!(!t.is_eof());

    let i = Token::new(TokenKind::Ident("fn".to_owned()), span());
    assert_eq!(i.keyword(), None);
}

#[test]
fn newline_and_eof_predicates() {
    assert!(Token::new(TokenKind::Newline, span()).is_newline());
    assert!(Token::new(TokenKind::Eof, span()).is_eof());
    assert!(!Token::new(TokenKind::Eof, span()).is_newline());
}

#[test]
fn str_part_variants_are_distinct() {
    let lit = StrPart::Lit("a".to_owned());
    let expr = StrPart::Expr {
        src: "a".to_owned(),
        span: span(),
    };
    assert_ne!(lit, expr);
}
