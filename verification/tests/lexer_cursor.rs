#![allow(unused_imports)]

use orvane::lexer::cursor::Cursor;
use orvane::lexer::string::{scan_string, StringOutcome};
use orvane::lexer::Keyword;
use orvane::span::FileId;

#[test]
fn skips_utf8_bom() {
    let c = Cursor::new("\u{feff}fn");
    assert_eq!(c.pos(), 0);
    assert_eq!(c.peek(), Some(b'f'));
    assert_eq!(c.text(), "fn");
}

#[test]
fn peek_and_advance() {
    let mut c = Cursor::new("ab");
    assert_eq!(c.peek(), Some(b'a'));
    c.advance(1);
    assert_eq!(c.peek(), Some(b'b'));
    c.advance(1);
    assert_eq!(c.peek(), None);
    assert!(c.is_eof());
}

#[test]
fn advance_clamps_past_end() {
    let mut c = Cursor::new("ab");
    c.advance(999);
    assert_eq!(c.pos(), 2);
    assert!(c.is_eof());
    c.advance(1);
    assert_eq!(c.pos(), 2);
}

#[test]
fn bump_char_uses_utf8_len() {
    let mut c = Cursor::new("é!");
    assert_eq!(c.bump_char(), Some('é'));
    assert_eq!(c.pos(), 2);
    assert_eq!(c.bump_char(), Some('!'));
    assert_eq!(c.bump_char(), None);
}

#[test]
fn rest_slices_by_byte_offset() {
    let mut c = Cursor::new("abc");
    c.advance(1);
    assert_eq!(c.rest(), "bc");
    assert_eq!(c.rest_bytes(), b"bc");
}

#[test]
fn rest_is_valid_utf8_after_multibyte_advance() {
    let mut c = Cursor::new("日本");
    c.bump_char();
    assert_eq!(c.rest(), "本");
    c.bump_char();
    assert_eq!(c.rest(), "");
}

#[test]
fn peek_byte_at_offset_is_bounds_checked() {
    let c = Cursor::new("ab");
    assert_eq!(c.peek_byte(1), Some(b'b'));
    assert_eq!(c.peek_byte(2), None);
    assert_eq!(c.peek_byte(usize::MAX), None);
}

#[test]
fn empty_input_is_eof_immediately() {
    let c = Cursor::new("");
    assert!(c.is_eof());
    assert_eq!(c.peek_char(), None);
}

#[test]
fn advancing_into_a_character_clamps_to_the_end() {
    let mut c = Cursor::new("é");
    assert_eq!(c.pos(), 0);
    c.advance(1);
    assert_eq!(c.pos(), 2);
    assert!(c.is_eof());
}

#[test]
fn advancing_past_the_end_clamps_to_the_end() {
    let mut c = Cursor::new("ab");
    c.advance(1);
    assert_eq!(c.pos(), 1);
    c.advance(999);
    assert_eq!(c.pos(), 2);
    assert!(c.is_eof());
}

#[test]
fn advancing_onto_a_boundary_moves_by_the_count() {
    let mut c = Cursor::new("aé");
    c.advance(1);
    assert_eq!(c.pos(), 1);
    assert_eq!(c.peek_char(), Some('é'));
}

#[test]
fn the_source_map_strips_one_leading_bom() {
    let mut sources = orvane::source::SourceMap::new();
    let one = sources.add("a.orv", "\u{feff}fn");
    let two = sources.add("b.orv", "\u{feff}\u{feff}x");
    let plain = sources.add("c.orv", "x\u{feff}");
    assert_eq!(sources.file(one).unwrap().text(), "fn");
    assert_eq!(sources.file(two).unwrap().text(), "\u{feff}x");
    assert_eq!(sources.file(plain).unwrap().text(), "x\u{feff}");
}

#[test]
fn a_string_with_a_backslash_in_an_interpolation_is_invalid() {
    let text = r#""{f(\"a\")}""#;
    let mut c = Cursor::new(text);
    let mut diagnostics = Vec::new();
    let outcome = scan_string(&mut c, FileId(0), &mut diagnostics);
    assert_eq!(diagnostics.len(), 1);
    assert_eq!(diagnostics[0].code, "E0006");
    match outcome {
        StringOutcome::Invalid(parts) => assert_eq!(parts.len(), 1),
        StringOutcome::Parts(_) => panic!("a reported literal must be Invalid"),
    }
    let mut c = Cursor::new(r#""a{b}c""#);
    let mut diagnostics = Vec::new();
    assert!(matches!(scan_string(&mut c, FileId(0), &mut diagnostics), StringOutcome::Parts(_)));
    assert!(diagnostics.is_empty());
}

#[test]
fn keywords_read_back_from_their_spelling() {
    for kw in [Keyword::Fn, Keyword::If, Keyword::In, Keyword::NoneLit, Keyword::Test, Keyword::Priority] {
        assert_eq!(Keyword::from_str(kw.as_str()), Some(kw));
    }
    assert_eq!(Keyword::from_str("py"), None);
}
