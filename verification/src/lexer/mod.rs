//! The lexer.
//!
//! [`lex`] turns a [`SourceFile`] into a token stream plus diagnostics. It
//! never panics: every malformed input produces an `E00xx` diagnostic and
//! scanning resumes, and the stream always ends with [`TokenKind::Eof`].
//!
//! Float literals are the one thing the lexer cannot finish alone: their
//! values are doubles, which are computed by the caller from the texts in
//! [`Lexed::floats`] and handed to [`finish_lex`].

pub mod cursor;
pub mod laws;
pub mod line_endings;
pub mod model;
pub mod number;
pub mod string;
pub mod token;

pub use token::{FloatValue, Keyword, StrPart, Token, TokenKind};

use vstd::prelude::*;
use vstd::utf8::*;
use crate::diagnostic::{Diagnostic, DiagV, diags_view};
use crate::source::SourceFile;
use crate::span::{FileId, Span};
use crate::text::push_char;
use laws::{diags_on_boundaries, diags_within, messages_one_line, floats_point_at, lemma_lex_output, tokens_on_boundaries, tokens_within};
use cursor::{Cursor, boundary, byte_at, lemma_next_boundary};
use model::{innermost_match, lemma_innermost_match, unwind, lemma_block_end, lemma_line_comment_end, lex_loop, lex_spec, next_token_spec, trivia_loop, all_newlines, ascii_chars, Delimiter, FloatReqV, LexV, block_loop, closer_spec, flush_newline_spec,
    ident_end, invalid_char_spec, is_alnum, line_comment_end, number_step, op2_spec, opener_spec, punct_spec,
    scan_token_spec, tok, word_kind};
use number::{NumberOutcome, scan_number};
use string::{StringOutcome, bump_pos, lemma_bump_pos, push_diag, scan_string, sp};
use token::{KindV, Punct, TokenV, tokens_view};

verus! {

/// A float literal whose value the caller must supply.
#[derive(Clone, PartialEq, Eq, Debug)]
pub struct FloatLiteral {
    /// The literal's text without `_`, e.g. `1.5e3`.
    pub text: String,
    /// The index of its (placeholder) token.
    pub token: usize,
    /// How many diagnostics were reported before it.
    pub diagnostic: usize,
    pub span: Span,
}

impl View for FloatLiteral {
    type V = FloatReqV;

    open spec fn view(&self) -> FloatReqV {
        FloatReqV { text: self.text@, token: self.token as int, diagnostic: self.diagnostic as int, span: self.span }
    }
}

pub open spec fn floats_view(fs: Seq<FloatLiteral>) -> Seq<FloatReqV> {
    fs.map_values(|f: FloatLiteral| f@)
}

/// What the lexer produces before float values are known.
pub struct Lexed {
    /// The tokens; float literals hold a `0.0` placeholder.
    pub tokens: Vec<Token>,
    /// The diagnostics, in source order.
    pub diagnostics: Vec<Diagnostic>,
    /// The float literals, in source order.
    pub floats: Vec<FloatLiteral>,
}

/// ASCII bytes as a string.
fn ascii_string(v: &Vec<u8>) -> (s: String)
    ensures
        s@ == ascii_chars(v@),
{
    let mut s = String::new();
    let mut i: usize = 0;
    while i < v.len()
        invariant
            i <= v@.len(),
            s@ == ascii_chars(v@.take(i as int)),
        decreases v@.len() - i,
    {
        push_char(&mut s, v[i] as char);
        assert(ascii_chars(v@.take(i + 1)) =~= ascii_chars(v@.take(i as int)).push(v@[i as int] as char));
        i = i + 1;
    }
    assert(v@.take(v@.len() as int) =~= v@);
    s
}

/// Whether every token is a `Newline` (true when there are none).
fn all_newline(tokens: &Vec<Token>) -> (r: bool)
    ensures
        r == all_newlines(tokens_view(tokens@)),
{
    let mut i: usize = 0;
    while i < tokens.len()
        invariant
            i <= tokens@.len(),
            forall|k: int| 0 <= k < i ==> #[trigger] tokens_view(tokens@)[k].kind is Newline,
        decreases tokens@.len() - i,
    {
        assert(tokens_view(tokens@)[i as int] == tokens@[i as int]@);
        if !tokens[i].is_newline() {
            assert(!(tokens_view(tokens@)[i as int].kind is Newline));
            return false;
        }
        i = i + 1;
    }
    true
}

/// The lexer state machine.
pub struct Lexer<'a> {
    pub file: FileId,
    pub cursor: Cursor<'a>,
    pub tokens: Vec<Token>,
    pub diagnostics: Vec<Diagnostic>,
    pub delimiters: Vec<Delimiter>,
    /// Whether a `Newline` may be emitted at the current position.
    pub pending_newline: bool,
    pub floats: Vec<FloatLiteral>,
}

impl<'a> Lexer<'a> {
    pub open spec fn view(&self) -> LexV {
        LexV {
            pos: self.cursor.pos_spec(),
            tokens: tokens_view(self.tokens@),
            diags: diags_view(self.diagnostics@),
            delims: self.delimiters@,
            pending: self.pending_newline,
            floats: floats_view(self.floats@),
        }
    }

    pub open spec fn bytes(&self) -> Seq<u8> {
        self.cursor.bytes_spec()
    }

    /// Pushes a token covering `[start, end)`.
    fn push(&mut self, kind: TokenKind, start: usize, end: usize)
        ensures
            final(self).file == old(self).file,
            final(self).cursor == old(self).cursor,
            final(self).diagnostics == old(self).diagnostics,
            final(self).delimiters == old(self).delimiters,
            final(self).pending_newline == old(self).pending_newline,
            final(self).floats == old(self).floats,
            tokens_view(final(self).tokens@) == tokens_view(old(self).tokens@).push(
                tok(kind@, old(self).file, start as int, end as int)),
    {
        let t = Token::new(kind, Span::new(self.file, start as u32, end as u32));
        self.tokens.push(t);
        assert(tokens_view(self.tokens@) =~= tokens_view(old(self).tokens@).push(
            tok(kind@, old(self).file, start as int, end as int)));
    }

    // --- Trivia -------------------------------------------------------------

    /// `// ...` up to, but not including, the `\n`; a lone `\r` stays inside.
    fn line_comment(&mut self)
        requires
            old(self).cursor.wf(),
        ensures
            final(self).cursor.wf(),
            final(self).bytes() == old(self).bytes(),
            final(self).cursor.text_spec() == old(self).cursor.text_spec(),
            final(self).cursor.pos_spec() == line_comment_end(old(self).bytes(), old(self).cursor.pos_spec()),
            final(self)@ == (LexV { pos: final(self).cursor.pos_spec(), ..old(self)@ }),
            final(self).file == old(self).file,
    {
        loop
            invariant
                self.cursor.wf(),
                self.bytes() == old(self).bytes(),
                self.cursor.text_spec() == old(self).cursor.text_spec(),
                line_comment_end(self.bytes(), self.cursor.pos_spec())
                    == line_comment_end(old(self).bytes(), old(self).cursor.pos_spec()),
                self@ == (LexV { pos: self.cursor.pos_spec(), ..old(self)@ }),
                self.file == old(self).file,
            ensures
                self.cursor.wf(),
                self.bytes() == old(self).bytes(),
                self.cursor.text_spec() == old(self).cursor.text_spec(),
                line_comment_end(old(self).bytes(), old(self).cursor.pos_spec()) == self.cursor.pos_spec(),
                self@ == (LexV { pos: self.cursor.pos_spec(), ..old(self)@ }),
                self.file == old(self).file,
            decreases self.bytes().len() - self.cursor.pos_spec(),
        {
            match self.cursor.peek() {
                Some(c) => {
                    if c == 10u8 {
                        break;
                    }
                    self.cursor.skip_byte();
                },
                None => {
                    break;
                },
            }
        }
    }

    /// `/* ... */`, nestable. Returns `false` when the comment is
    /// unterminated (an `E0003` is reported and scanning stops).
    fn block_comment(&mut self) -> (ok: bool)
        requires
            old(self).cursor.wf(),
            old(self).cursor.pos_spec() + 1 < old(self).bytes().len(),
            old(self).bytes()[old(self).cursor.pos_spec() + 1] == 42u8,
        ensures
            final(self).cursor.wf(),
            final(self).bytes() == old(self).bytes(),
            final(self).cursor.text_spec() == old(self).cursor.text_spec(),
            final(self).file == old(self).file,
            ({
                let bc = block_loop(old(self).bytes(), old(self).file, old(self)@.pos, old(self)@.pos + 2, 1,
                    false, old(self)@.diags);
                &&& ok == bc.ok
                &&& final(self)@ == (LexV {
                    pos: bc.end,
                    diags: bc.diags,
                    pending: old(self)@.pending || (bc.ok && bc.saw_newline),
                    ..old(self)@
                })
            }),
    {
        let open = self.cursor.pos();
        let ghost b = self.bytes();
        let ghost s0 = self@;
        proof { self.cursor.lemma_wf_facts(); }
        self.cursor.advance(2);
        let mut depth: usize = 1;
        let mut saw_newline = false;
        while depth > 0
            invariant
                self.cursor.wf(),
                self.bytes() == b,
                b == old(self).bytes(),
                s0 == old(self)@,
                self.cursor.text_spec() == old(self).cursor.text_spec(),
                self.file == old(self).file,
                b.len() <= usize::MAX,
                open == s0.pos,
                1 <= depth <= self.cursor.pos_spec(),
                block_loop(b, self.file, open as int, open + 2, 1, false, s0.diags)
                    == block_loop(b, self.file, open as int, self.cursor.pos_spec(), depth as int, saw_newline,
                        self@.diags),
                self@ == (LexV { pos: self.cursor.pos_spec(), diags: self@.diags, ..s0 }),
            decreases b.len() - self.cursor.pos_spec(),
        {
            match self.cursor.peek() {
                None => {
                    let at = self.cursor.pos();
                    let d = Diagnostic::error("E0003", "unterminated block comment",
                        Span::new(self.file, open as u32, at as u32)).with_help("add a closing `*/`");
                    push_diag(&mut self.diagnostics, d);
                    return false;
                },
                Some(c) => {
                    if c == 42u8 && self.cursor.peek_byte(1) == Some(47u8) {
                        self.cursor.advance(2);
                        depth = depth - 1;
                        if depth == 0 {
                            if saw_newline {
                                self.pending_newline = true;
                            }
                            return true;
                        }
                    } else if c == 47u8 && self.cursor.peek_byte(1) == Some(42u8) {
                        self.cursor.advance(2);
                        depth = depth + 1;
                    } else if c == 10u8 {
                        // `\r\n` ends in this `\n`; a lone `\r` is no break.
                        self.cursor.advance(1);
                        saw_newline = true;
                    } else {
                        self.cursor.skip_byte();
                    }
                },
            }
        }
        true
    }

    /// Emits the pending `Newline` unless the innermost delimiter suppresses
    /// it; none is emitted before the first real token.
    fn flush_newline(&mut self)
        ensures
            final(self)@ == flush_newline_spec(old(self).file, old(self)@),
            final(self).cursor == old(self).cursor,
            final(self).file == old(self).file,
    {
        if !self.pending_newline {
            return;
        }
        self.pending_newline = false;
        let all = all_newline(&self.tokens);
        if all {
            return;
        }
        let n = self.delimiters.len();
        if n > 0 && self.delimiters[n - 1].suppresses_newline() {
            return;
        }
        let pos = self.cursor.pos();
        let t = Token::new(TokenKind::Newline, Span::point(self.file, pos as u32));
        self.tokens.push(t);
        assert(tokens_view(self.tokens@) =~= tokens_view(old(self).tokens@).push(
            tok(KindV::Newline, old(self).file, pos as int, pos as int)));
    }
}

impl<'a> Lexer<'a> {
    /// The parts of the state a scanning step never changes.
    pub open spec fn frame(&self, old: &Lexer<'a>) -> bool {
        &&& self.cursor.wf()
        &&& self.bytes() == old.bytes()
        &&& self.cursor.text_spec() == old.cursor.text_spec()
        &&& self.file == old.file
    }

    /// Emits a token of `len` bytes.
    fn punct(&mut self, kind: TokenKind, len: usize)
        requires
            old(self).cursor.wf(),
            0 < len,
            old(self).cursor.pos_spec() + len <= old(self).bytes().len(),
            old(self).bytes()[old(self).cursor.pos_spec() + len - 1] < 0x80,
        ensures
            final(self).frame(old(self)),
            final(self)@ == punct_spec(old(self).file, old(self)@, kind@, len as int),
    {
        let start = self.cursor.pos();
        self.cursor.advance(len);
        let end = self.cursor.pos();
        self.push(kind, start, end);
    }

    /// Emits a token that opens a delimiter and pushes it on the stack.
    fn opener(&mut self, kind: TokenKind, delim: Delimiter, len: usize)
        requires
            old(self).cursor.wf(),
            0 < len,
            old(self).cursor.pos_spec() + len <= old(self).bytes().len(),
            old(self).bytes()[old(self).cursor.pos_spec() + len - 1] < 0x80,
        ensures
            final(self).frame(old(self)),
            final(self)@ == opener_spec(old(self).file, old(self)@, kind@, delim, len as int),
    {
        self.delimiters.push(delim);
        self.punct(kind, len);
    }

    /// Emits a closing token. The innermost opener that is `d1` or `d2` is
    /// popped together with every opener above it; with no such opener the
    /// stack is left alone. The closer is emitted either way.
    fn closer_any(&mut self, kind: TokenKind, d1: Delimiter, d2: Delimiter)
        requires
            old(self).cursor.wf(),
            old(self).cursor.pos_spec() + 1 <= old(self).bytes().len(),
            old(self).bytes()[old(self).cursor.pos_spec()] < 0x80,
        ensures
            final(self).frame(old(self)),
            final(self)@ == closer_spec(old(self).file, old(self)@, kind@, d1, d2),
    {
        let ghost s0 = self@;
        proof { lemma_innermost_match(s0.delims, d1, d2); }
        let mut k: usize = self.delimiters.len();
        let mut found = false;
        while k > 0
            invariant_except_break
                !found,
                forall|j: int| k <= j < s0.delims.len() ==> #[trigger] s0.delims[j] != d1 && s0.delims[j] != d2,
            invariant
                k <= self.delimiters@.len(),
                self.delimiters@ == s0.delims,
            ensures
                found ==> k < s0.delims.len() && (s0.delims[k as int] == d1 || s0.delims[k as int] == d2),
                !found ==> k == 0,
                forall|j: int| (if found { k + 1 } else { k as int }) <= j < s0.delims.len()
                    ==> #[trigger] s0.delims[j] != d1 && s0.delims[j] != d2,
            decreases k,
        {
            let d = self.delimiters[k - 1];
            if d == d1 || d == d2 {
                k = k - 1;
                found = true;
                break;
            }
            k = k - 1;
        }
        proof {
            if found {
                assert(innermost_match(s0.delims, d1, d2) == k as int);
            } else {
                assert(innermost_match(s0.delims, d1, d2) == -1);
            }
        }
        if found {
            self.delimiters.truncate(k);
        }
        assert(self.delimiters@ =~= unwind(s0.delims, d1, d2));
        self.punct(kind, 1);
    }

    /// Emits a closing token for one kind of opener.
    fn closer(&mut self, kind: TokenKind, expected: Delimiter)
        requires
            old(self).cursor.wf(),
            old(self).cursor.pos_spec() + 1 <= old(self).bytes().len(),
            old(self).bytes()[old(self).cursor.pos_spec()] < 0x80,
        ensures
            final(self).frame(old(self)),
            final(self)@ == closer_spec(old(self).file, old(self)@, kind@, expected, expected),
    {
        self.closer_any(kind, expected, expected);
    }

    /// A one- or two-byte operator: `two` when the next byte is `second`.
    fn op2(&mut self, second: u8, two: Punct, one: Punct)
        requires
            old(self).cursor.wf(),
            old(self).cursor.pos_spec() < old(self).bytes().len(),
            old(self).bytes()[old(self).cursor.pos_spec()] < 0x80,
            second < 0x80,
        ensures
            final(self).frame(old(self)),
            final(self)@ == op2_spec(old(self).bytes(), old(self).file, old(self)@, second, two, one),
    {
        if self.cursor.peek_byte(1) == Some(second) {
            self.punct(two.kind(), 2);
        } else {
            self.punct(one.kind(), 1);
        }
    }

    /// Reports `E0001` for an unrecognised character and skips it.
    fn invalid_char(&mut self)
        requires
            old(self).cursor.wf(),
        ensures
            final(self).frame(old(self)),
            final(self)@ == invalid_char_spec(old(self).bytes(), old(self).file, old(self)@),
    {
        let start = self.cursor.pos();
        let non_ascii = match self.cursor.peek_char() {
            Some(c) => (c as u32) >= 0x80,
            None => false,
        };
        self.cursor.bump_char();
        let end = self.cursor.pos();
        let span = Span::new(self.file, start as u32, end as u32);
        let d = if non_ascii {
            Diagnostic::error("E0001", "invalid character", span)
                .with_help("identifiers are ASCII-only in v0.1; non-ASCII text must be inside a string or comment")
        } else {
            Diagnostic::error("E0001", "invalid character", span)
                .with_help("`!` is only valid as `!=`; `&`, `|`, `@`, `$`, `\\` and backticks are not operators")
        };
        push_diag(&mut self.diagnostics, d);
    }

    /// An identifier or a keyword.
    fn ident_or_keyword(&mut self)
        requires
            old(self).cursor.wf(),
            old(self).cursor.pos_spec() < old(self).bytes().len(),
            old(self).bytes()[old(self).cursor.pos_spec()] < 0x80,
        ensures
            final(self).frame(old(self)),
            ({
                let p = old(self)@.pos;
                let b = old(self).bytes();
                let e = ident_end(b, p);
                final(self)@ == (LexV { pos: e, tokens: old(self)@.tokens.push(
                    tok(word_kind(decode_utf8(b.subrange(p, e))), old(self).file, p, e)), ..old(self)@ })
            }),
    {
        let start = self.cursor.pos();
        let ghost b = self.bytes();
        proof { self.cursor.lemma_wf_facts(); }
        loop
            invariant
                self.frame(old(self)),
                self.bytes() == b,
                valid_utf8(b),
                start == old(self)@.pos,
                start <= self.cursor.pos_spec(),
                ident_end(b, start as int) == ident_end(b, self.cursor.pos_spec()),
                boundary(b, self.cursor.pos_spec()),
                self@ == (LexV { pos: self.cursor.pos_spec(), ..old(self)@ }),
            ensures
                self.frame(old(self)),
                self.bytes() == b,
                start <= self.cursor.pos_spec(),
                ident_end(b, start as int) == self.cursor.pos_spec(),
                boundary(b, self.cursor.pos_spec()),
                self@ == (LexV { pos: self.cursor.pos_spec(), ..old(self)@ }),
            decreases b.len() - self.cursor.pos_spec(),
        {
            match self.cursor.peek() {
                Some(c) => {
                    if (c >= 48 && c <= 57) || (c >= 65 && c <= 90) || (c >= 97 && c <= 122) || c == 95u8 {
                        proof { cursor::lemma_ascii_step(b, self.cursor.pos_spec()); }
                        self.cursor.advance(1);
                    } else {
                        break;
                    }
                },
                None => {
                    break;
                },
            }
        }
        let end = self.cursor.pos();
        let text = self.cursor.slice(start, end);
        let kind = match Keyword::from_str(text) {
            Some(kw) => TokenKind::Kw(kw),
            None => TokenKind::Ident(text.to_owned()),
        };
        self.push(kind, start, end);
    }

    /// Scans a number, emitting a best-effort token even when it is
    /// malformed: `Int(0)` or `Float(0.0)`.
    fn number(&mut self)
        requires
            old(self).cursor.wf(),
        ensures
            final(self).frame(old(self)),
            final(self)@ == number_step(old(self).bytes(), old(self).file, old(self)@),
    {
        let start = self.cursor.pos();
        let ghost tokens_before = self.tokens@.len();
        let ghost diags_before = self.diagnostics@.len();
        let token_index = self.tokens.len();
        let diagnostic_index = self.diagnostics.len();
        let outcome = scan_number(&mut self.cursor, self.file, &mut self.diagnostics);
        let end = self.cursor.pos();
        match outcome {
            NumberOutcome::Int(value) => {
                self.push(TokenKind::Int(value), start, end);
            },
            NumberOutcome::Float(text) => {
                self.push(TokenKind::Float(FloatValue::zero()), start, end);
                let literal = FloatLiteral {
                    text: ascii_string(&text),
                    token: token_index,
                    diagnostic: diagnostic_index,
                    span: Span::new(self.file, start as u32, end as u32),
                };
                let ghost fb = self.floats@;
                self.floats.push(literal);
                assert(floats_view(self.floats@) =~= floats_view(fb).push(literal@));
            },
            NumberOutcome::Invalid { looked_like_float } => {
                if looked_like_float {
                    self.push(TokenKind::Float(FloatValue::zero()), start, end);
                } else {
                    self.push(TokenKind::Int(0), start, end);
                }
            },
        }
    }

    /// Scans a string, emitting a `Str` token with the parts read, even when
    /// the literal is malformed.
    fn string(&mut self)
        requires
            old(self).cursor.wf(),
            old(self).cursor.pos_spec() < old(self).bytes().len(),
            old(self).bytes()[old(self).cursor.pos_spec()] == 34u8,
        ensures
            final(self).frame(old(self)),
            ({
                let p = old(self)@.pos;
                let sv = string::string_spec(old(self).bytes(), old(self).file, p, old(self)@.diags);
                final(self)@ == (LexV {
                    pos: sv.end,
                    tokens: old(self)@.tokens.push(tok(KindV::Str(sv.parts), old(self).file, p, sv.end)),
                    diags: sv.diags,
                    ..old(self)@
                })
            }),
    {
        let start = self.cursor.pos();
        let parts = match scan_string(&mut self.cursor, self.file, &mut self.diagnostics) {
            StringOutcome::Parts(parts) => parts,
            StringOutcome::Invalid(parts) => parts,
        };
        let end = self.cursor.pos();
        self.push(TokenKind::Str(parts), start, end);
    }
}

impl<'a> Lexer<'a> {
    /// Scans a single non-trivia token at the current offset.
    fn scan_token(&mut self)
        requires
            old(self).cursor.wf(),
            old(self).cursor.pos_spec() < old(self).bytes().len(),
        ensures
            final(self).frame(old(self)),
            final(self)@ == scan_token_spec(old(self).bytes(), old(self).file, old(self)@),
    {
        proof { self.cursor.lemma_wf_facts(); }
        let byte = match self.cursor.peek() {
            Some(byte) => byte,
            None => {
                return;
            },
        };
        if byte == 40u8 {
            self.opener(TokenKind::LParen, Delimiter::Paren, 1);
        } else if byte == 91u8 {
            self.opener(TokenKind::LBracket, Delimiter::Bracket, 1);
        } else if byte == 123u8 {
            self.opener(TokenKind::LBrace, Delimiter::Brace, 1);
        } else if byte == 41u8 {
            self.closer(TokenKind::RParen, Delimiter::Paren);
        } else if byte == 93u8 {
            self.closer(TokenKind::RBracket, Delimiter::Bracket);
        } else if byte == 125u8 {
            // `}` closes either a block `{` or a map `#{`.
            self.closer_any(TokenKind::RBrace, Delimiter::Brace, Delimiter::HashBrace);
        } else if byte == 35u8 && self.cursor.peek_byte(1) == Some(123u8) {
            self.opener(TokenKind::HashLBrace, Delimiter::HashBrace, 2);
        } else if byte == 44u8 {
            self.punct(TokenKind::Comma, 1);
        } else if byte == 58u8 {
            self.punct(TokenKind::Colon, 1);
        } else if byte == 59u8 {
            self.punct(TokenKind::Semicolon, 1);
        } else if byte == 34u8 {
            self.string();
        } else if byte >= 48u8 && byte <= 57u8 {
            self.number();
        } else if (byte >= 97u8 && byte <= 122u8) || (byte >= 65u8 && byte <= 90u8) || byte == 95u8 {
            self.ident_or_keyword();
        } else if byte == 46u8 {
            self.dot();
        } else if byte == 45u8 {
            self.minus();
        } else if byte == 61u8 {
            self.eq();
        } else if byte == 33u8 {
            self.bang();
        } else if byte == 60u8 {
            self.lt();
        } else if byte == 62u8 {
            self.gt();
        } else if byte == 43u8 {
            self.plus();
        } else if byte == 42u8 {
            self.star();
        } else if byte == 47u8 {
            self.slash();
        } else if byte == 37u8 {
            self.punct(TokenKind::Percent, 1);
        } else if byte == 63u8 {
            self.question();
        } else {
            self.invalid_char();
        }
    }

    fn dot(&mut self)
        requires
            old(self).cursor.wf(),
            old(self).cursor.pos_spec() < old(self).bytes().len(),
            old(self).bytes()[old(self).cursor.pos_spec()] == 46u8,
        ensures
            final(self).frame(old(self)),
            final(self)@ == scan_token_spec(old(self).bytes(), old(self).file, old(self)@),
    {
        if self.cursor.peek_byte(1) == Some(46u8) {
            if self.cursor.peek_byte(2) == Some(61u8) {
                self.punct(TokenKind::DotDotEq, 3);
            } else {
                self.punct(TokenKind::DotDot, 2);
            }
        } else {
            self.punct(TokenKind::Dot, 1);
        }
    }

    fn minus(&mut self)
        requires
            old(self).cursor.wf(),
            old(self).cursor.pos_spec() < old(self).bytes().len(),
            old(self).bytes()[old(self).cursor.pos_spec()] == 45u8,
        ensures
            final(self).frame(old(self)),
            final(self)@ == scan_token_spec(old(self).bytes(), old(self).file, old(self)@),
    {
        // `-->` is `-` then `->`: only two-byte operators start with `-`.
        let next = self.cursor.peek_byte(1);
        if next == Some(62u8) {
            self.punct(TokenKind::Arrow, 2);
        } else if next == Some(61u8) {
            self.punct(TokenKind::MinusEq, 2);
        } else {
            self.punct(TokenKind::Minus, 1);
        }
    }

    fn eq(&mut self)
        requires
            old(self).cursor.wf(),
            old(self).cursor.pos_spec() < old(self).bytes().len(),
            old(self).bytes()[old(self).cursor.pos_spec()] == 61u8,
        ensures
            final(self).frame(old(self)),
            final(self)@ == scan_token_spec(old(self).bytes(), old(self).file, old(self)@),
    {
        let next = self.cursor.peek_byte(1);
        if next == Some(61u8) {
            self.punct(TokenKind::EqEq, 2);
        } else if next == Some(62u8) {
            self.punct(TokenKind::FatArrow, 2);
        } else {
            self.punct(TokenKind::Eq, 1);
        }
    }

    fn bang(&mut self)
        requires
            old(self).cursor.wf(),
            old(self).cursor.pos_spec() < old(self).bytes().len(),
            old(self).bytes()[old(self).cursor.pos_spec()] == 33u8,
        ensures
            final(self).frame(old(self)),
            final(self)@ == scan_token_spec(old(self).bytes(), old(self).file, old(self)@),
    {
        // `!` is only valid as `!=`; a lone `!` is `E0001`.
        if self.cursor.peek_byte(1) == Some(61u8) {
            self.punct(TokenKind::NotEq, 2);
        } else {
            self.invalid_char();
        }
    }

    fn lt(&mut self)
        requires
            old(self).cursor.wf(),
            old(self).cursor.pos_spec() < old(self).bytes().len(),
            old(self).bytes()[old(self).cursor.pos_spec()] == 60u8,
        ensures
            final(self).frame(old(self)),
            final(self)@ == scan_token_spec(old(self).bytes(), old(self).file, old(self)@),
    {
        self.op2(61u8, Punct::Le, Punct::Lt);
    }

    fn gt(&mut self)
        requires
            old(self).cursor.wf(),
            old(self).cursor.pos_spec() < old(self).bytes().len(),
            old(self).bytes()[old(self).cursor.pos_spec()] == 62u8,
        ensures
            final(self).frame(old(self)),
            final(self)@ == scan_token_spec(old(self).bytes(), old(self).file, old(self)@),
    {
        self.op2(61u8, Punct::Ge, Punct::Gt);
    }

    fn plus(&mut self)
        requires
            old(self).cursor.wf(),
            old(self).cursor.pos_spec() < old(self).bytes().len(),
            old(self).bytes()[old(self).cursor.pos_spec()] == 43u8,
        ensures
            final(self).frame(old(self)),
            final(self)@ == scan_token_spec(old(self).bytes(), old(self).file, old(self)@),
    {
        self.op2(61u8, Punct::PlusEq, Punct::Plus);
    }

    fn star(&mut self)
        requires
            old(self).cursor.wf(),
            old(self).cursor.pos_spec() < old(self).bytes().len(),
            old(self).bytes()[old(self).cursor.pos_spec()] == 42u8,
        ensures
            final(self).frame(old(self)),
            final(self)@ == scan_token_spec(old(self).bytes(), old(self).file, old(self)@),
    {
        self.op2(61u8, Punct::StarEq, Punct::Star);
    }

    fn slash(&mut self)
        requires
            old(self).cursor.wf(),
            old(self).cursor.pos_spec() < old(self).bytes().len(),
            old(self).bytes()[old(self).cursor.pos_spec()] == 47u8,
        ensures
            final(self).frame(old(self)),
            final(self)@ == scan_token_spec(old(self).bytes(), old(self).file, old(self)@),
    {
        self.op2(61u8, Punct::SlashEq, Punct::Slash);
    }

    fn question(&mut self)
        requires
            old(self).cursor.wf(),
            old(self).cursor.pos_spec() < old(self).bytes().len(),
            old(self).bytes()[old(self).cursor.pos_spec()] == 63u8,
        ensures
            final(self).frame(old(self)),
            final(self)@ == scan_token_spec(old(self).bytes(), old(self).file, old(self)@),
    {
        let next = self.cursor.peek_byte(1);
        if next == Some(46u8) {
            self.punct(TokenKind::QuestionDot, 2);
        } else if next == Some(63u8) {
            self.punct(TokenKind::QuestionQuestion, 2);
        } else {
            self.punct(TokenKind::Question, 1);
        }
    }

}

impl<'a> Lexer<'a> {
    /// Creates a lexer over `text`, every character of which is content.
    pub fn new(file: FileId, text: &'a str) -> (l: Lexer<'a>)
        ensures
            l.cursor.wf(),
            l.file == file,
            l.bytes() == encode_utf8(text@),
            l@ == (LexV { pos: 0, tokens: seq![], diags: seq![], delims: seq![], pending: false, floats: seq![] }),
    {
        let l = Lexer {
            file,
            cursor: Cursor::over(text),
            tokens: Vec::new(),
            diagnostics: Vec::new(),
            delimiters: Vec::new(),
            pending_newline: false,
            floats: Vec::new(),
        };
        proof { l.cursor.lemma_wf_facts(); }
        assert(l@.tokens =~= seq![]);
        assert(l@.diags =~= seq![]);
        assert(l@.delims =~= seq![]);
        assert(l@.floats =~= seq![]);
        l
    }

    /// Scans one token, or consumes trivia and emits a collapsed `Newline`.
    fn next_token(&mut self)
        requires
            old(self).cursor.wf(),
        ensures
            final(self).frame(old(self)),
            final(self)@ == next_token_spec(old(self).bytes(), old(self).file, old(self)@),
    {
        let ghost b = self.bytes();
        let ghost s0 = self@;
        proof { self.cursor.lemma_wf_facts(); }
        loop
            invariant
                self.frame(old(self)),
                self.bytes() == b,
                b == old(self).bytes(),
                s0 == old(self)@,
                b.len() <= usize::MAX,
                trivia_loop(b, self.file, self@.pos, self@.pending, self@.diags)
                    == trivia_loop(b, self.file, s0.pos, s0.pending, s0.diags),
                self@ == (LexV { pos: self@.pos, pending: self@.pending, diags: self@.diags, ..s0 }),
            ensures
                self.frame(old(self)),
                self.bytes() == b,
                ({
                    let tv = trivia_loop(b, self.file, s0.pos, s0.pending, s0.diags);
                    &&& !tv.aborted
                    &&& self@ == (LexV { pos: tv.pos, pending: tv.pending, diags: tv.diags, ..s0 })
                }),
            decreases b.len() - self.cursor.pos_spec(),
        {
            proof { self.cursor.lemma_wf_facts(); }
            let p = self.cursor.pos();
            match self.cursor.peek() {
                Some(c) => {
                    if c == 32u8 || c == 9u8 || c == 11u8 || c == 12u8 {
                        self.cursor.advance(1);
                    } else if c == 13u8 {
                        // `\r\n` is one break; a lone `\r` is whitespace.
                        if self.cursor.peek_byte(1) == Some(10u8) {
                            self.cursor.advance(1);
                            self.pending_newline = true;
                        } else {
                            self.cursor.advance(1);
                        }
                    } else if c == 10u8 {
                        self.cursor.advance(1);
                        self.pending_newline = true;
                    } else if c == 47u8 && self.cursor.peek_byte(1) == Some(47u8) {
                        proof { lemma_line_comment_end(b, p as int); }
                        self.line_comment();
                    } else if c == 47u8 && self.cursor.peek_byte(1) == Some(42u8) {
                        proof { lemma_block_end(b, self.file, p as int, p + 2, 1, false, self@.diags); }
                        if !self.block_comment() {
                            return;
                        }
                    } else {
                        break;
                    }
                },
                None => {
                    break;
                },
            }
        }
        if self.cursor.is_eof() {
            return;
        }
        if self.pending_newline {
            self.flush_newline();
            return;
        }
        self.scan_token();
    }

    /// Runs the lexer to the end of input and appends `Eof`.
    fn run(self) -> (out: Lexed)
        requires
            self.cursor.wf(),
            self@.pos == 0,
            self@ == (LexV { pos: 0, tokens: seq![], diags: seq![], delims: seq![], pending: false, floats: seq![] }),
        ensures
            ({
                let r = lex_spec(self.bytes(), self.file);
                &&& tokens_view(out.tokens@) == r.tokens
                &&& diags_view(out.diagnostics@) == r.diags
                &&& floats_view(out.floats@) == r.floats
            }),
    {
        let mut lx = self;
        let ghost b = lx.bytes();
        let ghost s0 = lx@;
        let ghost file = lx.file;
        loop
            invariant_except_break
                lex_loop(b, file, lx@) == lex_loop(b, file, s0),
            invariant
                lx.cursor.wf(),
                lx.bytes() == b,
                lx.file == file,
            ensures
                lx.cursor.wf(),
                lx.bytes() == b,
                lx.file == file,
                lx@ == lex_loop(b, file, s0),
            decreases b.len() - lx@.pos,
        {
            proof { lx.cursor.lemma_wf_facts(); }
            if lx.cursor.is_eof() {
                break;
            }
            let before = lx.cursor.pos();
            lx.next_token();
            let after = lx.cursor.pos();
            if !(before < after && (lx.cursor.is_eof() || !lx.pending_newline)) {
                break;
            }
            proof { lx.cursor.lemma_wf_facts(); }
        }
        lx.flush_newline();
        let pos = lx.cursor.pos();
        let ghost t0 = lx.tokens@;
        lx.tokens.push(Token::new(TokenKind::Eof, Span::point(lx.file, pos as u32)));
        assert(tokens_view(lx.tokens@) =~= tokens_view(t0).push(tok(KindV::Eof, file, pos as int, pos as int)));
        Lexed { tokens: lx.tokens, diagnostics: lx.diagnostics, floats: lx.floats }
    }
}

/// The bytes the lexer scans for `file`: its text without a leading BOM.
pub open spec fn lexed_bytes(file: &SourceFile) -> Seq<u8> {
    file.scanned()
}

/// Lexes `file` into tokens, diagnostics and the float literals whose values
/// the caller supplies to [`finish_lex`].
///
/// The token vector always ends with `Eof`. For a file of at most
/// `u32::MAX` bytes, no other token is `Eof`, token spans lie inside the
/// file, start and end on
/// character boundaries, come in order and without overlap, each `Newline`
/// is zero-width, every diagnostic's primary span lies inside the file on
/// character boundaries, every message is a single line, and each float literal
/// points at its placeholder token and its place among the diagnostics.
pub fn lex(file: &SourceFile) -> (out: Lexed)
    ensures
        ({
            let r = lex_spec(lexed_bytes(file), file.id);
            &&& tokens_view(out.tokens@) == r.tokens
            &&& diags_view(out.diagnostics@) == r.diags
            &&& floats_view(out.floats@) == r.floats
        }),
        out.tokens@.len() > 0,
        out.tokens@.last().kind is Eof,
        lexed_bytes(file).len() <= u32::MAX ==> {
            let n = lexed_bytes(file).len() as int;
            &&& tokens_within(tokens_view(out.tokens@), n)
            &&& tokens_on_boundaries(lexed_bytes(file), tokens_view(out.tokens@))
            &&& diags_within(diags_view(out.diagnostics@), n)
            &&& diags_on_boundaries(lexed_bytes(file), diags_view(out.diagnostics@))
            &&& messages_one_line(diags_view(out.diagnostics@))
            &&& floats_point_at(floats_view(out.floats@), tokens_view(out.tokens@), diags_view(out.diagnostics@))
        },
{
    let out = Lexer::new(file.id, file.text()).run();
    proof {
        let b = lexed_bytes(file);
        let ts = tokens_view(out.tokens@);
        assert(ts.len() == out.tokens@.len());
        assert(ts.last() == out.tokens@.last()@);
        if b.len() <= u32::MAX {
            encode_utf8_valid_utf8(file.text@);
            lemma_lex_output(b, file.id);
        }
    }
    out
}

/// The diagnostic for a float literal whose value is not finite (`1e999`).
pub open spec fn float_range_diag(f: FloatReqV) -> DiagV {
    number::number_diag(f.span.file, f.span.start as int, f.span.end as int,
        "float literal out of range"@)
}

/// The diagnostics once the values `vals` of the float literals `fs` are known:
/// for each literal without a finite value, from the last to the first, its
/// diagnostic is inserted at the index recorded for it.
pub open spec fn fill_diags(d: Seq<DiagV>, fs: Seq<FloatReqV>, vals: Seq<Option<FloatValue>>) -> Seq<DiagV>
    decreases fs.len(),
{
    if fs.len() == 0 || vals.len() != fs.len() {
        d
    } else {
        let f = fs.last();
        let d2 = if vals.last() is None && 0 <= f.diagnostic <= d.len() {
            d.insert(f.diagnostic, float_range_diag(f))
        } else {
            d
        };
        fill_diags(d2, fs.drop_last(), vals.drop_last())
    }
}

/// The tokens once the values `vals` of the float literals `fs` are known:
/// each literal with a finite value has its placeholder token's kind replaced.
pub open spec fn fill_tokens(ts: Seq<TokenV>, fs: Seq<FloatReqV>, vals: Seq<Option<FloatValue>>) -> Seq<TokenV>
    decreases fs.len(),
{
    if fs.len() == 0 || vals.len() != fs.len() {
        ts
    } else {
        let f = fs.last();
        let ts2 = match vals.last() {
            Some(v) => if 0 <= f.token < ts.len() {
                ts.update(f.token, TokenV { kind: KindV::Float(v.bits, v.display@), span: ts[f.token].span })
            } else {
                ts
            },
            None => ts,
        };
        fill_tokens(ts2, fs.drop_last(), vals.drop_last())
    }
}

/// Completes a [`Lexed`] with the float values the caller computed from the
/// texts in `lexed.floats`: `values[i]` is the finite double that
/// `lexed.floats[i].text` denotes, or `None` when it is out of range.
///
/// A finite value replaces the literal's `0.0` placeholder token; an
/// out-of-range literal keeps the placeholder and gets an `E0005`
/// diagnostic ("float literal out of range") in source order.
pub fn finish_lex(lexed: Lexed, values: Vec<Option<FloatValue>>) -> (out: (Vec<Token>, Vec<Diagnostic>))
    requires
        values.len() == lexed.floats.len(),
    ensures
        tokens_view(out.0@) == fill_tokens(tokens_view(lexed.tokens@), floats_view(lexed.floats@), values@),
        diags_view(out.1@) == fill_diags(diags_view(lexed.diagnostics@), floats_view(lexed.floats@), values@),
{
    let Lexed { tokens, diagnostics, floats } = lexed;
    let mut tokens = tokens;
    let mut diagnostics = diagnostics;
    let mut values = values;
    let ghost fs = floats_view(floats@);
    let ghost t_goal = fill_tokens(tokens_view(tokens@), fs, values@);
    let ghost d_goal = fill_diags(diags_view(diagnostics@), fs, values@);
    let mut i: usize = floats.len();
    assert(fs.take(i as int) =~= fs);
    while i > 0
        invariant
            i <= floats@.len(),
            fs == floats_view(floats@),
            values@.len() == i,
            fill_tokens(tokens_view(tokens@), fs.take(i as int), values@) == t_goal,
            fill_diags(diags_view(diagnostics@), fs.take(i as int), values@) == d_goal,
        decreases i,
    {
        let ghost ts0 = tokens_view(tokens@);
        let ghost ds0 = diags_view(diagnostics@);
        let ghost vs0 = values@;
        let ghost fs_i = fs.take(i as int);
        assert(fs_i.last() == floats@[i - 1]@);
        assert(fs_i.drop_last() =~= fs.take(i - 1));
        let popped = values.pop();
        assert(vs0.drop_last() =~= values@);
        let value = match popped {
            Some(v) => v,
            None => None,
        };
        let lit = &floats[i - 1];
        match value {
            Some(v) => {
                if lit.token < tokens.len() {
                    let span = tokens[lit.token].span;
                    let ghost kv = KindV::Float(v.bits, v.display@);
                    tokens.set(lit.token, Token::new(TokenKind::Float(v), span));
                    assert(tokens_view(tokens@) =~= ts0.update(lit.token as int, TokenV { kind: kv, span: ts0[lit.token as int].span }));
                }
            },
            None => {
                if lit.diagnostic <= diagnostics.len() {
                    let d = Diagnostic::error("E0005", "invalid numeric literal", lit.span)
                        .with_help("float literal out of range");
                    diagnostics.insert(lit.diagnostic, d);
                    assert(diags_view(diagnostics@) =~= ds0.insert(lit.diagnostic as int, float_range_diag(lit@)));
                }
            },
        }
        i = i - 1;
    }
    assert(fs.take(0) =~= Seq::<FloatReqV>::empty());
    (tokens, diagnostics)
}

} // verus!
