//! The lexer's behaviour as a mathematical function of the source bytes.
//!
//! The state machine in [`super::Lexer`] takes exactly these steps; each
//! executable scanner is proved to compute the corresponding function here.

use vstd::prelude::*;
use vstd::utf8::*;
use crate::diagnostic::{DiagV, error_v, with_help_v};
use crate::span::{FileId, Span};
use super::cursor::{boundary, byte_at, lead_width};
use super::number::{NumV, scan_number_spec};
use super::string::{bump_pos, sp, string_spec};
use super::token::{KindV, Keyword, Punct, TokenV, keyword_of};

verus! {

/// A delimiter tracked on the newline-suppression stack.
#[derive(Clone, Copy, PartialEq, Eq, Structural, Debug)]
pub enum Delimiter {
    /// `(` — suppresses `Newline`.
    Paren,
    /// `[` — suppresses `Newline`.
    Bracket,
    /// `#{` — suppresses `Newline`.
    HashBrace,
    /// `{` — does not suppress `Newline`.
    Brace,
}

impl Delimiter {
    pub open spec fn spec_suppresses(self) -> bool {
        self != Delimiter::Brace
    }

    /// Whether a `Newline` is suppressed while this delimiter is innermost.
    pub fn suppresses_newline(self) -> (b: bool)
        ensures
            b == self.spec_suppresses(),
    {
        match self {
            Delimiter::Paren | Delimiter::Bracket | Delimiter::HashBrace => true,
            Delimiter::Brace => false,
        }
    }
}

/// A float literal whose value the caller must supply: its text without
/// `_`, the index of its token, how many diagnostics preceded it, its span.
pub struct FloatReqV {
    pub text: Seq<char>,
    pub token: int,
    pub diagnostic: int,
    pub span: Span,
}

/// The lexer's state.
pub struct LexV {
    pub pos: int,
    pub tokens: Seq<TokenV>,
    pub diags: Seq<DiagV>,
    pub delims: Seq<Delimiter>,
    pub pending: bool,
    pub floats: Seq<FloatReqV>,
}

/// ASCII bytes as characters.
pub open spec fn ascii_chars(s: Seq<u8>) -> Seq<char> {
    s.map_values(|c: u8| c as char)
}

pub open spec fn tok(kind: KindV, file: FileId, a: int, b: int) -> TokenV {
    TokenV { kind, span: sp(file, a, b) }
}

// --- Trivia -----------------------------------------------------------------

/// The end of a `//` comment starting at `p`: the next `\n` or the end. A
/// lone `\r` is whitespace and stays inside the comment.
pub open spec fn line_comment_end(b: Seq<u8>, p: int) -> int
    decreases b.len() - p,
{
    if 0 <= p < b.len() && b[p] != 10u8 {
        line_comment_end(b, p + 1)
    } else {
        p
    }
}

pub struct BlockV {
    pub end: int,
    pub ok: bool,
    pub saw_newline: bool,
    pub diags: Seq<DiagV>,
}

pub open spec fn unterminated_comment_v(file: FileId, open: int, at: int) -> DiagV {
    with_help_v(error_v("E0003"@, "unterminated block comment"@, sp(file, open, at)), "add a closing `*/`"@)
}

/// Scanning a (nestable) block comment opened at `open`, from `q` at
/// nesting `depth`.
pub open spec fn block_loop(b: Seq<u8>, file: FileId, open: int, q: int, depth: int, saw: bool,
    diags: Seq<DiagV>) -> BlockV
    decreases b.len() - q,
{
    if q < 0 || q >= b.len() {
        BlockV { end: q, ok: false, saw_newline: saw, diags: diags.push(unterminated_comment_v(file, open, q)) }
    } else if b[q] == 42u8 && byte_at(b, q + 1) == Some(47u8) {
        if depth - 1 <= 0 {
            BlockV { end: q + 2, ok: true, saw_newline: saw, diags }
        } else {
            block_loop(b, file, open, q + 2, depth - 1, saw, diags)
        }
    } else if b[q] == 47u8 && byte_at(b, q + 1) == Some(42u8) {
        block_loop(b, file, open, q + 2, depth + 1, saw, diags)
    } else if b[q] == 10u8 {
        block_loop(b, file, open, q + 1, depth, true, diags)
    } else {
        block_loop(b, file, open, q + 1, depth, saw, diags)
    }
}

/// A line comment ends inside the input, after its start when it starts on
/// a non-break byte.
pub proof fn lemma_line_comment_end(b: Seq<u8>, p: int)
    requires
        0 <= p <= b.len(),
    ensures
        p <= line_comment_end(b, p) <= b.len(),
        (p < b.len() && b[p] != 10u8) ==> p < line_comment_end(b, p),
        boundary(b, line_comment_end(b, p)),
    decreases b.len() - p,
{
    if 0 <= p < b.len() && b[p] != 10u8 {
        lemma_line_comment_end(b, p + 1);
    }
}

/// A block comment scan ends inside the input, no earlier than it started.
pub proof fn lemma_block_end(b: Seq<u8>, file: FileId, open: int, q: int, depth: int, saw: bool, diags: Seq<DiagV>)
    requires
        valid_utf8(b),
        0 <= q <= b.len(),
    ensures
        q <= block_loop(b, file, open, q, depth, saw, diags).end <= b.len(),
        boundary(b, block_loop(b, file, open, q, depth, saw, diags).end),
    decreases b.len() - q,
{
    if !(q < 0 || q >= b.len()) {
        if b[q] == 42u8 && byte_at(b, q + 1) == Some(47u8) {
            super::cursor::lemma_ascii_boundaries(b, q);
            super::cursor::lemma_ascii_boundaries(b, q + 1);
            if depth - 1 > 0 {
                lemma_block_end(b, file, open, q + 2, depth - 1, saw, diags);
            }
        } else if b[q] == 47u8 && byte_at(b, q + 1) == Some(42u8) {
            lemma_block_end(b, file, open, q + 2, depth + 1, saw, diags);
        } else if b[q] == 10u8 {
            lemma_block_end(b, file, open, q + 1, depth, true, diags);
        } else {
            lemma_block_end(b, file, open, q + 1, depth, saw, diags);
        }
    }
}

pub struct TriviaV {
    pub pos: int,
    pub pending: bool,
    pub aborted: bool,
    pub diags: Seq<DiagV>,
}

/// Skipping whitespace, line breaks and comments from `p`.
pub open spec fn trivia_loop(b: Seq<u8>, file: FileId, p: int, pending: bool, diags: Seq<DiagV>) -> TriviaV
    decreases b.len() - p,
{
    if p < 0 || p >= b.len() {
        TriviaV { pos: p, pending, aborted: false, diags }
    } else {
        let c = b[p];
        if c == 32u8 || c == 9u8 || c == 11u8 || c == 12u8 {
            trivia_loop(b, file, p + 1, pending, diags)
        } else if c == 13u8 {
            trivia_loop(b, file, p + 1, pending || byte_at(b, p + 1) == Some(10u8), diags)
        } else if c == 10u8 {
            trivia_loop(b, file, p + 1, true, diags)
        } else if c == 47u8 && byte_at(b, p + 1) == Some(47u8) {
            let e = line_comment_end(b, p);
            if p < e <= b.len() {
                trivia_loop(b, file, e, pending, diags)
            } else {
                TriviaV { pos: p, pending, aborted: false, diags }
            }
        } else if c == 47u8 && byte_at(b, p + 1) == Some(42u8) {
            let bc = block_loop(b, file, p, p + 2, 1, false, diags);
            if !bc.ok {
                TriviaV { pos: bc.end, pending, aborted: true, diags: bc.diags }
            } else if p < bc.end <= b.len() {
                trivia_loop(b, file, bc.end, pending || bc.saw_newline, bc.diags)
            } else {
                TriviaV { pos: p, pending, aborted: true, diags: bc.diags }
            }
        } else {
            TriviaV { pos: p, pending, aborted: false, diags }
        }
    }
}

// --- Newlines ---------------------------------------------------------------

/// Whether every token so far is a `Newline` (true when there are none).
pub open spec fn all_newlines(tokens: Seq<TokenV>) -> bool {
    forall|i: int| 0 <= i < tokens.len() ==> #[trigger] tokens[i].kind is Newline
}

/// Emitting the pending `Newline`, unless nothing precedes it or the
/// innermost delimiter suppresses it.
pub open spec fn flush_newline_spec(file: FileId, s: LexV) -> LexV {
    if !s.pending {
        s
    } else if all_newlines(s.tokens) || (s.delims.len() > 0 && s.delims.last().spec_suppresses()) {
        LexV { pending: false, ..s }
    } else {
        LexV { pending: false, tokens: s.tokens.push(tok(KindV::Newline, file, s.pos, s.pos)), ..s }
    }
}

// --- Tokens -----------------------------------------------------------------

/// Emitting a token of `len` bytes at the current offset.
pub open spec fn punct_spec(file: FileId, s: LexV, kind: KindV, len: int) -> LexV {
    LexV { pos: s.pos + len, tokens: s.tokens.push(tok(kind, file, s.pos, s.pos + len)), ..s }
}

/// Emitting an opening delimiter.
pub open spec fn opener_spec(file: FileId, s: LexV, kind: KindV, d: Delimiter, len: int) -> LexV {
    punct_spec(file, LexV { delims: s.delims.push(d), ..s }, kind, len)
}

/// The index of the innermost delimiter on the stack that is `d1` or `d2`,
/// or `-1` when there is none.
pub open spec fn innermost_match(delims: Seq<Delimiter>, d1: Delimiter, d2: Delimiter) -> int
    decreases delims.len(),
{
    if delims.len() == 0 {
        -1
    } else if delims.last() == d1 || delims.last() == d2 {
        delims.len() - 1
    } else {
        innermost_match(delims.drop_last(), d1, d2)
    }
}

/// The stack after a closer for `d1` or `d2`: its innermost match is removed
/// together with every opener above it; with no match the stack is unchanged.
pub open spec fn unwind(delims: Seq<Delimiter>, d1: Delimiter, d2: Delimiter) -> Seq<Delimiter> {
    let k = innermost_match(delims, d1, d2);
    if k >= 0 {
        delims.take(k)
    } else {
        delims
    }
}

/// Emitting a closing delimiter.
pub open spec fn closer_spec(file: FileId, s: LexV, kind: KindV, d1: Delimiter, d2: Delimiter) -> LexV {
    punct_spec(file, LexV { delims: unwind(s.delims, d1, d2), ..s }, kind, 1)
}

/// The innermost match lies on the stack and nothing above it matches.
pub proof fn lemma_innermost_match(delims: Seq<Delimiter>, d1: Delimiter, d2: Delimiter)
    ensures
        -1 <= innermost_match(delims, d1, d2) < delims.len(),
        innermost_match(delims, d1, d2) >= 0 ==> {
            let k = innermost_match(delims, d1, d2);
            delims[k] == d1 || delims[k] == d2
        },
        forall|j: int| innermost_match(delims, d1, d2) < j < delims.len()
            ==> #[trigger] delims[j] != d1 && delims[j] != d2,
    decreases delims.len(),
{
    if delims.len() > 0 && !(delims.last() == d1 || delims.last() == d2) {
        let rest = delims.drop_last();
        lemma_innermost_match(rest, d1, d2);
        assert forall|j: int| innermost_match(delims, d1, d2) < j < delims.len()
            implies #[trigger] delims[j] != d1 && delims[j] != d2 by {
            if j < delims.len() - 1 {
                assert(delims[j] == rest[j]);
            }
        }
    }
}

/// The end of an identifier starting at `p`.
pub open spec fn ident_end(b: Seq<u8>, p: int) -> int
    decreases b.len() - p,
{
    if 0 <= p < b.len() && (is_alnum(b[p]) || b[p] == 95u8) {
        ident_end(b, p + 1)
    } else {
        p
    }
}

pub open spec fn is_alnum(c: u8) -> bool {
    (48 <= c <= 57) || (65 <= c <= 90) || (97 <= c <= 122)
}

/// The kind of an identifier-shaped word.
pub open spec fn word_kind(text: Seq<char>) -> KindV {
    match keyword_of(text) {
        Some(kw) => KindV::Kw(kw),
        None => KindV::Ident(text),
    }
}

pub open spec fn invalid_char_v(file: FileId, a: int, e: int, non_ascii: bool) -> DiagV {
    with_help_v(error_v("E0001"@, "invalid character"@, sp(file, a, e)),
        if non_ascii {
            "identifiers are ASCII-only in v0.1; non-ASCII text must be inside a string or comment"@
        } else {
            "`!` is only valid as `!=`; `&`, `|`, `@`, `$`, `\\` and backticks are not operators"@
        })
}

/// Reporting `E0001` for the character at the current offset and skipping it.
pub open spec fn invalid_char_spec(b: Seq<u8>, file: FileId, s: LexV) -> LexV {
    let e = bump_pos(b, s.pos);
    let non_ascii = boundary(b, s.pos) && 0 <= s.pos < b.len() && (super::cursor::char_at(b, s.pos) as u32) >= 0x80;
    LexV { pos: e, diags: s.diags.push(invalid_char_v(file, s.pos, e, non_ascii)), ..s }
}

/// A one- or two-byte operator: `two` when the next byte is `second`.
pub open spec fn op2_spec(b: Seq<u8>, file: FileId, s: LexV, second: u8, two: Punct, one: Punct) -> LexV {
    if byte_at(b, s.pos + 1) == Some(second) {
        punct_spec(file, s, KindV::P(two), 2)
    } else {
        punct_spec(file, s, KindV::P(one), 1)
    }
}

/// Scanning a numeric literal at the current offset.
pub open spec fn number_step(b: Seq<u8>, file: FileId, s: LexV) -> LexV {
    let ns = scan_number_spec(b, file, s.pos);
    let diags = match ns.diag {
        Some(d) => s.diags.push(d),
        None => s.diags,
    };
    let t = |k: KindV| tok(k, file, s.pos, ns.end);
    match ns.outcome {
        NumV::Int(v) => LexV { pos: ns.end, tokens: s.tokens.push(t(KindV::Int(v))), diags, ..s },
        NumV::Float(text) => LexV {
            pos: ns.end,
            tokens: s.tokens.push(t(KindV::Float(0, seq!['0']))),
            diags,
            floats: s.floats.push(FloatReqV {
                text: ascii_chars(text),
                token: s.tokens.len() as int,
                diagnostic: s.diags.len() as int,
                span: sp(file, s.pos, ns.end),
            }),
            ..s
        },
        NumV::Invalid(float) => LexV {
            pos: ns.end,
            tokens: s.tokens.push(t(if float { KindV::Float(0, seq!['0']) } else { KindV::Int(0) })),
            diags,
            ..s
        },
    }
}

/// Scanning one non-trivia token at the current offset.
pub open spec fn scan_token_spec(b: Seq<u8>, file: FileId, s: LexV) -> LexV {
    let p = s.pos;
    let c = b[p];
    if c == 40u8 {
        opener_spec(file, s, KindV::P(Punct::LParen), Delimiter::Paren, 1)
    } else if c == 91u8 {
        opener_spec(file, s, KindV::P(Punct::LBracket), Delimiter::Bracket, 1)
    } else if c == 123u8 {
        opener_spec(file, s, KindV::P(Punct::LBrace), Delimiter::Brace, 1)
    } else if c == 41u8 {
        closer_spec(file, s, KindV::P(Punct::RParen), Delimiter::Paren, Delimiter::Paren)
    } else if c == 93u8 {
        closer_spec(file, s, KindV::P(Punct::RBracket), Delimiter::Bracket, Delimiter::Bracket)
    } else if c == 125u8 {
        closer_spec(file, s, KindV::P(Punct::RBrace), Delimiter::Brace, Delimiter::HashBrace)
    } else if c == 35u8 && byte_at(b, p + 1) == Some(123u8) {
        opener_spec(file, s, KindV::P(Punct::HashLBrace), Delimiter::HashBrace, 2)
    } else if c == 44u8 {
        punct_spec(file, s, KindV::P(Punct::Comma), 1)
    } else if c == 58u8 {
        punct_spec(file, s, KindV::P(Punct::Colon), 1)
    } else if c == 59u8 {
        punct_spec(file, s, KindV::P(Punct::Semicolon), 1)
    } else if c == 34u8 {
        let sv = string_spec(b, file, p, s.diags);
        LexV { pos: sv.end, tokens: s.tokens.push(tok(KindV::Str(sv.parts), file, p, sv.end)), diags: sv.diags, ..s }
    } else if 48u8 <= c <= 57u8 {
        number_step(b, file, s)
    } else if (97u8 <= c <= 122u8) || (65u8 <= c <= 90u8) || c == 95u8 {
        let e = ident_end(b, p);
        LexV { pos: e, tokens: s.tokens.push(tok(word_kind(decode_utf8(b.subrange(p, e))), file, p, e)), ..s }
    } else if c == 46u8 {
        if byte_at(b, p + 1) == Some(46u8) {
            if byte_at(b, p + 2) == Some(61u8) {
                punct_spec(file, s, KindV::P(Punct::DotDotEq), 3)
            } else {
                punct_spec(file, s, KindV::P(Punct::DotDot), 2)
            }
        } else {
            punct_spec(file, s, KindV::P(Punct::Dot), 1)
        }
    } else if c == 45u8 {
        if byte_at(b, p + 1) == Some(62u8) {
            punct_spec(file, s, KindV::P(Punct::Arrow), 2)
        } else if byte_at(b, p + 1) == Some(61u8) {
            punct_spec(file, s, KindV::P(Punct::MinusEq), 2)
        } else {
            punct_spec(file, s, KindV::P(Punct::Minus), 1)
        }
    } else if c == 61u8 {
        if byte_at(b, p + 1) == Some(61u8) {
            punct_spec(file, s, KindV::P(Punct::EqEq), 2)
        } else if byte_at(b, p + 1) == Some(62u8) {
            punct_spec(file, s, KindV::P(Punct::FatArrow), 2)
        } else {
            punct_spec(file, s, KindV::P(Punct::Eq), 1)
        }
    } else if c == 33u8 {
        if byte_at(b, p + 1) == Some(61u8) {
            punct_spec(file, s, KindV::P(Punct::NotEq), 2)
        } else {
            invalid_char_spec(b, file, s)
        }
    } else if c == 60u8 {
        op2_spec(b, file, s, 61u8, Punct::Le, Punct::Lt)
    } else if c == 62u8 {
        op2_spec(b, file, s, 61u8, Punct::Ge, Punct::Gt)
    } else if c == 43u8 {
        op2_spec(b, file, s, 61u8, Punct::PlusEq, Punct::Plus)
    } else if c == 42u8 {
        op2_spec(b, file, s, 61u8, Punct::StarEq, Punct::Star)
    } else if c == 47u8 {
        op2_spec(b, file, s, 61u8, Punct::SlashEq, Punct::Slash)
    } else if c == 37u8 {
        punct_spec(file, s, KindV::P(Punct::Percent), 1)
    } else if c == 63u8 {
        if byte_at(b, p + 1) == Some(46u8) {
            punct_spec(file, s, KindV::P(Punct::QuestionDot), 2)
        } else if byte_at(b, p + 1) == Some(63u8) {
            punct_spec(file, s, KindV::P(Punct::QuestionQuestion), 2)
        } else {
            punct_spec(file, s, KindV::P(Punct::Question), 1)
        }
    } else {
        invalid_char_spec(b, file, s)
    }
}

/// One step of the lexer: trivia, then either a `Newline` or one token.
pub open spec fn next_token_spec(b: Seq<u8>, file: FileId, s: LexV) -> LexV {
    let tv = trivia_loop(b, file, s.pos, s.pending, s.diags);
    let s2 = LexV { pos: tv.pos, pending: tv.pending, diags: tv.diags, ..s };
    if tv.aborted || tv.pos >= b.len() {
        s2
    } else if tv.pending {
        flush_newline_spec(file, s2)
    } else {
        scan_token_spec(b, file, s2)
    }
}

/// Running the lexer from state `s` to the end of input.
pub open spec fn lex_loop(b: Seq<u8>, file: FileId, s: LexV) -> LexV
    decreases b.len() - s.pos,
{
    if s.pos < 0 || s.pos >= b.len() {
        s
    } else {
        let n = next_token_spec(b, file, s);
        if s.pos < n.pos <= b.len() && !n.pending {
            lex_loop(b, file, n)
        } else {
            n
        }
    }
}

/// The whole lexer: the loop, the last pending `Newline`, then `Eof`.
pub open spec fn lex_spec(b: Seq<u8>, file: FileId) -> LexV {
    let s0 = LexV { pos: 0, tokens: seq![], diags: seq![], delims: seq![], pending: false, floats: seq![] };
    let s1 = flush_newline_spec(file, lex_loop(b, file, s0));
    LexV { tokens: s1.tokens.push(tok(KindV::Eof, file, s1.pos, s1.pos)), ..s1 }
}

} // verus!
