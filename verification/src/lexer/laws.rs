//! What every run of the lexer guarantees about its output.
//!
//! The lemmas here follow the scanners of [`super::model`] step by step and
//! establish, for the whole token stream, that spans stay inside the file,
//! start and end on character boundaries, never run backwards, never overlap,
//! that a `Newline` is a zero-width point, that every diagnostic's primary
//! span stays inside the file on character boundaries, and that each pending
//! float literal points at its placeholder token.

use vstd::prelude::*;
use vstd::utf8::*;
use crate::diagnostic::DiagV;
use crate::span::{FileId, Span};
use super::cursor::{boundary, byte_at, lemma_ascii_boundaries, lemma_next_boundary};
use super::model::{FloatReqV, LexV, ascii_chars, flush_newline_spec, lex_loop, lex_spec, next_token_spec,
    scan_token_spec, word_kind, block_loop, ident_end, invalid_char_spec, invalid_char_v,
    is_alnum, lemma_block_end, line_comment_end, number_step, punct_spec, tok, trivia_loop,
    unterminated_comment_v};
use super::number::{exp_run, exponent_length_spec, lemma_scan_digits_from_end, scan_number_spec,
    scan_decimal_spec, scan_digits_spec, radix_prefix_spec};
use super::string::{escape_spec, interp_loop, lemma_bump_pos, lemma_escape_end, lemma_interp_end,
    lemma_nested_end, nested_loop, sp, string_loop, string_spec, bump_pos, at_break};
use super::token::{KindV, Punct, TokenV};

verus! {

// --- Vocabulary ---------------------------------------------------------------

/// `span` lies inside `[lo, hi]` and does not run backwards.
pub open spec fn span_within(span: Span, lo: int, hi: int) -> bool {
    lo <= span.start && span.start <= span.end && span.end <= hi
}

/// Every primary span of `ds` lies inside a file of `n` bytes.
pub open spec fn diags_within(ds: Seq<DiagV>, n: int) -> bool {
    forall|k: int| 0 <= k < ds.len() ==> span_within(#[trigger] ds[k].primary, 0, n)
}

/// Both ends of `span` are character boundaries of `b`.
pub open spec fn span_on_boundaries(b: Seq<u8>, span: Span) -> bool {
    boundary(b, span.start as int) && boundary(b, span.end as int)
}

/// Every token span starts and ends on a character boundary of `b`.
pub open spec fn tokens_on_boundaries(b: Seq<u8>, ts: Seq<TokenV>) -> bool {
    forall|i: int| 0 <= i < ts.len() ==> span_on_boundaries(b, #[trigger] ts[i].span)
}

/// Every primary span of `ds` starts and ends on a character boundary of `b`.
pub open spec fn diags_on_boundaries(b: Seq<u8>, ds: Seq<DiagV>) -> bool {
    forall|k: int| 0 <= k < ds.len() ==> span_on_boundaries(b, #[trigger] ds[k].primary)
}

/// `s` holds no line break: no `\n` and no `\r`.
pub open spec fn one_line(s: Seq<char>) -> bool {
    forall|i: int| 0 <= i < s.len() ==> s[i] != '\n' && s[i] != '\r'
}

/// Every message of `ds` is a single line.
pub open spec fn messages_one_line(ds: Seq<DiagV>) -> bool {
    forall|k: int| 0 <= k < ds.len() ==> one_line(#[trigger] ds[k].message)
}

/// `d1` extends `d0` in length, keeps primary spans inside `b` on its
/// character boundaries, and keeps messages single-line.
pub open spec fn diags_grow(b: Seq<u8>, d0: Seq<DiagV>, d1: Seq<DiagV>) -> bool {
    &&& d0.len() <= d1.len()
    &&& diags_within(d0, b.len() as int) ==> diags_within(d1, b.len() as int)
    &&& diags_on_boundaries(b, d0) ==> diags_on_boundaries(b, d1)
    &&& messages_one_line(d0) ==> messages_one_line(d1)
}

/// The token spans lie in `[0, pos]`, are ordered without overlap, every
/// `Newline` is zero-width, and no token but the last is `Eof`.
pub open spec fn tokens_within(ts: Seq<TokenV>, pos: int) -> bool {
    &&& forall|i: int| 0 <= i < ts.len() ==> span_within(#[trigger] ts[i].span, 0, pos)
    &&& forall|i: int| 0 <= i < ts.len() && (#[trigger] ts[i].kind is Newline) ==> ts[i].span.start == ts[i].span.end
    &&& forall|i: int, j: int| 0 <= i < j < ts.len() ==> #[trigger] ts[i].span.end <= #[trigger] ts[j].span.start
    &&& forall|i: int| 0 <= i < ts.len() - 1 ==> !(#[trigger] ts[i].kind is Eof)
}

/// Each pending float literal points at a `Float` token with its span and at
/// a diagnostic index, both in range and in source order.
pub open spec fn floats_point_at(fs: Seq<FloatReqV>, ts: Seq<TokenV>, ds: Seq<DiagV>) -> bool {
    &&& forall|i: int| 0 <= i < fs.len() ==> {
        &&& 0 <= #[trigger] fs[i].token < ts.len()
        &&& ts[fs[i].token].kind is Float
        &&& ts[fs[i].token].span == fs[i].span
        &&& 0 <= fs[i].diagnostic <= ds.len()
    }
    &&& forall|i: int, j: int| 0 <= i < j < fs.len() ==>
        #[trigger] fs[i].token < #[trigger] fs[j].token && fs[i].diagnostic <= fs[j].diagnostic
}

/// No token of `ts` is `Eof`.
pub open spec fn no_eof(ts: Seq<TokenV>) -> bool {
    forall|i: int| 0 <= i < ts.len() ==> !(#[trigger] ts[i].kind is Eof)
}

/// The invariant of a lexer state over the bytes `b`.
pub open spec fn state_ok(b: Seq<u8>, s: LexV) -> bool {
    &&& valid_utf8(b)
    &&& b.len() <= u32::MAX
    &&& 0 <= s.pos <= b.len()
    &&& boundary(b, s.pos)
    &&& tokens_within(s.tokens, s.pos)
    &&& no_eof(s.tokens)
    &&& tokens_on_boundaries(b, s.tokens)
    &&& diags_within(s.diags, b.len() as int)
    &&& diags_on_boundaries(b, s.diags)
    &&& messages_one_line(s.diags)
    &&& floats_point_at(s.floats, s.tokens, s.diags)
}

// --- Small steps ----------------------------------------------------------------

proof fn lemma_push_diag(b: Seq<u8>, ds: Seq<DiagV>, d: DiagV)
    requires
        span_within(d.primary, 0, b.len() as int),
        span_on_boundaries(b, d.primary),
        one_line(d.message),
    ensures
        diags_grow(b, ds, ds.push(d)),
{
    let n = b.len() as int;
    if messages_one_line(ds) {
        assert forall|k: int| 0 <= k < ds.push(d).len() implies one_line(#[trigger] ds.push(d)[k].message) by {
            if k < ds.len() {
                assert(ds.push(d)[k] == ds[k]);
            }
        }
    }
    if diags_within(ds, n) {
        assert forall|k: int| 0 <= k < ds.push(d).len() implies span_within(#[trigger] ds.push(d)[k].primary, 0, n) by {
            if k < ds.len() {
                assert(ds.push(d)[k] == ds[k]);
            }
        }
    }
    if diags_on_boundaries(b, ds) {
        assert forall|k: int| 0 <= k < ds.push(d).len() implies span_on_boundaries(b, #[trigger] ds.push(d)[k].primary) by {
            if k < ds.len() {
                assert(ds.push(d)[k] == ds[k]);
            }
        }
    }
}

/// The messages the lexer reports are single lines.
proof fn lemma_messages_one_line()
    ensures
        one_line("unterminated block comment"@),
        one_line("invalid character"@),
        one_line("invalid numeric literal"@),
        one_line("unterminated string literal"@),
        one_line("unterminated string literal (newline before closing quote)"@),
        one_line("invalid interpolation: `}` without a matching `{`"@),
        one_line("invalid escape sequence `\\`"@),
        one_line("invalid escape sequence `\\"@),
        one_line("`"@),
        one_line("unterminated string literal (unclosed interpolation)"@),
        one_line("invalid interpolation: `\\` is not an escape"@),
        one_line("invalid interpolation: empty expression"@),
{
    reveal_strlit("unterminated block comment");
    reveal_strlit("invalid character");
    reveal_strlit("invalid numeric literal");
    reveal_strlit("unterminated string literal");
    reveal_strlit("unterminated string literal (newline before closing quote)");
    reveal_strlit("invalid interpolation: `}` without a matching `{`");
    reveal_strlit("invalid escape sequence `\\`");
    reveal_strlit("invalid escape sequence `\\");
    reveal_strlit("`");
    reveal_strlit("unterminated string literal (unclosed interpolation)");
    reveal_strlit("invalid interpolation: `\\` is not an escape");
    reveal_strlit("invalid interpolation: empty expression");
}

/// Joining single-line texts gives a single line.
proof fn lemma_one_line_concat(a: Seq<char>, b: Seq<char>)
    requires
        one_line(a),
        one_line(b),
    ensures
        one_line(a + b),
{
    assert forall|i: int| 0 <= i < (a + b).len() implies (a + b)[i] != '\n' && (a + b)[i] != '\r' by {
        if i < a.len() {
            assert((a + b)[i] == a[i]);
        } else {
            assert((a + b)[i] == b[i - a.len()]);
        }
    }
}

/// `sp(file, a, e)` lies inside `[0, n]`; with boundaries at both ends it
/// lies on boundaries of `b`.
proof fn lemma_sp(b: Seq<u8>, file: FileId, a: int, e: int)
    requires
        0 <= a <= e <= b.len() <= u32::MAX,
        boundary(b, a),
        boundary(b, e),
    ensures
        span_within(sp(file, a, e), 0, b.len() as int),
        span_on_boundaries(b, sp(file, a, e)),
        sp(file, a, e).start == a,
        sp(file, a, e).end == e,
{
}

proof fn lemma_sp_within(file: FileId, a: int, e: int, n: int)
    requires
        0 <= a <= e <= n <= u32::MAX,
    ensures
        span_within(sp(file, a, e), a, e),
        span_within(sp(file, a, e), 0, n),
        sp(file, a, e).start == a,
        sp(file, a, e).end == e,
{
}

proof fn lemma_push_token_on(b: Seq<u8>, ts: Seq<TokenV>, t: TokenV)
    requires
        tokens_on_boundaries(b, ts),
        span_on_boundaries(b, t.span),
    ensures
        tokens_on_boundaries(b, ts.push(t)),
{
    assert forall|i: int| 0 <= i < ts.push(t).len() implies span_on_boundaries(b, #[trigger] ts.push(t)[i].span) by {
        if i < ts.len() {
            assert(ts.push(t)[i] == ts[i]);
        }
    }
}

proof fn lemma_push_token(ts: Seq<TokenV>, pos: int, kind: KindV, file: FileId, a: int, e: int)
    requires
        tokens_within(ts, pos),
        no_eof(ts),
        0 <= pos <= a <= e <= u32::MAX,
        kind is Newline ==> a == e,
    ensures
        tokens_within(ts.push(tok(kind, file, a, e)), e),
        !(kind is Eof) ==> no_eof(ts.push(tok(kind, file, a, e))),
{
    let t2 = ts.push(tok(kind, file, a, e));
    assert forall|i: int| 0 <= i < t2.len() - 1 implies !(#[trigger] t2[i].kind is Eof) by {
        assert(t2[i] == ts[i]);
    }
    if !(kind is Eof) {
        assert forall|i: int| 0 <= i < t2.len() implies !(#[trigger] t2[i].kind is Eof) by {
            if i < ts.len() {
                assert(t2[i] == ts[i]);
            }
        }
    }
    lemma_sp_within(file, a, e, e);
    assert forall|i: int| 0 <= i < t2.len() implies span_within(#[trigger] t2[i].span, 0, e) by {
        if i < ts.len() {
            assert(t2[i] == ts[i]);
        }
    }
    assert forall|i: int| 0 <= i < t2.len() && (#[trigger] t2[i].kind is Newline) implies t2[i].span.start == t2[i].span.end by {
        if i < ts.len() {
            assert(t2[i] == ts[i]);
        }
    }
    assert forall|i: int, j: int| 0 <= i < j < t2.len() implies #[trigger] t2[i].span.end <= #[trigger] t2[j].span.start by {
        assert(t2[i] == ts[i]);
        if j < ts.len() {
            assert(t2[j] == ts[j]);
        } else {
            assert(span_within(ts[i].span, 0, pos));
        }
    }
}

proof fn lemma_tokens_widen(ts: Seq<TokenV>, pos: int, pos2: int)
    requires
        tokens_within(ts, pos),
        pos <= pos2,
    ensures
        tokens_within(ts, pos2),
{
    assert forall|i: int| 0 <= i < ts.len() implies span_within(#[trigger] ts[i].span, 0, pos2) by {
        assert(span_within(ts[i].span, 0, pos));
    }
}

// --- Trivia -----------------------------------------------------------------------

proof fn lemma_block_diags(b: Seq<u8>, file: FileId, open: int, q: int, depth: int, saw: bool, diags: Seq<DiagV>)
    requires
        valid_utf8(b),
        0 <= open <= q <= b.len() <= u32::MAX,
        boundary(b, open),
    ensures
        diags_grow(b, diags, block_loop(b, file, open, q, depth, saw, diags).diags),
    decreases b.len() - q,
{
    lemma_messages_one_line();
    if q < 0 || q >= b.len() {
        lemma_sp(b, file, open, q);
        lemma_push_diag(b, diags, unterminated_comment_v(file, open, q));
    } else if b[q] == 42u8 && byte_at(b, q + 1) == Some(47u8) {
        if depth - 1 > 0 {
            lemma_block_diags(b, file, open, q + 2, depth - 1, saw, diags);
        }
    } else if b[q] == 47u8 && byte_at(b, q + 1) == Some(42u8) {
        lemma_block_diags(b, file, open, q + 2, depth + 1, saw, diags);
    } else if b[q] == 10u8 {
        lemma_block_diags(b, file, open, q + 1, depth, true, diags);
    } else {
        lemma_block_diags(b, file, open, q + 1, depth, saw, diags);
    }
}

proof fn lemma_trivia(b: Seq<u8>, file: FileId, p: int, pending: bool, diags: Seq<DiagV>)
    requires
        valid_utf8(b),
        0 <= p <= b.len() <= u32::MAX,
        boundary(b, p),
    ensures
        p <= trivia_loop(b, file, p, pending, diags).pos <= b.len(),
        boundary(b, trivia_loop(b, file, p, pending, diags).pos),
        diags_grow(b, diags, trivia_loop(b, file, p, pending, diags).diags),
    decreases b.len() - p,
{
    if !(p < 0 || p >= b.len()) {
        let c = b[p];
        if c < 0x80 {
            lemma_ascii_boundaries(b, p);
        }
        if c == 32u8 || c == 9u8 || c == 11u8 || c == 12u8 {
            lemma_trivia(b, file, p + 1, pending, diags);
        } else if c == 13u8 {
            lemma_trivia(b, file, p + 1, pending || byte_at(b, p + 1) == Some(10u8), diags);
        } else if c == 10u8 {
            lemma_trivia(b, file, p + 1, true, diags);
        } else if c == 47u8 && byte_at(b, p + 1) == Some(47u8) {
            super::model::lemma_line_comment_end(b, p);
            let e = line_comment_end(b, p);
            if p < e <= b.len() {
                lemma_trivia(b, file, e, pending, diags);
            }
        } else if c == 47u8 && byte_at(b, p + 1) == Some(42u8) {
            lemma_block_end(b, file, p, p + 2, 1, false, diags);
            lemma_block_diags(b, file, p, p + 2, 1, false, diags);
            let bc = block_loop(b, file, p, p + 2, 1, false, diags);
            if bc.ok && p < bc.end <= b.len() {
                lemma_trivia(b, file, bc.end, pending || bc.saw_newline, bc.diags);
            }
        }
    }
}

// --- Strings ----------------------------------------------------------------------

proof fn lemma_escape_diags(b: Seq<u8>, file: FileId, i: int, lit: Seq<char>, diags: Seq<DiagV>)
    requires
        valid_utf8(b),
        0 <= i < b.len() <= u32::MAX,
        b[i] == 92u8,
    ensures
        i < escape_spec(b, file, i, lit, diags).end <= b.len(),
        boundary(b, escape_spec(b, file, i, lit, diags).end),
        diags_grow(b, diags, escape_spec(b, file, i, lit, diags).diags),
{
    lemma_escape_end(b, file, i, lit, diags);
    lemma_ascii_boundaries(b, i);
    let p = i + 1;
    if !(boundary(b, p) && p < b.len()) {
        lemma_messages_one_line();
        lemma_sp(b, file, i, p);
        lemma_push_diag(b, diags, super::string::unterminated_v(file, i, p));
    } else {
        lemma_next_boundary(b, p);
        let e = p + super::cursor::lead_width(b[p]);
        lemma_sp(b, file, i, i + 1);
        lemma_sp(b, file, i, e);
        let c = super::cursor::char_at(b, p);
        lemma_messages_one_line();
        {
            assert(one_line(super::string::shown_escape(c)));
            lemma_one_line_concat("invalid escape sequence `\\"@, super::string::shown_escape(c));
            lemma_one_line_concat("invalid escape sequence `\\"@ + super::string::shown_escape(c), "`"@);
        }
        lemma_push_diag(b, diags, super::string::escaped_break_v(file, i));
        lemma_push_diag(b, diags, super::string::unknown_escape_v(file, i, e, c));
    }
}

proof fn lemma_nested_diags(b: Seq<u8>, file: FileId, open: int, k: int, diags: Seq<DiagV>)
    requires
        valid_utf8(b),
        0 <= open <= k <= b.len() <= u32::MAX,
        boundary(b, open),
    ensures
        diags_grow(b, diags, nested_loop(b, file, open, k, diags).diags),
    decreases b.len() - k,
{
    lemma_messages_one_line();
    if k < 0 || k >= b.len() {
        lemma_sp(b, file, open, k);
        lemma_push_diag(b, diags, super::string::unterminated_v(file, open, k));
    } else if b[k] == 10u8 || b[k] == 13u8 {
        lemma_ascii_boundaries(b, k);
        lemma_sp(b, file, open, k);
        lemma_push_diag(b, diags, super::string::break_in_nested_v(file, open, k));
    } else if b[k] == 92u8 {
        let k1 = k + 1;
        lemma_bump_pos(b, k1);
        let k2 = if at_break(b, k1) { k1 } else { bump_pos(b, k1) };
        if k < k2 <= b.len() {
            lemma_nested_diags(b, file, open, k2, diags);
        }
    } else if b[k] != 34u8 {
        lemma_nested_diags(b, file, open, k + 1, diags);
    }
}

proof fn lemma_interp_diags(b: Seq<u8>, file: FileId, open: int, j: int, depth: int, reported: bool,
    diags: Seq<DiagV>)
    requires
        valid_utf8(b),
        0 <= open < j <= b.len() <= u32::MAX,
        boundary(b, open),
    ensures
        diags_grow(b, diags, interp_loop(b, file, open, j, depth, reported, diags).diags),
    decreases b.len() - j,
{
    lemma_messages_one_line();
    if 0 <= j < b.len() && b[j] < 0x80 {
        lemma_ascii_boundaries(b, j);
    }
    if j < 0 || j >= b.len() || b[j] == 10u8 || b[j] == 13u8 {
        lemma_sp(b, file, open, j);
        lemma_push_diag(b, diags, super::string::unclosed_interpolation_v(file, open, j));
    } else if b[j] == 92u8 {
        let j1 = j + 1;
        lemma_bump_pos(b, j1);
        let j2 = if at_break(b, j1) { j1 } else { bump_pos(b, j1) };
        lemma_sp(b, file, j, j + 1);
        let d2 = if reported { diags } else { diags.push(super::string::backslash_in_interpolation_v(file, j)) };
        lemma_push_diag(b, diags, super::string::backslash_in_interpolation_v(file, j));
        if j < j2 <= b.len() {
            lemma_interp_diags(b, file, open, j2, depth, true, d2);
        }
    } else if b[j] == 34u8 {
        lemma_nested_end(b, file, j, j + 1, diags);
        lemma_nested_diags(b, file, j, j + 1, diags);
        let ns = nested_loop(b, file, j, j + 1, diags);
        if ns.ok && j < ns.end <= b.len() {
            lemma_interp_diags(b, file, open, ns.end, depth, reported, ns.diags);
        }
    } else if b[j] == 123u8 {
        lemma_interp_diags(b, file, open, j + 1, depth + 1, reported, diags);
    } else if b[j] == 125u8 {
        if depth - 1 == 0 {
            lemma_sp(b, file, open, j + 1);
            lemma_push_diag(b, diags, super::string::empty_interpolation_v(file, open, j + 1));
        } else {
            lemma_interp_diags(b, file, open, j + 1, depth - 1, reported, diags);
        }
    } else {
        lemma_interp_diags(b, file, open, j + 1, depth, reported, diags);
    }
}

proof fn lemma_string_loop(b: Seq<u8>, file: FileId, open: int, i: int, parts: Seq<super::token::PartV>,
    lit: Seq<char>, ok: bool, diags: Seq<DiagV>)
    requires
        valid_utf8(b),
        0 <= open < i <= b.len() <= u32::MAX,
        boundary(b, open),
        boundary(b, i),
    ensures
        i <= string_loop(b, file, open, i, parts, lit, ok, diags).end <= b.len(),
        boundary(b, string_loop(b, file, open, i, parts, lit, ok, diags).end),
        diags_grow(b, diags, string_loop(b, file, open, i, parts, lit, ok, diags).diags),
    decreases b.len() - i,
{
    lemma_messages_one_line();
    if 0 <= i < b.len() && b[i] < 0x80 {
        lemma_ascii_boundaries(b, i);
    }
    if i < 0 || i >= b.len() {
        lemma_sp(b, file, open, i);
        lemma_push_diag(b, diags, super::string::unterminated_v(file, open, i));
    } else if b[i] == 10u8 || b[i] == 13u8 {
        lemma_sp(b, file, open, i);
        lemma_push_diag(b, diags, super::string::break_in_string_v(file, open, i));
    } else if b[i] == 34u8 {
    } else if b[i] == 92u8 {
        lemma_escape_diags(b, file, i, lit, diags);
        let e = escape_spec(b, file, i, lit, diags);
        if i < e.end <= b.len() {
            lemma_string_loop(b, file, open, e.end, parts, e.lit, ok && e.ok, e.diags);
        }
    } else if b[i] == 123u8 {
        if byte_at(b, i + 1) == Some(123u8) {
            lemma_ascii_boundaries(b, i + 1);
            lemma_string_loop(b, file, open, i + 2, parts, lit.push('{'), ok, diags);
        } else {
            let parts2 = super::string::flush_v(parts, lit);
            lemma_interp_end(b, file, i, i + 1, 1, false, diags);
            lemma_interp_diags(b, file, i, i + 1, 1, false, diags);
            let iv = super::string::interp_spec(b, file, i, diags);
            if i < iv.end <= b.len() {
                match iv.out {
                    super::string::InterpOut::Part(p) => {
                        lemma_string_loop(b, file, open, iv.end, parts2.push(p), Seq::empty(),
                            ok && iv.diags.len() == diags.len(), iv.diags);
                    },
                    super::string::InterpOut::Recovered => {
                        lemma_string_loop(b, file, open, iv.end, parts2, Seq::empty(), false, iv.diags);
                    },
                    super::string::InterpOut::Unterminated => {},
                }
            }
        }
    } else if b[i] == 125u8 {
        if byte_at(b, i + 1) == Some(125u8) {
            lemma_ascii_boundaries(b, i + 1);
            lemma_string_loop(b, file, open, i + 2, parts, lit.push('}'), ok, diags);
        } else {
            lemma_sp(b, file, i, i + 1);
            lemma_push_diag(b, diags, super::string::stray_close_v(file, i));
            lemma_string_loop(b, file, open, i + 1, parts, lit, false,
                diags.push(super::string::stray_close_v(file, i)));
        }
    } else if super::cursor::boundary(b, i) && i + super::cursor::lead_width(b[i]) <= b.len() {
        lemma_next_boundary(b, i);
        lemma_string_loop(b, file, open, i + super::cursor::lead_width(b[i]), parts,
            lit.push(super::cursor::char_at(b, i)), ok, diags);
    }
}

proof fn lemma_string(b: Seq<u8>, file: FileId, open: int, diags: Seq<DiagV>)
    requires
        valid_utf8(b),
        0 <= open < b.len() <= u32::MAX,
        b[open] == 34u8,
    ensures
        open < string_spec(b, file, open, diags).end <= b.len(),
        boundary(b, string_spec(b, file, open, diags).end),
        diags_grow(b, diags, string_spec(b, file, open, diags).diags),
{
    lemma_ascii_boundaries(b, open);
    lemma_string_loop(b, file, open, open + 1, Seq::empty(), Seq::empty(), true, diags);
}

// --- Numbers ----------------------------------------------------------------------

/// The run of digits and `_` after `p + len` ends on an ASCII byte when it
/// consumed anything.
proof fn lemma_exp_run(b: Seq<u8>, p: int, len: int)
    requires
        len >= 0,
        p + len <= b.len(),
    ensures
        exp_run(b, p, len) >= len,
        p + exp_run(b, p, len) <= b.len(),
        exp_run(b, p, len) > len ==> b[p + exp_run(b, p, len) - 1] < 0x80,
    decreases b.len() - (p + len),
{
    if 0 <= p + len < b.len() && (super::number::is_ascii_digit(b[p + len]) || b[p + len] == 95u8) && len >= 0 {
        lemma_exp_run(b, p, len + 1);
    }
}

/// A digit run stays in the input and, from a boundary, ends on one.
proof fn lemma_digits_end(b: Seq<u8>, i: int, radix: u32)
    requires
        valid_utf8(b),
        0 <= i <= b.len(),
        boundary(b, i),
    ensures
        i <= scan_digits_spec(b, i, radix).0 <= b.len(),
        boundary(b, scan_digits_spec(b, i, radix).0),
{
    lemma_scan_digits_from_end(b, i, radix, Seq::empty(), false, false, false);
    let e = scan_digits_spec(b, i, radix).0;
    if e > i {
        lemma_ascii_boundaries(b, e - 1);
    }
}

proof fn lemma_number(b: Seq<u8>, file: FileId, start: int)
    requires
        valid_utf8(b),
        0 <= start < b.len() <= u32::MAX,
        boundary(b, start),
    ensures
        start <= scan_number_spec(b, file, start).end <= b.len(),
        boundary(b, scan_number_spec(b, file, start).end),
        scan_number_spec(b, file, start).diag matches Some(d) ==> {
            &&& span_within(d.primary, 0, b.len() as int)
            &&& span_on_boundaries(b, d.primary)
        },
{
    let n = b.len() as int;
    match radix_prefix_spec(b, start) {
        None => {
            let (e1, int_digits, mal1) = scan_digits_spec(b, start, 10);
            lemma_digits_end(b, start, 10);
            if !(mal1 || int_digits.len() == 0) {
                let frac = super::number::starts_fraction(b, e1);
                if frac {
                    lemma_ascii_boundaries(b, e1);
                    lemma_digits_end(b, e1 + 1, 10);
                }
                let (e2, frac_digits, mal2) = scan_digits_spec(b, e1 + 1, 10);
                if !(frac && (mal2 || frac_digits.len() == 0)) {
                    let p = if frac { e2 } else { e1 };
                    match exponent_length_spec(b, p) {
                        Some(len) => {
                            lemma_ascii_boundaries(b, p);
                            let signed = byte_at(b, p + 1) == Some(43u8) || byte_at(b, p + 1) == Some(45u8);
                            if signed {
                                lemma_ascii_boundaries(b, p + 1);
                            }
                            let st = if signed { 2int } else { 1int };
                            lemma_exp_run(b, p, st);
                            let r = exp_run(b, p, st);
                            if r > st {
                                lemma_ascii_boundaries(b, p + r - 1);
                            }
                            assert(boundary(b, p + r));
                        },
                        None => {},
                    }
                }
            }
            let ns = scan_decimal_spec(b, file, start);
            assert(start <= ns.end <= n);
            assert(boundary(b, ns.end));
            if ns.diag is Some {
                lemma_sp(b, file, start, ns.end);
            }
        },
        Some(radix) => {
            lemma_ascii_boundaries(b, start);
            lemma_ascii_boundaries(b, start + 1);
            lemma_digits_end(b, start + 2, radix);
            let (end, digits, malformed) = scan_digits_spec(b, start + 2, radix);
            lemma_sp(b, file, start, end);
        },
    }
}

// --- Tokens ---------------------------------------------------------------------

proof fn lemma_floats_push_token(fs: Seq<FloatReqV>, ts: Seq<TokenV>, ds: Seq<DiagV>, t: TokenV)
    requires
        floats_point_at(fs, ts, ds),
    ensures
        floats_point_at(fs, ts.push(t), ds),
{
    assert forall|i: int| 0 <= i < fs.len() implies {
        &&& 0 <= #[trigger] fs[i].token < ts.push(t).len()
        &&& ts.push(t)[fs[i].token].kind is Float
        &&& ts.push(t)[fs[i].token].span == fs[i].span
        &&& 0 <= fs[i].diagnostic <= ds.len()
    } by {
        assert(ts.push(t)[fs[i].token] == ts[fs[i].token]);
    }
}

proof fn lemma_floats_more_diags(fs: Seq<FloatReqV>, ts: Seq<TokenV>, ds: Seq<DiagV>, ds2: Seq<DiagV>)
    requires
        floats_point_at(fs, ts, ds),
        ds.len() <= ds2.len(),
    ensures
        floats_point_at(fs, ts, ds2),
{
    assert forall|i: int| 0 <= i < fs.len() implies {
        &&& 0 <= #[trigger] fs[i].token < ts.len()
        &&& ts[fs[i].token].kind is Float
        &&& ts[fs[i].token].span == fs[i].span
        &&& 0 <= fs[i].diagnostic <= ds2.len()
    } by {
    }
}

/// Emitting one token `[a, e)` that is neither a `Newline` nor a float, with
/// the diagnostics growing from `s.diags` to `ds`.
proof fn lemma_emit(b: Seq<u8>, file: FileId, s: LexV, kind: KindV, a: int, e: int, ds: Seq<DiagV>)
    requires
        state_ok(b, s),
        s.pos <= a <= e <= b.len(),
        boundary(b, a),
        boundary(b, e),
        !(kind is Newline),
        !(kind is Eof),
        diags_grow(b, s.diags, ds),
    ensures
        state_ok(b, LexV { pos: e, tokens: s.tokens.push(tok(kind, file, a, e)), diags: ds, ..s }),
{
    lemma_push_token(s.tokens, s.pos, kind, file, a, e);
    lemma_sp(b, file, a, e);
    lemma_push_token_on(b, s.tokens, tok(kind, file, a, e));
    lemma_floats_push_token(s.floats, s.tokens, s.diags, tok(kind, file, a, e));
    lemma_floats_more_diags(s.floats, s.tokens.push(tok(kind, file, a, e)), s.diags, ds);
}

/// Emitting a punctuation token of `len` bytes whose last byte is ASCII.
proof fn lemma_punct(b: Seq<u8>, file: FileId, s: LexV, kind: KindV, len: int)
    requires
        state_ok(b, s),
        1 <= len,
        s.pos + len <= b.len(),
        b[s.pos + len - 1] < 0x80,
        !(kind is Newline),
        !(kind is Eof),
    ensures
        state_ok(b, punct_spec(file, s, kind, len)),
        s.pos < punct_spec(file, s, kind, len).pos,
{
    lemma_ascii_boundaries(b, s.pos + len - 1);
    lemma_emit(b, file, s, kind, s.pos, s.pos + len, s.diags);
}

/// An identifier stays in the input and ends after an ASCII byte.
proof fn lemma_ident_end(b: Seq<u8>, p: int)
    requires
        0 <= p <= b.len(),
    ensures
        p <= ident_end(b, p) <= b.len(),
        ident_end(b, p) > p ==> b[ident_end(b, p) - 1] < 0x80,
        (p < b.len() && (is_alnum(b[p]) || b[p] == 95u8)) ==> ident_end(b, p) > p,
    decreases b.len() - p,
{
    if 0 <= p < b.len() && (is_alnum(b[p]) || b[p] == 95u8) {
        lemma_ident_end(b, p + 1);
    }
}

proof fn lemma_number_step(b: Seq<u8>, file: FileId, s: LexV)
    requires
        state_ok(b, s),
        s.pos < b.len(),
    ensures
        state_ok(b, number_step(b, file, s)),
        s.pos <= number_step(b, file, s).pos,
{
    lemma_messages_one_line();
    lemma_number(b, file, s.pos);
    let ns = scan_number_spec(b, file, s.pos);
    let diags = match ns.diag {
        Some(d) => s.diags.push(d),
        None => s.diags,
    };
    match ns.diag {
        Some(d) => lemma_push_diag(b, s.diags, d),
        None => {},
    }
    match ns.outcome {
        super::number::NumV::Int(v) => {
            lemma_emit(b, file, s, KindV::Int(v), s.pos, ns.end, diags);
            assert(number_step(b, file, s) == LexV { pos: ns.end,
                tokens: s.tokens.push(tok(KindV::Int(v), file, s.pos, ns.end)), diags, ..s });
        },
        super::number::NumV::Float(text) => {
            let k = KindV::Float(0, seq!['0']);
            lemma_emit(b, file, s, k, s.pos, ns.end, diags);
            let r = number_step(b, file, s);
            let f = FloatReqV {
                text: ascii_chars(text),
                token: s.tokens.len() as int,
                diagnostic: s.diags.len() as int,
                span: sp(file, s.pos, ns.end),
            };
            assert(r.floats == s.floats.push(f));
            assert(r.tokens == s.tokens.push(tok(k, file, s.pos, ns.end)));
            let fs = r.floats;
            let ts = r.tokens;
            assert forall|i: int| 0 <= i < fs.len() implies {
                &&& 0 <= #[trigger] fs[i].token < ts.len()
                &&& ts[fs[i].token].kind is Float
                &&& ts[fs[i].token].span == fs[i].span
                &&& 0 <= fs[i].diagnostic <= r.diags.len()
            } by {
                if i < s.floats.len() {
                    assert(fs[i] == s.floats[i]);
                    assert(ts[fs[i].token] == s.tokens[fs[i].token]);
                }
            }
            assert forall|i: int, j: int| 0 <= i < j < fs.len() implies
                #[trigger] fs[i].token < #[trigger] fs[j].token && fs[i].diagnostic <= fs[j].diagnostic by {
                assert(fs[i] == s.floats[i]);
                assert(0 <= s.floats[i].token < s.tokens.len());
                if j < s.floats.len() {
                    assert(fs[j] == s.floats[j]);
                }
            }
        },
        super::number::NumV::Invalid(float) => {
            let k = if float { KindV::Float(0, seq!['0']) } else { KindV::Int(0) };
            lemma_emit(b, file, s, k, s.pos, ns.end, diags);
            assert(number_step(b, file, s) == LexV { pos: ns.end,
                tokens: s.tokens.push(tok(k, file, s.pos, ns.end)), diags, ..s });
        },
    }
}

proof fn lemma_invalid_char(b: Seq<u8>, file: FileId, s: LexV)
    requires
        state_ok(b, s),
        s.pos < b.len(),
    ensures
        state_ok(b, invalid_char_spec(b, file, s)),
        s.pos <= invalid_char_spec(b, file, s).pos,
{
    lemma_messages_one_line();
    lemma_bump_pos(b, s.pos);
    let e = bump_pos(b, s.pos);
    let non_ascii = super::cursor::boundary(b, s.pos) && 0 <= s.pos < b.len()
        && (super::cursor::char_at(b, s.pos) as u32) >= 0x80;
    lemma_sp(b, file, s.pos, e);
    lemma_push_diag(b, s.diags, invalid_char_v(file, s.pos, e, non_ascii));
    lemma_tokens_widen(s.tokens, s.pos, e);
    lemma_floats_more_diags(s.floats, s.tokens, s.diags, s.diags.push(invalid_char_v(file, s.pos, e, non_ascii)));
}

#[verifier::spinoff_prover]
proof fn lemma_scan_token(b: Seq<u8>, file: FileId, s: LexV)
    requires
        state_ok(b, s),
        s.pos < b.len(),
    ensures
        state_ok(b, scan_token_spec(b, file, s)),
        s.pos <= scan_token_spec(b, file, s).pos,
{
    let p = s.pos;
    let c = b[p];
    let sd = |d: super::model::Delimiter| LexV { delims: s.delims.push(d), ..s };
    if c == 40u8 {
        lemma_punct(b, file, sd(super::model::Delimiter::Paren), KindV::P(Punct::LParen), 1);
    } else if c == 91u8 {
        lemma_punct(b, file, sd(super::model::Delimiter::Bracket), KindV::P(Punct::LBracket), 1);
    } else if c == 123u8 {
        lemma_punct(b, file, sd(super::model::Delimiter::Brace), KindV::P(Punct::LBrace), 1);
    } else if c == 41u8 || c == 93u8 || c == 125u8 {
        let r = scan_token_spec(b, file, s);
        let k = if c == 41u8 { KindV::P(Punct::RParen) } else if c == 93u8 { KindV::P(Punct::RBracket) } else { KindV::P(Punct::RBrace) };
        lemma_ascii_boundaries(b, p);
        lemma_emit(b, file, s, k, p, p + 1, s.diags);
        assert(r.tokens == s.tokens.push(tok(k, file, p, p + 1)));
    } else if c == 35u8 && byte_at(b, p + 1) == Some(123u8) {
        lemma_punct(b, file, sd(super::model::Delimiter::HashBrace), KindV::P(Punct::HashLBrace), 2);
    } else if c == 44u8 || c == 58u8 || c == 59u8 || c == 37u8 {
        lemma_punct(b, file, s, scan_token_spec(b, file, s).tokens.last().kind, 1);
    } else if c == 34u8 {
        lemma_string(b, file, p, s.diags);
        let sv = string_spec(b, file, p, s.diags);
        lemma_emit(b, file, s, KindV::Str(sv.parts), p, sv.end, sv.diags);
    } else if 48u8 <= c <= 57u8 {
        lemma_number_step(b, file, s);
    } else if (97u8 <= c <= 122u8) || (65u8 <= c <= 90u8) || c == 95u8 {
        lemma_ident_end(b, p);
        let e = ident_end(b, p);
        lemma_ascii_boundaries(b, e - 1);
        lemma_emit(b, file, s, word_kind(decode_utf8(b.subrange(p, e))), p, e, s.diags);
    } else if c == 46u8 {
        if byte_at(b, p + 1) == Some(46u8) {
            if byte_at(b, p + 2) == Some(61u8) {
                lemma_punct(b, file, s, KindV::P(Punct::DotDotEq), 3);
            } else {
                lemma_punct(b, file, s, KindV::P(Punct::DotDot), 2);
            }
        } else {
            lemma_punct(b, file, s, KindV::P(Punct::Dot), 1);
        }
    } else if c == 45u8 {
        if byte_at(b, p + 1) == Some(62u8) {
            lemma_punct(b, file, s, KindV::P(Punct::Arrow), 2);
        } else if byte_at(b, p + 1) == Some(61u8) {
            lemma_punct(b, file, s, KindV::P(Punct::MinusEq), 2);
        } else {
            lemma_punct(b, file, s, KindV::P(Punct::Minus), 1);
        }
    } else if c == 61u8 {
        if byte_at(b, p + 1) == Some(61u8) {
            lemma_punct(b, file, s, KindV::P(Punct::EqEq), 2);
        } else if byte_at(b, p + 1) == Some(62u8) {
            lemma_punct(b, file, s, KindV::P(Punct::FatArrow), 2);
        } else {
            lemma_punct(b, file, s, KindV::P(Punct::Eq), 1);
        }
    } else if c == 33u8 {
        if byte_at(b, p + 1) == Some(61u8) {
            lemma_punct(b, file, s, KindV::P(Punct::NotEq), 2);
        } else {
            lemma_invalid_char(b, file, s);
        }
    } else if c == 60u8 || c == 62u8 || c == 43u8 || c == 42u8 || c == 47u8 {
        let r = scan_token_spec(b, file, s);
        let len: int = if byte_at(b, p + 1) == Some(61u8) { 2 } else { 1 };
        lemma_punct(b, file, s, r.tokens.last().kind, len);
    } else if c == 63u8 {
        if byte_at(b, p + 1) == Some(46u8) {
            lemma_punct(b, file, s, KindV::P(Punct::QuestionDot), 2);
        } else if byte_at(b, p + 1) == Some(63u8) {
            lemma_punct(b, file, s, KindV::P(Punct::QuestionQuestion), 2);
        } else {
            lemma_punct(b, file, s, KindV::P(Punct::Question), 1);
        }
    } else {
        lemma_invalid_char(b, file, s);
    }
}

proof fn lemma_next_token(b: Seq<u8>, file: FileId, s: LexV)
    requires
        state_ok(b, s),
    ensures
        state_ok(b, next_token_spec(b, file, s)),
        s.pos <= next_token_spec(b, file, s).pos,
{
    lemma_trivia(b, file, s.pos, s.pending, s.diags);
    let tv = trivia_loop(b, file, s.pos, s.pending, s.diags);
    let s2 = LexV { pos: tv.pos, pending: tv.pending, diags: tv.diags, ..s };
    lemma_tokens_widen(s.tokens, s.pos, tv.pos);
    lemma_floats_more_diags(s.floats, s.tokens, s.diags, tv.diags);
    assert(state_ok(b, s2));
    if !(tv.aborted || tv.pos >= b.len()) {
        if tv.pending {
            lemma_flush(b, file, s2);
        } else {
            lemma_scan_token(b, file, s2);
        }
    }
}

proof fn lemma_flush(b: Seq<u8>, file: FileId, s: LexV)
    requires
        state_ok(b, s),
    ensures
        state_ok(b, flush_newline_spec(file, s)),
        flush_newline_spec(file, s).pos == s.pos,
{
    lemma_push_token(s.tokens, s.pos, KindV::Newline, file, s.pos, s.pos);
    lemma_sp(b, file, s.pos, s.pos);
    lemma_push_token_on(b, s.tokens, tok(KindV::Newline, file, s.pos, s.pos));
    lemma_floats_push_token(s.floats, s.tokens, s.diags, tok(KindV::Newline, file, s.pos, s.pos));
}

proof fn lemma_lex_loop(b: Seq<u8>, file: FileId, s: LexV)
    requires
        state_ok(b, s),
    ensures
        state_ok(b, lex_loop(b, file, s)),
    decreases b.len() - s.pos,
{
    if !(s.pos < 0 || s.pos >= b.len()) {
        lemma_next_token(b, file, s);
        let n = next_token_spec(b, file, s);
        if s.pos < n.pos <= b.len() && !n.pending {
            lemma_lex_loop(b, file, n);
        }
    }
}

/// The laws of the lexer's output on the bytes `b` of a file.
///
/// The stream ends with `Eof`; token spans lie inside the file, start and end
/// on character boundaries, never run backwards and never overlap; a
/// `Newline` is a zero-width point; every diagnostic's primary span lies
/// inside the file on character boundaries; every message is a single line
/// whenever std's `escape_debug` renders each character on one line (the
/// unknown-escape message embeds that rendering); and every float literal waiting
/// for its value points at its `Float` token and at the position of its
/// diagnostic, in source order.
pub proof fn lemma_lex_output(b: Seq<u8>, file: FileId)
    requires
        valid_utf8(b),
        b.len() <= u32::MAX,
    ensures
        ({
            let r = lex_spec(b, file);
            &&& r.tokens.len() > 0
            &&& r.tokens.last().kind is Eof
            &&& tokens_within(r.tokens, b.len() as int)
            &&& tokens_on_boundaries(b, r.tokens)
            &&& diags_within(r.diags, b.len() as int)
            &&& diags_on_boundaries(b, r.diags)
            &&& messages_one_line(r.diags)
            &&& floats_point_at(r.floats, r.tokens, r.diags)
        }),
{
    let s0 = LexV { pos: 0, tokens: seq![], diags: seq![], delims: seq![], pending: false, floats: seq![] };
    super::cursor::lemma_boundary_iff(b, 0);
    is_char_boundary_start_end_of_seq(b);
    assert(state_ok(b, s0));
    lemma_lex_loop(b, file, s0);
    let s1 = flush_newline_spec(file, lex_loop(b, file, s0));
    lemma_flush(b, file, lex_loop(b, file, s0));
    lemma_push_token(s1.tokens, s1.pos, KindV::Eof, file, s1.pos, s1.pos);
    lemma_sp(b, file, s1.pos, s1.pos);
    lemma_push_token_on(b, s1.tokens, tok(KindV::Eof, file, s1.pos, s1.pos));
    lemma_tokens_widen(s1.tokens.push(tok(KindV::Eof, file, s1.pos, s1.pos)), s1.pos, b.len() as int);
    lemma_floats_push_token(s1.floats, s1.tokens, s1.diags, tok(KindV::Eof, file, s1.pos, s1.pos));
}

// --- Completing float literals ------------------------------------------------------

proof fn lemma_fill_tokens(b: Seq<u8>, ts: Seq<TokenV>, ds: Seq<DiagV>, fs: Seq<FloatReqV>,
    vals: Seq<Option<super::token::FloatValue>>)
    requires
        tokens_within(ts, b.len() as int),
        tokens_on_boundaries(b, ts),
        floats_point_at(fs, ts, ds),
    ensures
        tokens_within(super::fill_tokens(ts, fs, vals), b.len() as int),
        tokens_on_boundaries(b, super::fill_tokens(ts, fs, vals)),
    decreases fs.len(),
{
    if fs.len() > 0 && vals.len() == fs.len() {
        let f = fs.last();
        let fs2 = fs.drop_last();
        let ts2 = match vals.last() {
            Some(v) => if 0 <= f.token < ts.len() {
                ts.update(f.token, TokenV { kind: KindV::Float(v.bits, v.display@), span: ts[f.token].span })
            } else {
                ts
            },
            None => ts,
        };
        assert(ts2.len() == ts.len());
        assert forall|i: int| 0 <= i < ts2.len() implies ts2[i].span == ts[i].span
            && ((ts2[i].kind is Newline) ==> (ts[i].kind is Newline))
            && ((ts2[i].kind is Float) <== (ts[i].kind is Float)) by {
        }
        assert forall|i: int| 0 <= i < fs2.len() implies {
            &&& 0 <= #[trigger] fs2[i].token < ts2.len()
            &&& ts2[fs2[i].token].kind is Float
            &&& ts2[fs2[i].token].span == fs2[i].span
            &&& 0 <= fs2[i].diagnostic <= ds.len()
        } by {
            assert(fs2[i] == fs[i]);
            let k = fs2[i].token;
            assert(ts[k].kind is Float);
            assert(ts2[k].span == ts[k].span);
            assert(ts2[k].kind is Float);
        }
        assert forall|i: int, j: int| 0 <= i < j < fs2.len() implies
            #[trigger] fs2[i].token < #[trigger] fs2[j].token && fs2[i].diagnostic <= fs2[j].diagnostic by {
            assert(fs2[i] == fs[i]);
            assert(fs2[j] == fs[j]);
        }
        assert forall|i: int| 0 <= i < ts2.len() implies span_within(#[trigger] ts2[i].span, 0, b.len() as int) by {
            assert(span_within(ts[i].span, 0, b.len() as int));
        }
        assert forall|i: int| 0 <= i < ts2.len() && (#[trigger] ts2[i].kind is Newline)
            implies ts2[i].span.start == ts2[i].span.end by {
            assert(ts[i].kind is Newline);
        }
        assert forall|i: int, j: int| 0 <= i < j < ts2.len() implies
            #[trigger] ts2[i].span.end <= #[trigger] ts2[j].span.start by {
            assert(ts[i].span.end <= ts[j].span.start);
        }
        assert forall|i: int| 0 <= i < ts2.len() implies span_on_boundaries(b, #[trigger] ts2[i].span) by {
            assert(span_on_boundaries(b, ts[i].span));
        }
        assert(tokens_within(ts2, b.len() as int));
        assert(tokens_on_boundaries(b, ts2));
        assert(floats_point_at(fs2, ts2, ds));
        lemma_fill_tokens(b, ts2, ds, fs2, vals.drop_last());
    }
}

proof fn lemma_fill_diags(b: Seq<u8>, ts: Seq<TokenV>, ds: Seq<DiagV>, fs: Seq<FloatReqV>,
    vals: Seq<Option<super::token::FloatValue>>)
    requires
        b.len() <= u32::MAX,
        tokens_within(ts, b.len() as int),
        tokens_on_boundaries(b, ts),
        diags_within(ds, b.len() as int),
        diags_on_boundaries(b, ds),
        messages_one_line(ds),
        floats_point_at(fs, ts, ds),
    ensures
        diags_within(super::fill_diags(ds, fs, vals), b.len() as int),
        diags_on_boundaries(b, super::fill_diags(ds, fs, vals)),
        messages_one_line(super::fill_diags(ds, fs, vals)),
    decreases fs.len(),
{
    if fs.len() > 0 && vals.len() == fs.len() {
        let f = fs.last();
        let fs2 = fs.drop_last();
        let x = super::float_range_diag(f);
        assert(0 <= f.token < ts.len());
        assert(ts[f.token].span == f.span);
        assert(span_within(ts[f.token].span, 0, b.len() as int));
        assert(span_on_boundaries(b, ts[f.token].span));
        assert(x.primary == f.span);
        lemma_messages_one_line();
        let d2 = if vals.last() is None && 0 <= f.diagnostic <= ds.len() {
            ds.insert(f.diagnostic, x)
        } else {
            ds
        };
        if vals.last() is None && 0 <= f.diagnostic <= ds.len() {
            assert forall|k: int| 0 <= k < d2.len() implies {
                &&& span_within(#[trigger] d2[k].primary, 0, b.len() as int)
                &&& span_on_boundaries(b, d2[k].primary)
                &&& (one_line(d2[k].message))
            } by {
                if k < f.diagnostic {
                    assert(d2[k] == ds[k]);
                } else if k > f.diagnostic {
                    assert(d2[k] == ds[k - 1]);
                }
            }
        }
        assert(d2.len() >= ds.len());
        assert forall|i: int| 0 <= i < fs2.len() implies {
            &&& 0 <= #[trigger] fs2[i].token < ts.len()
            &&& ts[fs2[i].token].kind is Float
            &&& ts[fs2[i].token].span == fs2[i].span
            &&& 0 <= fs2[i].diagnostic <= d2.len()
        } by {
            assert(fs2[i] == fs[i]);
        }
        assert forall|i: int, j: int| 0 <= i < j < fs2.len() implies
            #[trigger] fs2[i].token < #[trigger] fs2[j].token && fs2[i].diagnostic <= fs2[j].diagnostic by {
            assert(fs2[i] == fs[i]);
            assert(fs2[j] == fs[j]);
        }
        lemma_fill_diags(b, ts, d2, fs2, vals.drop_last());
    }
}

/// Completing the float literals keeps the laws of the lexer's output: token
/// and diagnostic spans stay inside the file on character boundaries, token
/// spans stay ordered without overlap with zero-width `Newline`s, and
/// messages stay single lines.
pub proof fn law_finish_keeps_spans(b: Seq<u8>, ts: Seq<TokenV>, ds: Seq<DiagV>, fs: Seq<FloatReqV>,
    vals: Seq<Option<super::token::FloatValue>>)
    requires
        b.len() <= u32::MAX,
        tokens_within(ts, b.len() as int),
        tokens_on_boundaries(b, ts),
        diags_within(ds, b.len() as int),
        diags_on_boundaries(b, ds),
        messages_one_line(ds),
        floats_point_at(fs, ts, ds),
    ensures
        tokens_within(super::fill_tokens(ts, fs, vals), b.len() as int),
        tokens_on_boundaries(b, super::fill_tokens(ts, fs, vals)),
        diags_within(super::fill_diags(ds, fs, vals), b.len() as int),
        diags_on_boundaries(b, super::fill_diags(ds, fs, vals)),
        messages_one_line(super::fill_diags(ds, fs, vals)),
{
    lemma_fill_tokens(b, ts, ds, fs, vals);
    lemma_fill_diags(b, ts, ds, fs, vals);
}

/// The source text of each punctuation token, as the language writes it:
/// `(` for `LParen`, `<=` for `Le`, `..=` for `DotDotEq`, and so on.
pub open spec fn punct_bytes(p: Punct) -> Seq<u8> {
    match p {
        Punct::LParen => seq![40u8],
        Punct::RParen => seq![41u8],
        Punct::LBracket => seq![91u8],
        Punct::RBracket => seq![93u8],
        Punct::LBrace => seq![123u8],
        Punct::RBrace => seq![125u8],
        Punct::HashLBrace => seq![35u8, 123u8],
        Punct::Comma => seq![44u8],
        Punct::Colon => seq![58u8],
        Punct::Semicolon => seq![59u8],
        Punct::Dot => seq![46u8],
        Punct::DotDot => seq![46u8, 46u8],
        Punct::DotDotEq => seq![46u8, 46u8, 61u8],
        Punct::Arrow => seq![45u8, 62u8],
        Punct::FatArrow => seq![61u8, 62u8],
        Punct::Question => seq![63u8],
        Punct::QuestionDot => seq![63u8, 46u8],
        Punct::QuestionQuestion => seq![63u8, 63u8],
        Punct::Eq => seq![61u8],
        Punct::EqEq => seq![61u8, 61u8],
        Punct::NotEq => seq![33u8, 61u8],
        Punct::Lt => seq![60u8],
        Punct::Le => seq![60u8, 61u8],
        Punct::Gt => seq![62u8],
        Punct::Ge => seq![62u8, 61u8],
        Punct::Plus => seq![43u8],
        Punct::Minus => seq![45u8],
        Punct::Star => seq![42u8],
        Punct::Slash => seq![47u8],
        Punct::Percent => seq![37u8],
        Punct::PlusEq => seq![43u8, 61u8],
        Punct::MinusEq => seq![45u8, 61u8],
        Punct::StarEq => seq![42u8, 61u8],
        Punct::SlashEq => seq![47u8, 61u8],
    }
}

/// Whether the bytes from `pos` on begin with `t`.
pub open spec fn starts_with_at(b: Seq<u8>, pos: int, t: Seq<u8>) -> bool {
    pos + t.len() <= b.len() && b.subrange(pos, pos + t.len()) == t
}

/// A punctuation token covers exactly its own text, and the longest one
/// the source offers: no punctuation token whose text also begins there is
/// longer.
pub proof fn law_punct_token_is_its_text(b: Seq<u8>, file: FileId, s: LexV, p: Punct)
    requires
        0 <= s.pos < b.len(),
        scan_token_spec(b, file, s).tokens.len() == s.tokens.len() + 1,
        scan_token_spec(b, file, s).tokens.last().kind == KindV::P(p),
    ensures
        ({
            let e = scan_token_spec(b, file, s).pos;
            &&& e == s.pos + punct_bytes(p).len()
            &&& starts_with_at(b, s.pos, punct_bytes(p))
            &&& forall|q: Punct| #[trigger] starts_with_at(b, s.pos, punct_bytes(q)) ==> punct_bytes(q).len() <= punct_bytes(p).len()
        }),
{
    let pos = s.pos;
    let s2 = scan_token_spec(b, file, s);
    assert(starts_with_at(b, pos, punct_bytes(p))) by {
        assert(b.subrange(pos, pos + punct_bytes(p).len()) =~= punct_bytes(p));
    }
    assert forall|q: Punct| #[trigger] starts_with_at(b, pos, punct_bytes(q)) implies punct_bytes(q).len() <= punct_bytes(p).len() by {
        let t = punct_bytes(q);
        assert(b.subrange(pos, pos + t.len())[0] == b[pos]);
        if t.len() >= 2 {
            assert(b.subrange(pos, pos + t.len())[1] == b[pos + 1]);
        }
        if t.len() >= 3 {
            assert(b.subrange(pos, pos + t.len())[2] == b[pos + 2]);
        }
    }
}

} // verus!
