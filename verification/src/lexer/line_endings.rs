//! Line-ending invariance: a file whose `\n` line breaks are written `\r\n`
//! lexes to the same token kinds, diagnostics and float literals; only the
//! spans move.
//!
//! The proof follows every scanner of [`super::model`] on the two byte
//! sequences side by side: byte `p` of the LF file sits at [`shift`]`(p)` in
//! the CRLF file, where a `\n` became the two bytes `\r\n`.

use vstd::prelude::*;
use vstd::utf8::*;
use crate::diagnostic::DiagV;
use crate::dump::{kind_text_spec, part_text, parts_text};
use crate::source::SourceFile;
use crate::span::{FileId, Span};
use super::cursor::{boundary, byte_at, char_at, lead_width, lemma_boundary_iff, lemma_next_boundary};
use super::model::{FloatReqV, LexV, all_newlines, block_loop, flush_newline_spec, ident_end, lex_loop, lex_spec,
    line_comment_end, next_token_spec, scan_token_spec, trivia_loop};
use super::number::{exp_run, exponent_length_spec, radix_prefix_spec, scan_decimal_spec, scan_digits_from,
    scan_digits_spec, scan_number_spec, starts_fraction};
use super::string::{InterpOut, at_break, bump_pos, escape_spec, flush_v, interp_loop, nested_loop, string_loop};
use super::token::{KindV, PartV, TokenV};

verus! {

// --- The two byte sequences ----------------------------------------------------

/// `b` holds no `\r` byte.
pub open spec fn no_cr(b: Seq<u8>) -> bool {
    forall|i: int| 0 <= i < b.len() ==> b[i] != 13u8
}

/// `b` holds no `\n` byte in `[p, q)`.
pub open spec fn no_lf(b: Seq<u8>, p: int, q: int) -> bool {
    forall|i: int| p <= i < q ==> b[i] != 10u8
}

/// The bytes `b` with every `\n` written as `\r\n`.
pub open spec fn to_crlf(b: Seq<u8>) -> Seq<u8>
    decreases b.len(),
{
    if b.len() == 0 {
        Seq::empty()
    } else {
        to_crlf(b.drop_last()) + (if b.last() == 10u8 { seq![13u8, 10u8] } else { seq![b.last()] })
    }
}

/// Where byte `p` of `b` lands in [`to_crlf`]`(b)`.
pub open spec fn shift(b: Seq<u8>, p: int) -> int
    decreases p,
{
    if p <= 0 {
        0
    } else {
        shift(b, p - 1) + (if b[p - 1] == 10u8 { 2int } else { 1int })
    }
}

/// The byte that stands where a byte of `b` was: `\r` for a `\n`.
pub open spec fn crlf_view(x: Option<u8>) -> Option<u8> {
    if x == Some(10u8) {
        Some(13u8)
    } else {
        x
    }
}

proof fn lemma_shift_drop_last(b: Seq<u8>, p: int)
    requires
        0 <= p < b.len(),
    ensures
        shift(b.drop_last(), p) == shift(b, p),
    decreases p,
{
    if p > 0 {
        lemma_shift_drop_last(b, p - 1);
    }
}

proof fn lemma_shift_ge(b: Seq<u8>, p: int)
    requires
        0 <= p <= b.len(),
    ensures
        p <= shift(b, p),
    decreases p,
{
    if p > 0 {
        lemma_shift_ge(b, p - 1);
    }
}

/// `shift` grows by at least the distance, strictly between distinct offsets.
pub proof fn lemma_shift_mono(b: Seq<u8>, p: int, q: int)
    requires
        0 <= p <= q <= b.len(),
    ensures
        shift(b, p) + (q - p) <= shift(b, q),
        p <= shift(b, p),
    decreases q,
{
    lemma_shift_ge(b, p);
    if q > p {
        lemma_shift_mono(b, p, q - 1);
    }
}

/// Over a stretch without `\n`, `shift` moves one for one.
pub proof fn lemma_shift_plain(b: Seq<u8>, p: int, q: int)
    requires
        0 <= p <= q <= b.len(),
        no_lf(b, p, q),
    ensures
        shift(b, q) == shift(b, p) + (q - p),
    decreases q,
{
    if q > p {
        lemma_shift_plain(b, p, q - 1);
    }
}

/// Where each byte of `b` went in `to_crlf(b)`.
pub proof fn lemma_crlf_layout(b: Seq<u8>)
    ensures
        to_crlf(b).len() == shift(b, b.len() as int),
        forall|p: int| 0 <= p < b.len() ==>
            #[trigger] to_crlf(b)[shift(b, p)] == (if b[p] == 10u8 { 13u8 } else { b[p] }),
        forall|p: int| 0 <= p < b.len() && b[p] == 10u8 ==> to_crlf(b)[#[trigger] shift(b, p) + 1] == 10u8,
    decreases b.len(),
{
    if b.len() > 0 {
        let bd = b.drop_last();
        let n = b.len() - 1;
        lemma_crlf_layout(bd);
        let head = to_crlf(bd);
        let tail: Seq<u8> = if b.last() == 10u8 { seq![13u8, 10u8] } else { seq![b.last()] };
        assert(to_crlf(b) == head + tail);
        lemma_shift_drop_last(b, n);
        assert forall|p: int| 0 <= p < b.len() implies
            #[trigger] to_crlf(b)[shift(b, p)] == (if b[p] == 10u8 { 13u8 } else { b[p] }) by {
            if p < n {
                lemma_shift_drop_last(b, p);
                lemma_shift_mono(bd, p + 1, n);
                assert(bd[p] == b[p]);
            }
        }
        assert forall|p: int| 0 <= p < b.len() && b[p] == 10u8 implies
            to_crlf(b)[#[trigger] shift(b, p) + 1] == 10u8 by {
            if p < n {
                lemma_shift_drop_last(b, p);
                lemma_shift_mono(bd, p + 1, n);
                assert(bd[p] == b[p]);
            }
        }
    }
}

/// The bytes of `c` at the place of byte `p` of `b`.
pub proof fn lemma_view(b: Seq<u8>, c: Seq<u8>, p: int)
    requires
        c == to_crlf(b),
        0 <= p <= b.len(),
    ensures
        0 <= shift(b, p) <= c.len(),
        p == b.len() ==> shift(b, p) == c.len(),
        p < b.len() ==> shift(b, p) < c.len(),
        byte_at(c, shift(b, p)) == crlf_view(byte_at(b, p)),
        p < b.len() && b[p] == 10u8 ==> byte_at(c, shift(b, p) + 1) == Some(10u8)
            && shift(b, p + 1) == shift(b, p) + 2,
        p < b.len() && b[p] != 10u8 ==> shift(b, p + 1) == shift(b, p) + 1,
        boundary(c, shift(b, p)) == boundary(b, p),
{
    lemma_crlf_layout(b);
    lemma_shift_mono(b, 0, p);
    if p < b.len() {
        lemma_shift_mono(b, p + 1, b.len() as int);
    }
}

/// A stretch without `\n` is copied unchanged.
pub proof fn lemma_same_bytes(b: Seq<u8>, c: Seq<u8>, p: int, q: int)
    requires
        c == to_crlf(b),
        0 <= p <= q <= b.len(),
        no_lf(b, p, q),
    ensures
        shift(b, q) == shift(b, p) + (q - p),
        c.subrange(shift(b, p), shift(b, q)) == b.subrange(p, q),
{
    lemma_shift_plain(b, p, q);
    lemma_crlf_layout(b);
    lemma_shift_mono(b, q, b.len() as int);
    assert forall|k: int| 0 <= k < q - p implies
        #[trigger] c.subrange(shift(b, p), shift(b, q))[k] == b.subrange(p, q)[k] by {
        lemma_shift_plain(b, p, p + k);
        assert(c.subrange(shift(b, p), shift(b, q))[k] == c[shift(b, p + k)]);
    }
    assert(c.subrange(shift(b, p), shift(b, q)) =~= b.subrange(p, q));
}

/// A character other than `\n` is copied unchanged, with its width.
pub proof fn lemma_char(b: Seq<u8>, c: Seq<u8>, p: int)
    requires
        c == to_crlf(b),
        valid_utf8(b),
        valid_utf8(c),
        0 <= p < b.len(),
        boundary(b, p),
        b[p] != 10u8,
    ensures
        p + lead_width(b[p]) <= b.len(),
        no_lf(b, p, p + lead_width(b[p])),
        shift(b, p + lead_width(b[p])) == shift(b, p) + lead_width(b[p]),
        c[shift(b, p)] == b[p],
        boundary(c, shift(b, p)),
        char_at(c, shift(b, p)) == char_at(b, p),
        bump_pos(c, shift(b, p)) == shift(b, bump_pos(b, p)),
{
    lemma_view(b, c, p);
    lemma_next_boundary(b, p);
    let w = lead_width(b[p]);
    lemma_boundary_iff(b, p);
    valid_utf8_split(b, p);
    let s = b.subrange(p, b.len() as int);
    assert(s[0] == b[p]);
    assert(valid_first_scalar(s));
    assert(length_of_first_scalar(s) == w);
    assert forall|i: int| p <= i < p + w implies b[i] != 10u8 by {
        assert(b[i] == s[i - p]);
    }
    lemma_same_bytes(b, c, p, p + w);
    let q = shift(b, p);
    lemma_view(b, c, p + w);
    lemma_boundary_iff(c, q);
    valid_utf8_split(c, q);
    let t = c.subrange(q, c.len() as int);
    assert forall|k: int| 0 <= k < w implies t[k] == s[k] by {
        assert(t[k] == c.subrange(q, q + w)[k]);
        assert(s[k] == b.subrange(p, p + w)[k]);
    }
    assert(decode_utf8(s)[0] == decode_first_scalar(s) as char);
    assert(decode_utf8(t)[0] == decode_first_scalar(t) as char);
}

// --- Diagnostics without their positions ------------------------------------------

/// What a diagnostic says, without where: its code and message.
pub open spec fn gist(d: DiagV) -> (Seq<char>, Seq<char>) {
    (d.code, d.message)
}

/// The gists of `ds`, in order.
pub open spec fn gists(ds: Seq<DiagV>) -> Seq<(Seq<char>, Seq<char>)> {
    ds.map_values(|d: DiagV| gist(d))
}

proof fn lemma_gists_push(db: Seq<DiagV>, dc: Seq<DiagV>, xb: DiagV, xc: DiagV)
    requires
        gists(dc) == gists(db),
        gist(xc) == gist(xb),
    ensures
        gists(dc.push(xc)) == gists(db.push(xb)),
{
    assert(gists(db.push(xb)) =~= gists(db).push(gist(xb)));
    assert(gists(dc.push(xc)) =~= gists(dc).push(gist(xc)));
}

// --- Trivia -----------------------------------------------------------------------

proof fn lemma_line_comment(b: Seq<u8>, c: Seq<u8>, p: int)
    requires
        c == to_crlf(b),
        0 <= p <= b.len(),
    ensures
        p <= line_comment_end(b, p) <= b.len(),
        line_comment_end(b, p) < b.len() ==> b[line_comment_end(b, p)] == 10u8,
        line_comment_end(c, shift(b, p)) == (if line_comment_end(b, p) < b.len() {
            shift(b, line_comment_end(b, p)) + 1
        } else {
            shift(b, line_comment_end(b, p))
        }),
    decreases b.len() - p,
{
    lemma_view(b, c, p);
    if p < b.len() && b[p] != 10u8 {
        lemma_line_comment(b, c, p + 1);
    } else if p < b.len() {
        lemma_view(b, c, p + 1);
        let q = shift(b, p);
        assert(line_comment_end(c, q) == line_comment_end(c, q + 1));
    }
}

proof fn lemma_block(b: Seq<u8>, c: Seq<u8>, file: FileId, ob: int, oc: int, q: int, depth: int, saw: bool,
    db: Seq<DiagV>, dc: Seq<DiagV>)
    requires
        c == to_crlf(b),
        no_cr(b),
        0 <= q <= b.len(),
        gists(dc) == gists(db),
    ensures
        ({
            let rb = block_loop(b, file, ob, q, depth, saw, db);
            let rc = block_loop(c, file, oc, shift(b, q), depth, saw, dc);
            &&& q <= rb.end <= b.len()
            &&& rc.end == shift(b, rb.end)
            &&& rc.ok == rb.ok
            &&& rc.saw_newline == rb.saw_newline
            &&& gists(rc.diags) == gists(rb.diags)
        }),
    decreases b.len() - q,
{
    lemma_view(b, c, q);
    let qc = shift(b, q);
    if q >= b.len() {
        lemma_gists_push(db, dc, super::model::unterminated_comment_v(file, ob, q),
            super::model::unterminated_comment_v(file, oc, qc));
    } else {
        lemma_view(b, c, q + 1);
        if b[q] == 42u8 && byte_at(b, q + 1) == Some(47u8) {
            lemma_view(b, c, q + 2);
            if depth - 1 > 0 {
                lemma_block(b, c, file, ob, oc, q + 2, depth - 1, saw, db, dc);
            }
        } else if b[q] == 47u8 && byte_at(b, q + 1) == Some(42u8) {
            lemma_view(b, c, q + 2);
            lemma_block(b, c, file, ob, oc, q + 2, depth + 1, saw, db, dc);
        } else if b[q] == 10u8 {
            assert(block_loop(c, file, oc, qc, depth, saw, dc) == block_loop(c, file, oc, qc + 1, depth, saw, dc));
            assert(block_loop(c, file, oc, qc + 1, depth, saw, dc) == block_loop(c, file, oc, qc + 2, depth, true, dc));
            lemma_block(b, c, file, ob, oc, q + 1, depth, true, db, dc);
        } else {
            lemma_block(b, c, file, ob, oc, q + 1, depth, saw, db, dc);
        }
    }
}

/// Skipping trivia from byte `p` of the LF file and from its place in the
/// CRLF file ends at corresponding places, with the same pending line break,
/// the same abort and the same diagnostics.
proof fn lemma_trivia(b: Seq<u8>, c: Seq<u8>, file: FileId, p: int, pending: bool, db: Seq<DiagV>, dc: Seq<DiagV>)
    requires
        c == to_crlf(b),
        no_cr(b),
        0 <= p <= b.len(),
        gists(dc) == gists(db),
    ensures
        ({
            let tb = trivia_loop(b, file, p, pending, db);
            let tc = trivia_loop(c, file, shift(b, p), pending, dc);
            &&& p <= tb.pos <= b.len()
            &&& tc.pos == shift(b, tb.pos)
            &&& tc.pending == tb.pending
            &&& tc.aborted == tb.aborted
            &&& gists(tc.diags) == gists(tb.diags)
            &&& !tb.aborted && tb.pos < b.len() ==> b[tb.pos] != 10u8
        }),
    decreases b.len() - p,
{
    lemma_view(b, c, p);
    let pc = shift(b, p);
    if p < b.len() {
        lemma_view(b, c, p + 1);
        let x = b[p];
        if x == 32u8 || x == 9u8 || x == 11u8 || x == 12u8 {
            lemma_trivia(b, c, file, p + 1, pending, db, dc);
        } else if x == 10u8 {
            assert(trivia_loop(c, file, pc, pending, dc) == trivia_loop(c, file, pc + 1, true, dc));
            assert(trivia_loop(c, file, pc + 1, true, dc) == trivia_loop(c, file, pc + 2, true, dc));
            lemma_trivia(b, c, file, p + 1, true, db, dc);
        } else if x == 47u8 && byte_at(b, p + 1) == Some(47u8) {
            lemma_line_comment(b, c, p);
            super::model::lemma_line_comment_end(b, p);
            let e = line_comment_end(b, p);
            lemma_view(b, c, e);
            lemma_shift_mono(b, p, e);
            lemma_shift_mono(b, e, b.len() as int);
            let e2 = line_comment_end(c, pc);
            assert(byte_at(c, pc + 1) == Some(47u8));
            assert(pc < e2 <= c.len());
            assert(trivia_loop(b, file, p, pending, db) == trivia_loop(b, file, e, pending, db));
            assert(trivia_loop(c, file, pc, pending, dc) == trivia_loop(c, file, e2, pending, dc));
            if e < b.len() {
                lemma_view(b, c, e + 1);
                let ec = shift(b, e) + 1;
                assert(trivia_loop(c, file, ec, pending, dc) == trivia_loop(c, file, ec + 1, true, dc));
                assert(trivia_loop(b, file, e, pending, db) == trivia_loop(b, file, e + 1, true, db));
                lemma_trivia(b, c, file, e + 1, true, db, dc);
            }
        } else if x == 47u8 && byte_at(b, p + 1) == Some(42u8) {
            lemma_view(b, c, p + 2);
            lemma_block(b, c, file, p, pc, p + 2, 1, false, db, dc);
            let bc = block_loop(b, file, p, p + 2, 1, false, db);
            lemma_view(b, c, bc.end);
            lemma_shift_mono(b, p, bc.end);
            if bc.ok && p < bc.end <= b.len() {
                lemma_trivia(b, c, file, bc.end, pending || bc.saw_newline, bc.diags,
                    block_loop(c, file, pc, pc + 2, 1, false, dc).diags);
            }
        }
    }
}

// --- Token kinds without their positions ------------------------------------------

/// A string part without the span of an interpolated expression.
pub open spec fn erase_part(p: PartV) -> PartV {
    match p {
        PartV::Expr(src, _) => PartV::Expr(src, Span { file: FileId(0), start: 0, end: 0 }),
        _ => p,
    }
}

/// String parts without their spans.
pub open spec fn erase_parts(ps: Seq<PartV>) -> Seq<PartV> {
    ps.map_values(|p: PartV| erase_part(p))
}

/// A token kind without the spans it may hold.
pub open spec fn erase_kind(k: KindV) -> KindV {
    match k {
        KindV::Str(ps) => KindV::Str(erase_parts(ps)),
        _ => k,
    }
}

/// The kinds of `ts`, in order, without spans.
pub open spec fn kinds_of(ts: Seq<TokenV>) -> Seq<KindV> {
    ts.map_values(|t: TokenV| erase_kind(t.kind))
}

proof fn lemma_parts_push(pb: Seq<PartV>, pc: Seq<PartV>, xb: PartV, xc: PartV)
    requires
        erase_parts(pc) == erase_parts(pb),
        erase_part(xc) == erase_part(xb),
    ensures
        erase_parts(pc.push(xc)) == erase_parts(pb.push(xb)),
{
    assert(erase_parts(pb.push(xb)) =~= erase_parts(pb).push(erase_part(xb)));
    assert(erase_parts(pc.push(xc)) =~= erase_parts(pc).push(erase_part(xc)));
}

proof fn lemma_flush(pb: Seq<PartV>, pc: Seq<PartV>, lit: Seq<char>)
    requires
        erase_parts(pc) == erase_parts(pb),
    ensures
        erase_parts(flush_v(pc, lit)) == erase_parts(flush_v(pb, lit)),
{
    if lit.len() > 0 {
        lemma_parts_push(pb, pc, PartV::Lit(lit), PartV::Lit(lit));
    }
}

// --- Strings ----------------------------------------------------------------------

/// The character of an ASCII byte is that byte.
proof fn lemma_ascii_char(b: Seq<u8>, p: int)
    requires
        valid_utf8(b),
        0 <= p < b.len(),
        boundary(b, p),
        b[p] < 0x80,
    ensures
        char_at(b, p) as u32 == b[p] as u32,
        b[p] == 10u8 ==> char_at(b, p) == '\n',
        b[p] == 13u8 ==> char_at(b, p) == '\r',
{
    lemma_boundary_iff(b, p);
    valid_utf8_split(b, p);
    let s = b.subrange(p, b.len() as int);
    assert(s[0] == b[p]);
    assert(decode_utf8(s)[0] == decode_first_scalar(s) as char);
    let x = b[p];
    assert(x & 0x7F == x) by (bit_vector)
        requires x < 0x80;
    if x == 10u8 {
        assert((10u32 as char) == '\n');
    }
    if x == 13u8 {
        assert((13u32 as char) == '\r');
    }
}

/// At a place that is a `\n` in the LF file, or no character at all, both
/// files step over the same bytes.
proof fn lemma_bump_after(b: Seq<u8>, c: Seq<u8>, k: int)
    requires
        c == to_crlf(b),
        no_cr(b),
        valid_utf8(b),
        valid_utf8(c),
        0 <= k <= b.len(),
    ensures
        at_break(c, shift(b, k)) == at_break(b, k),
        !at_break(b, k) ==> bump_pos(c, shift(b, k)) == shift(b, bump_pos(b, k))
            && k <= bump_pos(b, k) <= b.len()
            && no_lf(b, k, bump_pos(b, k)),
{
    lemma_view(b, c, k);
    if k < b.len() && boundary(b, k) && b[k] != 10u8 {
        lemma_char(b, c, k);
    }
}

proof fn lemma_escape(b: Seq<u8>, c: Seq<u8>, file: FileId, i: int, lit: Seq<char>, db: Seq<DiagV>, dc: Seq<DiagV>)
    requires
        c == to_crlf(b),
        no_cr(b),
        valid_utf8(b),
        valid_utf8(c),
        0 <= i < b.len(),
        b[i] == 92u8,
        gists(dc) == gists(db),
    ensures
        ({
            let eb = escape_spec(b, file, i, lit, db);
            let ec = escape_spec(c, file, shift(b, i), lit, dc);
            &&& i < eb.end <= b.len()
            &&& ec.end == shift(b, eb.end)
            &&& ec.lit == eb.lit
            &&& ec.ok == eb.ok
            &&& gists(ec.diags) == gists(eb.diags)
        }),
{
    lemma_view(b, c, i);
    let p = i + 1;
    lemma_view(b, c, p);
    super::string::lemma_escape_end(b, file, i, lit, db);
    let ic = shift(b, i);
    if !(boundary(b, p) && p < b.len()) {
        lemma_gists_push(db, dc, super::string::unterminated_v(file, i, p), super::string::unterminated_v(file, ic, ic + 1));
    } else if b[p] == 10u8 {
        lemma_ascii_char(b, p);
        lemma_ascii_char(c, shift(b, p));
        lemma_gists_push(db, dc, super::string::escaped_break_v(file, i), super::string::escaped_break_v(file, ic));
    } else {
        lemma_char(b, c, p);
        let e = p + lead_width(b[p]);
        let ch = char_at(b, p);
        let pc = ic + 1;
        assert(pc == shift(b, p));
        assert(char_at(c, pc) == ch);
        let xb = super::string::unknown_escape_v(file, i, e, ch);
        let xc = super::string::unknown_escape_v(file, ic, pc + lead_width(c[pc]), char_at(c, pc));
        if ch == '\n' || ch == '\r' {
            lemma_gists_push(db, dc, super::string::escaped_break_v(file, i), super::string::escaped_break_v(file, ic));
        } else {
            lemma_gists_push(db, dc, xb, xc);
        }
    }
}

proof fn lemma_nested(b: Seq<u8>, c: Seq<u8>, file: FileId, ob: int, oc: int, k: int, db: Seq<DiagV>, dc: Seq<DiagV>)
    requires
        c == to_crlf(b),
        no_cr(b),
        valid_utf8(b),
        valid_utf8(c),
        0 <= k <= b.len(),
        gists(dc) == gists(db),
    ensures
        ({
            let nb = nested_loop(b, file, ob, k, db);
            let nc = nested_loop(c, file, oc, shift(b, k), dc);
            &&& k <= nb.end <= b.len()
            &&& nc.end == shift(b, nb.end)
            &&& nc.ok == nb.ok
            &&& gists(nc.diags) == gists(nb.diags)
            &&& nb.ok ==> no_lf(b, k, nb.end)
        }),
    decreases b.len() - k,
{
    lemma_view(b, c, k);
    let kc = shift(b, k);
    if k >= b.len() {
        lemma_gists_push(db, dc, super::string::unterminated_v(file, ob, k), super::string::unterminated_v(file, oc, kc));
    } else if b[k] == 10u8 {
        lemma_gists_push(db, dc, super::string::break_in_nested_v(file, ob, k),
            super::string::break_in_nested_v(file, oc, kc));
    } else if b[k] == 92u8 {
        let k1 = k + 1;
        lemma_view(b, c, k1);
        lemma_bump_after(b, c, k1);
        let k2 = if at_break(b, k1) { k1 } else { bump_pos(b, k1) };
        lemma_shift_mono(b, k, k2);
        lemma_view(b, c, k2);
        lemma_nested(b, c, file, ob, oc, k2, db, dc);
        let nb = nested_loop(b, file, ob, k2, db);
        if nb.ok {
            assert forall|x: int| k <= x < nb.end implies b[x] != 10u8 by {
                if x >= k2 {
                    assert(no_lf(b, k2, nb.end));
                } else if x >= k1 {
                    assert(no_lf(b, k1, k2));
                }
            }
        }
    } else if b[k] == 34u8 {
        lemma_view(b, c, k + 1);
    } else {
        lemma_view(b, c, k + 1);
        lemma_nested(b, c, file, ob, oc, k + 1, db, dc);
        let nb = nested_loop(b, file, ob, k + 1, db);
        if nb.ok {
            assert forall|x: int| k <= x < nb.end implies b[x] != 10u8 by {
                if x > k {
                    assert(no_lf(b, k + 1, nb.end));
                }
            }
        }
    }
}

proof fn lemma_interp(b: Seq<u8>, c: Seq<u8>, file: FileId, ob: int, j: int, depth: int, reported: bool,
    db: Seq<DiagV>, dc: Seq<DiagV>)
    requires
        c == to_crlf(b),
        no_cr(b),
        valid_utf8(b),
        valid_utf8(c),
        0 <= ob < j <= b.len(),
        b[ob] == 123u8,
        no_lf(b, ob + 1, j),
        gists(dc) == gists(db),
    ensures
        ({
            let ib = interp_loop(b, file, ob, j, depth, reported, db);
            let ic = interp_loop(c, file, shift(b, ob), shift(b, j), depth, reported, dc);
            &&& j <= ib.end <= b.len()
            &&& ic.end == shift(b, ib.end)
            &&& gists(ic.diags) == gists(ib.diags)
            &&& match (ib.out, ic.out) {
                (InterpOut::Part(pb), InterpOut::Part(pc)) => erase_part(pc) == erase_part(pb),
                (InterpOut::Recovered, InterpOut::Recovered) => true,
                (InterpOut::Unterminated, InterpOut::Unterminated) => true,
                _ => false,
            }
        }),
    decreases b.len() - j,
{
    lemma_view(b, c, j);
    lemma_view(b, c, ob);
    let oc = shift(b, ob);
    let jc = shift(b, j);
    if j >= b.len() || b[j] == 10u8 {
        lemma_gists_push(db, dc, super::string::unclosed_interpolation_v(file, ob, j),
            super::string::unclosed_interpolation_v(file, oc, jc));
    } else if b[j] == 92u8 {
        let j1 = j + 1;
        lemma_view(b, c, j1);
        lemma_bump_after(b, c, j1);
        let j2 = if at_break(b, j1) { j1 } else { bump_pos(b, j1) };
        lemma_shift_mono(b, j, j2);
        lemma_view(b, c, j2);
        let d2b = if reported { db } else { db.push(super::string::backslash_in_interpolation_v(file, j)) };
        let d2c = if reported { dc } else { dc.push(super::string::backslash_in_interpolation_v(file, jc)) };
        lemma_gists_push(db, dc, super::string::backslash_in_interpolation_v(file, j),
            super::string::backslash_in_interpolation_v(file, jc));
        assert forall|x: int| ob + 1 <= x < j2 implies b[x] != 10u8 by {
            if x >= j1 {
                assert(no_lf(b, j1, j2));
            } else if x < j {
                assert(no_lf(b, ob + 1, j));
            }
        }
        lemma_interp(b, c, file, ob, j2, depth, true, d2b, d2c);
    } else if b[j] == 34u8 {
        lemma_view(b, c, j + 1);
        lemma_nested(b, c, file, j, jc, j + 1, db, dc);
        let nb = nested_loop(b, file, j, j + 1, db);
        let nc = nested_loop(c, file, jc, jc + 1, dc);
        lemma_shift_mono(b, j, nb.end);
        lemma_view(b, c, nb.end);
        if nb.ok && j < nb.end <= b.len() {
            assert forall|x: int| ob + 1 <= x < nb.end implies b[x] != 10u8 by {
                if x > j {
                    assert(no_lf(b, j + 1, nb.end));
                } else if x < j {
                    assert(no_lf(b, ob + 1, j));
                }
            }
            lemma_interp(b, c, file, ob, nb.end, depth, reported, nb.diags, nc.diags);
        }
    } else if b[j] == 123u8 {
        lemma_view(b, c, j + 1);
        assert forall|x: int| ob + 1 <= x < j + 1 implies b[x] != 10u8 by {
            if x < j {
                assert(no_lf(b, ob + 1, j));
            }
        }
        lemma_interp(b, c, file, ob, j + 1, depth + 1, reported, db, dc);
    } else if b[j] == 125u8 {
        lemma_view(b, c, j + 1);
        if depth - 1 == 0 {
            lemma_view(b, c, ob + 1);
            lemma_same_bytes(b, c, ob + 1, j);
            lemma_gists_push(db, dc, super::string::empty_interpolation_v(file, ob, j + 1),
                super::string::empty_interpolation_v(file, oc, jc + 1));
        } else {
            assert forall|x: int| ob + 1 <= x < j + 1 implies b[x] != 10u8 by {
                if x < j {
                    assert(no_lf(b, ob + 1, j));
                }
            }
            lemma_interp(b, c, file, ob, j + 1, depth - 1, reported, db, dc);
        }
    } else {
        lemma_view(b, c, j + 1);
        assert forall|x: int| ob + 1 <= x < j + 1 implies b[x] != 10u8 by {
            if x < j {
                assert(no_lf(b, ob + 1, j));
            }
        }
        lemma_interp(b, c, file, ob, j + 1, depth, reported, db, dc);
    }
}

proof fn lemma_string_loop(b: Seq<u8>, c: Seq<u8>, file: FileId, ob: int, oc: int, i: int, pb: Seq<PartV>,
    pc: Seq<PartV>, lit: Seq<char>, ok: bool, db: Seq<DiagV>, dc: Seq<DiagV>)
    requires
        c == to_crlf(b),
        no_cr(b),
        valid_utf8(b),
        valid_utf8(c),
        0 <= i <= b.len(),
        erase_parts(pc) == erase_parts(pb),
        gists(dc) == gists(db),
    ensures
        ({
            let sb = string_loop(b, file, ob, i, pb, lit, ok, db);
            let sc = string_loop(c, file, oc, shift(b, i), pc, lit, ok, dc);
            &&& i <= sb.end <= b.len()
            &&& sc.end == shift(b, sb.end)
            &&& erase_parts(sc.parts) == erase_parts(sb.parts)
            &&& sc.valid == sb.valid
            &&& gists(sc.diags) == gists(sb.diags)
        }),
    decreases b.len() - i,
{
    lemma_view(b, c, i);
    let ic = shift(b, i);
    lemma_flush(pb, pc, lit);
    if i >= b.len() {
        lemma_gists_push(db, dc, super::string::unterminated_v(file, ob, i), super::string::unterminated_v(file, oc, ic));

    } else if b[i] == 10u8 {
        lemma_gists_push(db, dc, super::string::break_in_string_v(file, ob, i),
            super::string::break_in_string_v(file, oc, ic));

    } else if b[i] == 34u8 {
        lemma_view(b, c, i + 1);
    } else if b[i] == 92u8 {
        lemma_escape(b, c, file, i, lit, db, dc);
        let eb = escape_spec(b, file, i, lit, db);
        let ec = escape_spec(c, file, ic, lit, dc);
        lemma_shift_mono(b, i, eb.end);
        lemma_view(b, c, eb.end);
        lemma_string_loop(b, c, file, ob, oc, eb.end, pb, pc, eb.lit, ok && eb.ok, eb.diags, ec.diags);
    } else if b[i] == 123u8 {
        lemma_view(b, c, i + 1);
        if byte_at(b, i + 1) == Some(123u8) {
            lemma_view(b, c, i + 2);
            lemma_string_loop(b, c, file, ob, oc, i + 2, pb, pc, lit.push('{'), ok, db, dc);
        } else {
            let pb2 = flush_v(pb, lit);
            let pc2 = flush_v(pc, lit);
            lemma_interp(b, c, file, i, i + 1, 1, false, db, dc);
            let ib = super::string::interp_spec(b, file, i, db);
            let icv = super::string::interp_spec(c, file, ic, dc);
            lemma_shift_mono(b, i, ib.end);
            lemma_view(b, c, ib.end);
            if i < ib.end <= b.len() {
                match (ib.out, icv.out) {
                    (InterpOut::Part(xb), InterpOut::Part(xc)) => {
                        lemma_parts_push(pb2, pc2, xb, xc);
                        assert(ib.diags.len() == gists(ib.diags).len() && icv.diags.len() == gists(icv.diags).len());
                        assert(db.len() == gists(db).len() && dc.len() == gists(dc).len());
                        lemma_string_loop(b, c, file, ob, oc, ib.end, pb2.push(xb), pc2.push(xc), Seq::empty(),
                            ok && ib.diags.len() == db.len(), ib.diags, icv.diags);
                    },
                    (InterpOut::Recovered, InterpOut::Recovered) => {
                        lemma_string_loop(b, c, file, ob, oc, ib.end, pb2, pc2, Seq::empty(), false, ib.diags,
                            icv.diags);
                    },
                    _ => {},
                }
            }
        }
    } else if b[i] == 125u8 {
        lemma_view(b, c, i + 1);
        if byte_at(b, i + 1) == Some(125u8) {
            lemma_view(b, c, i + 2);
            lemma_string_loop(b, c, file, ob, oc, i + 2, pb, pc, lit.push('}'), ok, db, dc);
        } else {
            let xb = super::string::stray_close_v(file, i);
            let xc = super::string::stray_close_v(file, ic);
            lemma_gists_push(db, dc, xb, xc);
            lemma_string_loop(b, c, file, ob, oc, i + 1, pb, pc, lit, false, db.push(xb), dc.push(xc));
        }
    } else if boundary(b, i) && i + lead_width(b[i]) <= b.len() {
        lemma_char(b, c, i);
        lemma_view(b, c, i + lead_width(b[i]));
        lemma_string_loop(b, c, file, ob, oc, i + lead_width(b[i]), pb, pc, lit.push(char_at(b, i)), ok, db, dc);
    } else if boundary(b, i) {
        lemma_next_boundary(b, i);
    }
}

/// Scanning a string literal whose quote is at `open` in the LF file and at
/// its place in the CRLF file.
proof fn lemma_string(b: Seq<u8>, c: Seq<u8>, file: FileId, open: int, db: Seq<DiagV>, dc: Seq<DiagV>)
    requires
        c == to_crlf(b),
        no_cr(b),
        valid_utf8(b),
        valid_utf8(c),
        0 <= open < b.len(),
        b[open] == 34u8,
        gists(dc) == gists(db),
    ensures
        ({
            let sb = super::string::string_spec(b, file, open, db);
            let sc = super::string::string_spec(c, file, shift(b, open), dc);
            &&& open < sb.end <= b.len()
            &&& sc.end == shift(b, sb.end)
            &&& erase_parts(sc.parts) == erase_parts(sb.parts)
            &&& gists(sc.diags) == gists(sb.diags)
        }),
{
    lemma_view(b, c, open);
    lemma_string_loop(b, c, file, open, shift(b, open), open + 1, Seq::empty(), Seq::empty(), Seq::empty(), true,
        db, dc);
}

// --- Numbers ----------------------------------------------------------------------

proof fn lemma_digits(b: Seq<u8>, c: Seq<u8>, i: int, radix: u32, digits: Seq<u8>, malformed: bool,
    last_sep: bool, saw_digit: bool)
    requires
        c == to_crlf(b),
        no_cr(b),
        0 <= i <= b.len(),
    ensures
        ({
            let rb = scan_digits_from(b, i, radix, digits, malformed, last_sep, saw_digit);
            let rc = scan_digits_from(c, shift(b, i), radix, digits, malformed, last_sep, saw_digit);
            &&& i <= rb.0 <= b.len()
            &&& rc.0 == shift(b, rb.0)
            &&& rc.1 == rb.1
            &&& rc.2 == rb.2
            &&& no_lf(b, i, rb.0)
        }),
    decreases b.len() - i,
{
    lemma_view(b, c, i);
    if 0 <= i < b.len() && b[i] == 95u8 {
        lemma_digits(b, c, i + 1, radix, digits, malformed || !saw_digit || last_sep, true, saw_digit);
    } else if 0 <= i < b.len() && super::number::digit_in_radix(b[i], radix) {
        lemma_digits(b, c, i + 1, radix, digits.push(b[i]), malformed, false, true);
    }
}

proof fn lemma_exp_run(b: Seq<u8>, c: Seq<u8>, p: int, len: int)
    requires
        c == to_crlf(b),
        no_cr(b),
        0 <= p,
        0 <= len,
        p + len <= b.len(),
        no_lf(b, p, p + len),
    ensures
        exp_run(c, shift(b, p), len) == exp_run(b, p, len),
        len <= exp_run(b, p, len),
        p + exp_run(b, p, len) <= b.len(),
        no_lf(b, p, p + exp_run(b, p, len)),
    decreases b.len() - (p + len),
{
    lemma_same_bytes(b, c, p, p + len);
    lemma_view(b, c, p + len);
    if 0 <= p + len < b.len() && (super::number::is_ascii_digit(b[p + len]) || b[p + len] == 95u8) {
        lemma_exp_run(b, c, p, len + 1);
    }
}

/// A decimal literal scans alike in both files.
proof fn lemma_decimal(b: Seq<u8>, c: Seq<u8>, file: FileId, start: int)
    requires
        c == to_crlf(b),
        no_cr(b),
        0 <= start < b.len(),
        48u8 <= b[start] <= 57u8,
    ensures
        ({
            let nb = scan_decimal_spec(b, file, start);
            let nc = scan_decimal_spec(c, file, shift(b, start));
            &&& start < nb.end <= b.len()
            &&& nc.end == shift(b, nb.end)
            &&& nc.outcome == nb.outcome
            &&& match (nb.diag, nc.diag) {
                (Some(x), Some(y)) => gist(x) == gist(y),
                (None, None) => true,
                _ => false,
            }
        }),
{
    let sc = shift(b, start);
    lemma_view(b, c, start);
    lemma_digits(b, c, start, 10, Seq::empty(), false, false, false);
    lemma_digits(b, c, start + 1, 10, seq![b[start]], false, false, true);
    assert(Seq::<u8>::empty().push(b[start]) == seq![b[start]]);
    let (e1, int_digits, mal1) = scan_digits_spec(b, start, 10);
    assert(e1 > start);
    let (e1c, int_digits_c, mal1c) = scan_digits_spec(c, sc, 10);
    assert(e1c == shift(b, e1) && int_digits_c == int_digits && mal1c == mal1);
    lemma_view(b, c, e1);
    if !(mal1 || int_digits.len() == 0) {
        let frac = starts_fraction(b, e1);
        if byte_at(b, e1) == Some(46u8) {
            lemma_view(b, c, e1 + 1);
        }
        assert(starts_fraction(c, e1c) == frac);
        let (e2, frac_digits, mal2) = scan_digits_spec(b, e1 + 1, 10);
        let (e2c, frac_digits_c, mal2c) = scan_digits_spec(c, e1c + 1, 10);
        if frac {
            lemma_digits(b, c, e1 + 1, 10, Seq::empty(), false, false, false);
            lemma_view(b, c, e2);
            assert(e2c == shift(b, e2) && frac_digits_c == frac_digits && mal2c == mal2);
        }
        if !(frac && (mal2 || frac_digits.len() == 0)) {
            let p = if frac { e2 } else { e1 };
            let pc = if frac { e2c } else { e1c };
            assert(pc == shift(b, p));
            assert(no_lf(b, start, p)) by {
                if frac {
                    assert(no_lf(b, start, e1));
                    assert(no_lf(b, e1 + 1, e2));
                }
            }
            lemma_view(b, c, p);
            lemma_same_bytes(b, c, start, p);
            if exponent_length_spec(b, p).is_some() {
                lemma_view(b, c, p + 1);
                let signed = byte_at(b, p + 1) == Some(43u8) || byte_at(b, p + 1) == Some(45u8);
                let st: int = if signed { 2 } else { 1 };
                if signed {
                    lemma_view(b, c, p + 2);
                }
                lemma_exp_run(b, c, p, st);
                let len = exp_run(b, p, st);
                assert(exponent_length_spec(b, p) == Some(len));
                assert(exponent_length_spec(c, pc) == Some(len));
                let end = p + len;
                lemma_same_bytes(b, c, p, end);
                lemma_same_bytes(b, c, start, end);
                lemma_view(b, c, end);
                let ds = p + 1 + (if signed { 1int } else { 0int });
                lemma_same_bytes(b, c, p, ds);
                lemma_same_bytes(b, c, ds, end);
            } else {
                assert(exponent_length_spec(c, pc).is_none());
            }
        }
    }
}

/// The same bytes scan to the same literal; only the span moves.
proof fn lemma_number(b: Seq<u8>, c: Seq<u8>, file: FileId, start: int)
    requires
        c == to_crlf(b),
        no_cr(b),
        0 <= start < b.len(),
        48u8 <= b[start] <= 57u8,
    ensures
        ({
            let nb = scan_number_spec(b, file, start);
            let nc = scan_number_spec(c, file, shift(b, start));
            &&& start < nb.end <= b.len()
            &&& nc.end == shift(b, nb.end)
            &&& nc.outcome == nb.outcome
            &&& match (nb.diag, nc.diag) {
                (Some(x), Some(y)) => gist(x) == gist(y),
                (None, None) => true,
                _ => false,
            }
        }),
{
    let sc = shift(b, start);
    lemma_view(b, c, start);
    lemma_view(b, c, start + 1);
    assert(radix_prefix_spec(c, sc) == radix_prefix_spec(b, start));
    match radix_prefix_spec(b, start) {
        Some(radix) => {
            lemma_view(b, c, start + 2);
            lemma_digits(b, c, start + 2, radix, Seq::empty(), false, false, false);
        },
        None => {
            lemma_decimal(b, c, file, start);
        },
    }
}

// --- Whole lexer states ---------------------------------------------------------

/// What a pending float literal says, without its span.
pub open spec fn float_gist(f: FloatReqV) -> (Seq<char>, int, int) {
    (f.text, f.token, f.diagnostic)
}

/// The gists of `fs`, in order.
pub open spec fn floats_gist(fs: Seq<FloatReqV>) -> Seq<(Seq<char>, int, int)> {
    fs.map_values(|f: FloatReqV| float_gist(f))
}

/// A state of the lexer on the LF bytes `b` and one on their CRLF form that
/// agree in everything but positions.
pub open spec fn related(b: Seq<u8>, sb: LexV, sc: LexV) -> bool {
    &&& 0 <= sb.pos <= b.len()
    &&& sc.pos == shift(b, sb.pos)
    &&& kinds_of(sc.tokens) == kinds_of(sb.tokens)
    &&& gists(sc.diags) == gists(sb.diags)
    &&& sc.delims == sb.delims
    &&& sc.pending == sb.pending
    &&& floats_gist(sc.floats) == floats_gist(sb.floats)
}

proof fn lemma_tokens_push(tb: Seq<TokenV>, tc: Seq<TokenV>, xb: TokenV, xc: TokenV)
    requires
        kinds_of(tc) == kinds_of(tb),
        erase_kind(xc.kind) == erase_kind(xb.kind),
    ensures
        kinds_of(tc.push(xc)) == kinds_of(tb.push(xb)),
        tc.len() == tb.len(),
{
    assert(kinds_of(tb.push(xb)) =~= kinds_of(tb).push(erase_kind(xb.kind)));
    assert(kinds_of(tc.push(xc)) =~= kinds_of(tc).push(erase_kind(xc.kind)));
    assert(kinds_of(tc).len() == kinds_of(tb).len());
}

proof fn lemma_all_newlines(tb: Seq<TokenV>, tc: Seq<TokenV>)
    requires
        kinds_of(tc) == kinds_of(tb),
    ensures
        all_newlines(tc) == all_newlines(tb),
        tc.len() == tb.len(),
{
    assert(kinds_of(tb).len() == tb.len());
    assert(kinds_of(tc).len() == tc.len());
    assert forall|i: int| 0 <= i < tb.len() implies (#[trigger] tb[i].kind is Newline) == (tc[i].kind is Newline) by {
        assert(kinds_of(tb)[i] == erase_kind(tb[i].kind));
        assert(kinds_of(tc)[i] == erase_kind(tc[i].kind));
    }
    if all_newlines(tb) {
        assert forall|i: int| 0 <= i < tc.len() implies #[trigger] tc[i].kind is Newline by {
            assert(tb[i].kind is Newline);
        }
    }
    if all_newlines(tc) {
        assert forall|i: int| 0 <= i < tb.len() implies #[trigger] tb[i].kind is Newline by {
            assert(tc[i].kind is Newline);
        }
    }
}

proof fn lemma_floats_push(fb: Seq<FloatReqV>, fc: Seq<FloatReqV>, xb: FloatReqV, xc: FloatReqV)
    requires
        floats_gist(fc) == floats_gist(fb),
        float_gist(xc) == float_gist(xb),
    ensures
        floats_gist(fc.push(xc)) == floats_gist(fb.push(xb)),
{
    assert(floats_gist(fb.push(xb)) =~= floats_gist(fb).push(float_gist(xb)));
    assert(floats_gist(fc.push(xc)) =~= floats_gist(fc).push(float_gist(xc)));
}

proof fn lemma_ident(b: Seq<u8>, c: Seq<u8>, p: int)
    requires
        c == to_crlf(b),
        no_cr(b),
        0 <= p <= b.len(),
    ensures
        p <= ident_end(b, p) <= b.len(),
        ident_end(c, shift(b, p)) == shift(b, ident_end(b, p)),
        no_lf(b, p, ident_end(b, p)),
        (p < b.len() && (super::model::is_alnum(b[p]) || b[p] == 95u8)) ==> p < ident_end(b, p),
    decreases b.len() - p,
{
    lemma_view(b, c, p);
    if 0 <= p < b.len() && (super::model::is_alnum(b[p]) || b[p] == 95u8) {
        lemma_ident(b, c, p + 1);
    }
}

/// Emitting a token of `len` bytes that are no `\n` keeps the states related.
proof fn lemma_punct(b: Seq<u8>, c: Seq<u8>, file: FileId, sb: LexV, sc: LexV, kind: KindV, len: int)
    requires
        c == to_crlf(b),
        related(b, sb, sc),
        0 <= len,
        sb.pos + len <= b.len(),
        no_lf(b, sb.pos, sb.pos + len),
    ensures
        related(b, super::model::punct_spec(file, sb, kind, len), super::model::punct_spec(file, sc, kind, len)),
{
    lemma_same_bytes(b, c, sb.pos, sb.pos + len);
    lemma_tokens_push(sb.tokens, sc.tokens, super::model::tok(kind, file, sb.pos, sb.pos + len),
        super::model::tok(kind, file, sc.pos, sc.pos + len));
}

proof fn lemma_invalid_char(b: Seq<u8>, c: Seq<u8>, file: FileId, sb: LexV, sc: LexV)
    requires
        c == to_crlf(b),
        no_cr(b),
        valid_utf8(b),
        valid_utf8(c),
        related(b, sb, sc),
        sb.pos < b.len(),
        b[sb.pos] != 10u8,
    ensures
        related(b, super::model::invalid_char_spec(b, file, sb), super::model::invalid_char_spec(c, file, sc)),
        sb.pos <= super::model::invalid_char_spec(b, file, sb).pos <= b.len(),
{
    let p = sb.pos;
    lemma_view(b, c, p);
    super::string::lemma_bump_pos(b, p);
    if boundary(b, p) {
        lemma_char(b, c, p);
    }
    let e = bump_pos(b, p);
    let ec = bump_pos(c, sc.pos);
    assert(ec == shift(b, e));
    let nb = boundary(b, p) && 0 <= p < b.len() && (char_at(b, p) as u32) >= 0x80;
    let nc = boundary(c, sc.pos) && 0 <= sc.pos < c.len() && (char_at(c, sc.pos) as u32) >= 0x80;
    assert(nb == nc);
    lemma_gists_push(sb.diags, sc.diags, super::model::invalid_char_v(file, p, e, nb),
        super::model::invalid_char_v(file, sc.pos, ec, nc));
}

proof fn lemma_number_step(b: Seq<u8>, c: Seq<u8>, file: FileId, sb: LexV, sc: LexV)
    requires
        c == to_crlf(b),
        no_cr(b),
        related(b, sb, sc),
        sb.pos < b.len(),
        48u8 <= b[sb.pos] <= 57u8,
    ensures
        related(b, super::model::number_step(b, file, sb), super::model::number_step(c, file, sc)),
        sb.pos < super::model::number_step(b, file, sb).pos <= b.len(),
{
    let p = sb.pos;
    lemma_number(b, c, file, p);
    let nb = scan_number_spec(b, file, p);
    let nc = scan_number_spec(c, file, sc.pos);
    let db = match nb.diag {
        Some(d) => sb.diags.push(d),
        None => sb.diags,
    };
    let dc = match nc.diag {
        Some(d) => sc.diags.push(d),
        None => sc.diags,
    };
    match (nb.diag, nc.diag) {
        (Some(x), Some(y)) => lemma_gists_push(sb.diags, sc.diags, x, y),
        _ => {},
    }
    assert(gists(dc) == gists(db));
    assert(kinds_of(sc.tokens).len() == kinds_of(sb.tokens).len());
    assert(gists(sc.diags).len() == gists(sb.diags).len());
    let kb = match nb.outcome {
        super::number::NumV::Int(v) => KindV::Int(v),
        super::number::NumV::Float(_) => KindV::Float(0, seq!['0']),
        super::number::NumV::Invalid(float) => if float { KindV::Float(0, seq!['0']) } else { KindV::Int(0) },
    };
    lemma_tokens_push(sb.tokens, sc.tokens, super::model::tok(kb, file, p, nb.end),
        super::model::tok(kb, file, sc.pos, nc.end));
    match nb.outcome {
        super::number::NumV::Float(text) => {
            lemma_floats_push(sb.floats, sc.floats,
                FloatReqV { text: super::model::ascii_chars(text), token: sb.tokens.len() as int,
                    diagnostic: sb.diags.len() as int, span: super::string::sp(file, p, nb.end) },
                FloatReqV { text: super::model::ascii_chars(text), token: sc.tokens.len() as int,
                    diagnostic: sc.diags.len() as int, span: super::string::sp(file, sc.pos, nc.end) });
        },
        _ => {},
    }
}

#[verifier::spinoff_prover]
#[verifier::rlimit(40)]
proof fn lemma_scan_token(b: Seq<u8>, c: Seq<u8>, file: FileId, sb: LexV, sc: LexV)
    requires
        c == to_crlf(b),
        no_cr(b),
        valid_utf8(b),
        valid_utf8(c),
        related(b, sb, sc),
        sb.pos < b.len(),
        b[sb.pos] != 10u8,
    ensures
        related(b, scan_token_spec(b, file, sb), scan_token_spec(c, file, sc)),
        sb.pos <= scan_token_spec(b, file, sb).pos <= b.len(),
{
    let p = sb.pos;
    let x = b[p];
    lemma_view(b, c, p);
    lemma_view(b, c, p + 1);
    if p + 1 < b.len() && b[p + 1] != 10u8 {
        lemma_view(b, c, p + 2);
    }
    let ob = |d: super::model::Delimiter| LexV { delims: sb.delims.push(d), ..sb };
    let oc = |d: super::model::Delimiter| LexV { delims: sc.delims.push(d), ..sc };
    if x == 40u8 {
        lemma_punct(b, c, file, ob(super::model::Delimiter::Paren), oc(super::model::Delimiter::Paren),
            KindV::P(super::token::Punct::LParen), 1);
    } else if x == 91u8 {
        lemma_punct(b, c, file, ob(super::model::Delimiter::Bracket), oc(super::model::Delimiter::Bracket),
            KindV::P(super::token::Punct::LBracket), 1);
    } else if x == 123u8 {
        lemma_punct(b, c, file, ob(super::model::Delimiter::Brace), oc(super::model::Delimiter::Brace),
            KindV::P(super::token::Punct::LBrace), 1);
    } else if x == 41u8 || x == 93u8 || x == 125u8 {
        let (d1, d2, k) = if x == 41u8 {
            (super::model::Delimiter::Paren, super::model::Delimiter::Paren, KindV::P(super::token::Punct::RParen))
        } else if x == 93u8 {
            (super::model::Delimiter::Bracket, super::model::Delimiter::Bracket,
                KindV::P(super::token::Punct::RBracket))
        } else {
            (super::model::Delimiter::Brace, super::model::Delimiter::HashBrace, KindV::P(super::token::Punct::RBrace))
        };
        let ub = LexV { delims: super::model::unwind(sb.delims, d1, d2), ..sb };
        let uc = LexV { delims: super::model::unwind(sc.delims, d1, d2), ..sc };
        lemma_punct(b, c, file, ub, uc, k, 1);
    } else if x == 35u8 && byte_at(b, p + 1) == Some(123u8) {
        lemma_punct(b, c, file, ob(super::model::Delimiter::HashBrace), oc(super::model::Delimiter::HashBrace),
            KindV::P(super::token::Punct::HashLBrace), 2);
    } else if x == 44u8 || x == 58u8 || x == 59u8 || x == 37u8 {
        lemma_punct(b, c, file, sb, sc, scan_token_spec(b, file, sb).tokens.last().kind, 1);
    } else if x == 34u8 {
        lemma_string(b, c, file, p, sb.diags, sc.diags);
        let vb = super::string::string_spec(b, file, p, sb.diags);
        let vc = super::string::string_spec(c, file, sc.pos, sc.diags);
        lemma_tokens_push(sb.tokens, sc.tokens, super::model::tok(KindV::Str(vb.parts), file, p, vb.end),
            super::model::tok(KindV::Str(vc.parts), file, sc.pos, vc.end));
    } else if 48u8 <= x <= 57u8 {
        lemma_number_step(b, c, file, sb, sc);
    } else if (97u8 <= x <= 122u8) || (65u8 <= x <= 90u8) || x == 95u8 {
        lemma_ident(b, c, p);
        let e = ident_end(b, p);
        lemma_same_bytes(b, c, p, e);
        let kb = super::model::word_kind(decode_utf8(b.subrange(p, e)));
        lemma_tokens_push(sb.tokens, sc.tokens, super::model::tok(kb, file, p, e),
            super::model::tok(kb, file, sc.pos, shift(b, e)));
    } else if x == 46u8 {
        if byte_at(b, p + 1) == Some(46u8) {
            if byte_at(b, p + 2) == Some(61u8) {
                lemma_punct(b, c, file, sb, sc, KindV::P(super::token::Punct::DotDotEq), 3);
            } else {
                lemma_punct(b, c, file, sb, sc, KindV::P(super::token::Punct::DotDot), 2);
            }
        } else {
            lemma_punct(b, c, file, sb, sc, KindV::P(super::token::Punct::Dot), 1);
        }
    } else if x == 33u8 && byte_at(b, p + 1) != Some(61u8) {
        lemma_invalid_char(b, c, file, sb, sc);
    } else if x == 45u8 || x == 61u8 || x == 33u8 || x == 60u8 || x == 62u8 || x == 43u8 || x == 42u8
        || x == 47u8 || x == 63u8 {
        let r = scan_token_spec(b, file, sb);
        let len = r.pos - p;
        assert(1 <= len <= 2);
        lemma_punct(b, c, file, sb, sc, r.tokens.last().kind, len);
    } else {
        lemma_invalid_char(b, c, file, sb, sc);
    }
}

proof fn lemma_flush_related(b: Seq<u8>, c: Seq<u8>, file: FileId, sb: LexV, sc: LexV)
    requires
        related(b, sb, sc),
    ensures
        related(b, flush_newline_spec(file, sb), flush_newline_spec(file, sc)),
        flush_newline_spec(file, sb).pos == sb.pos,
{
    lemma_all_newlines(sb.tokens, sc.tokens);
    lemma_tokens_push(sb.tokens, sc.tokens, super::model::tok(KindV::Newline, file, sb.pos, sb.pos),
        super::model::tok(KindV::Newline, file, sc.pos, sc.pos));
}

proof fn lemma_next_token(b: Seq<u8>, c: Seq<u8>, file: FileId, sb: LexV, sc: LexV)
    requires
        c == to_crlf(b),
        no_cr(b),
        valid_utf8(b),
        valid_utf8(c),
        related(b, sb, sc),
    ensures
        related(b, next_token_spec(b, file, sb), next_token_spec(c, file, sc)),
        sb.pos <= next_token_spec(b, file, sb).pos <= b.len(),
{
    lemma_trivia(b, c, file, sb.pos, sb.pending, sb.diags, sc.diags);
    let tb = trivia_loop(b, file, sb.pos, sb.pending, sb.diags);
    let tc = trivia_loop(c, file, sc.pos, sc.pending, sc.diags);
    let s2b = LexV { pos: tb.pos, pending: tb.pending, diags: tb.diags, ..sb };
    let s2c = LexV { pos: tc.pos, pending: tc.pending, diags: tc.diags, ..sc };
    assert(related(b, s2b, s2c));
    lemma_view(b, c, tb.pos);
    if !(tb.aborted || tb.pos >= b.len()) {
        if tb.pending {
            lemma_flush_related(b, c, file, s2b, s2c);
        } else {
            lemma_scan_token(b, c, file, s2b, s2c);
        }
    }
}

proof fn lemma_lex_loop(b: Seq<u8>, c: Seq<u8>, file: FileId, sb: LexV, sc: LexV)
    requires
        c == to_crlf(b),
        no_cr(b),
        valid_utf8(b),
        valid_utf8(c),
        related(b, sb, sc),
    ensures
        related(b, lex_loop(b, file, sb), lex_loop(c, file, sc)),
    decreases b.len() - sb.pos,
{
    lemma_view(b, c, sb.pos);
    if sb.pos < b.len() {
        lemma_next_token(b, c, file, sb, sc);
        let nb = next_token_spec(b, file, sb);
        let nc = next_token_spec(c, file, sc);
        lemma_view(b, c, nb.pos);
        lemma_shift_mono(b, sb.pos, nb.pos);
        if sb.pos < nb.pos <= b.len() && !nb.pending {
            lemma_lex_loop(b, c, file, nb, nc);
        }
    }
}

/// Lexing the LF bytes `b` and their CRLF form gives the same token kinds,
/// diagnostics and float literals, up to positions.
pub proof fn lemma_lex_crlf(b: Seq<u8>, file: FileId)
    requires
        valid_utf8(b),
        valid_utf8(to_crlf(b)),
        no_cr(b),
    ensures
        kinds_of(lex_spec(to_crlf(b), file).tokens) == kinds_of(lex_spec(b, file).tokens),
        gists(lex_spec(to_crlf(b), file).diags) == gists(lex_spec(b, file).diags),
        floats_gist(lex_spec(to_crlf(b), file).floats) == floats_gist(lex_spec(b, file).floats),
{
    let c = to_crlf(b);
    let s0 = LexV { pos: 0, tokens: seq![], diags: seq![], delims: seq![], pending: false, floats: seq![] };
    assert(kinds_of(s0.tokens) =~= kinds_of(s0.tokens));
    assert(related(b, s0, s0));
    lemma_lex_loop(b, c, file, s0, s0);
    let lb = lex_loop(b, file, s0);
    let lc = lex_loop(c, file, s0);
    lemma_flush_related(b, c, file, lb, lc);
    let fb = flush_newline_spec(file, lb);
    let fc = flush_newline_spec(file, lc);
    lemma_tokens_push(fb.tokens, fc.tokens, super::model::tok(KindV::Eof, file, fb.pos, fb.pos),
        super::model::tok(KindV::Eof, file, fc.pos, fc.pos));
}

// --- From texts to bytes ------------------------------------------------------------

/// The text `t` with every `\n` written as `\r\n`.
pub open spec fn crlf_text(t: Seq<char>) -> Seq<char>
    decreases t.len(),
{
    if t.len() == 0 {
        Seq::empty()
    } else {
        crlf_text(t.drop_last()) + (if t.last() == '\n' { seq!['\r', '\n'] } else { seq![t.last()] })
    }
}

proof fn lemma_encode_concat(x: Seq<char>, y: Seq<char>)
    ensures
        encode_utf8(x + y) == encode_utf8(x) + encode_utf8(y),
    decreases x.len(),
{
    if x.len() == 0 {
        assert(x + y == y);
        assert(encode_utf8(x) == Seq::<u8>::empty());
        assert(encode_utf8(x) + encode_utf8(y) == encode_utf8(y));
    } else {
        assert((x + y).drop_first() == x.drop_first() + y);
        assert((x + y)[0] == x[0]);
        lemma_encode_concat(x.drop_first(), y);
        assert(encode_utf8(x + y) == encode_scalar(x[0] as u32) + encode_utf8(x.drop_first() + y));
        assert(encode_utf8(x) == encode_scalar(x[0] as u32) + encode_utf8(x.drop_first()));
        assert(encode_utf8(x + y) =~= encode_utf8(x) + encode_utf8(y));
    }
}

proof fn lemma_crlf_concat(x: Seq<u8>, y: Seq<u8>)
    ensures
        to_crlf(x + y) == to_crlf(x) + to_crlf(y),
    decreases y.len(),
{
    if y.len() == 0 {
        assert(x + y == x);
        assert(to_crlf(y) == Seq::<u8>::empty());
        assert(to_crlf(x) + to_crlf(y) == to_crlf(x));
    } else {
        assert((x + y).drop_last() == x + y.drop_last());
        assert((x + y).last() == y.last());
        lemma_crlf_concat(x, y.drop_last());
        let tail: Seq<u8> = if y.last() == 10u8 { seq![13u8, 10u8] } else { seq![y.last()] };
        assert(to_crlf(x + y) == to_crlf(x + y.drop_last()) + tail);
        assert(to_crlf(y) == to_crlf(y.drop_last()) + tail);
        assert(to_crlf(x + y) =~= to_crlf(x) + to_crlf(y));
    }
}

proof fn lemma_crlf_plain(x: Seq<u8>)
    requires
        no_lf(x, 0, x.len() as int),
    ensures
        to_crlf(x) == x,
    decreases x.len(),
{
    if x.len() > 0 {
        lemma_crlf_plain(x.drop_last());
        assert(to_crlf(x) =~= x.drop_last() + seq![x.last()]);
        assert(x =~= x.drop_last() + seq![x.last()]);
    }
}

/// A character's encoding holds a `\n` or `\r` byte only when it is that
/// character.
proof fn lemma_char_bytes(ch: char)
    ensures
        ch == '\n' ==> encode_utf8(seq![ch]) == seq![10u8],
        ch == '\r' ==> encode_utf8(seq![ch]) == seq![13u8],
        ch != '\n' ==> no_lf(encode_utf8(seq![ch]), 0, encode_utf8(seq![ch]).len() as int),
        ch != '\r' ==> no_cr(encode_utf8(seq![ch])),
{
    let v = ch as u32;
    let e = encode_scalar(v);
    assert(seq![ch].drop_first() == Seq::<char>::empty());
    assert(encode_utf8(seq![ch]) == e + encode_utf8(Seq::<char>::empty()));
    assert(encode_utf8(seq![ch]) =~= e);
    if has_width_1_encoding(v) {
        assert((v & 0x7F) == v) by (bit_vector)
            requires v <= 0x7F;
        assert(e == seq![v as u8]);
        if ch == '\n' {
            assert(v == 10);
        }
        if ch == '\r' {
            assert(v == 13);
        }
        if ch != '\n' {
            assert(v != 10) by {
                char_u32_cast(ch, v);
            }
        }
        if ch != '\r' {
            assert(v != 13) by {
                char_u32_cast(ch, v);
            }
        }
    } else {
        assert forall|x: u8| #[trigger] (0x80u8 | x) >= 0x80 by {
            assert((0x80u8 | x) >= 0x80) by (bit_vector);
        }
        assert forall|x: u8| #[trigger] (0xC0u8 | x) >= 0x80 by {
            assert((0xC0u8 | x) >= 0x80) by (bit_vector);
        }
        assert forall|x: u8| #[trigger] (0xE0u8 | x) >= 0x80 by {
            assert((0xE0u8 | x) >= 0x80) by (bit_vector);
        }
        assert forall|x: u8| #[trigger] (0xF0u8 | x) >= 0x80 by {
            assert((0xF0u8 | x) >= 0x80) by (bit_vector);
        }
        assert forall|i: int| 0 <= i < e.len() implies e[i] >= 0x80 by {
            if has_width_2_encoding(v) {
                assert(e[0] == leading_byte_width_2(v));
            } else if has_width_3_encoding(v) {
                assert(e[0] == leading_byte_width_3(v));
            } else {
                assert(e[0] == leading_byte_width_4(v));
            }
        }
    }
}

proof fn lemma_encode_facts(t: Seq<char>)
    requires
        !t.contains('\r'),
    ensures
        no_cr(encode_utf8(t)),
        to_crlf(encode_utf8(t)) == encode_utf8(crlf_text(t)),
    decreases t.len(),
{
    if t.len() > 0 {
        let t0 = t.drop_last();
        let ch = t.last();
        assert(t == t0 + seq![ch]);
        assert forall|k: int| 0 <= k < t0.len() implies t0[k] != '\r' by {
            assert(t0[k] == t[k]);
        }
        lemma_encode_facts(t0);
        lemma_encode_concat(t0, seq![ch]);
        lemma_char_bytes(ch);
        assert(ch != '\r') by {
            assert(t[t.len() - 1] == ch);
        }
        let e0 = encode_utf8(t0);
        let e1 = encode_utf8(seq![ch]);
        assert forall|k: int| 0 <= k < (e0 + e1).len() implies (e0 + e1)[k] != 13u8 by {
            if k < e0.len() {
                assert((e0 + e1)[k] == e0[k]);
            } else {
                assert((e0 + e1)[k] == e1[k - e0.len()]);
            }
        }
        lemma_crlf_concat(e0, e1);
        let tail: Seq<char> = if ch == '\n' { seq!['\r', '\n'] } else { seq![ch] };
        assert(crlf_text(t) == crlf_text(t0) + tail);
        lemma_encode_concat(crlf_text(t0), tail);
        if ch == '\n' {
            let lf: Seq<u8> = seq![10u8];
            assert(lf.drop_last() =~= Seq::<u8>::empty());
            assert(lf.last() == 10u8);
            assert(to_crlf(lf) == to_crlf(Seq::<u8>::empty()) + seq![13u8, 10u8]);
            assert(to_crlf(lf) =~= seq![13u8, 10u8]);
            assert(tail == seq!['\r'] + seq!['\n']);
            lemma_encode_concat(seq!['\r'], seq!['\n']);
            lemma_char_bytes('\r');
            assert(encode_utf8(tail) =~= seq![13u8, 10u8]);
        } else {
            lemma_crlf_plain(e1);
        }
    }
}

proof fn lemma_parts_text_erase(ps: Seq<PartV>)
    ensures
        parts_text(erase_parts(ps)) == parts_text(ps),
    decreases ps.len(),
{
    let es = erase_parts(ps);
    if ps.len() == 1 {
        assert(es[0] == erase_part(ps[0]));
    } else if ps.len() > 1 {
        assert(es.drop_last() =~= erase_parts(ps.drop_last()));
        assert(es.last() == erase_part(ps.last()));
        lemma_parts_text_erase(ps.drop_last());
    }
}

/// The dump spells a kind without the spans it may hold.
pub proof fn lemma_kind_text_erase(k: KindV)
    ensures
        kind_text_spec(erase_kind(k)) == kind_text_spec(k),
{
    match k {
        KindV::Str(ps) => lemma_parts_text_erase(ps),
        _ => {},
    }
}

/// Writing every `\n` of a file as `\r\n` changes no token kind, no
/// diagnostic code or message and no float literal; only positions move, so
/// the token dumps differ only in their `line:col` prefixes.
pub proof fn law_line_endings(lf: SourceFile, crlf: SourceFile)
    requires
        crlf.id == lf.id,
        !lf.text@.contains('\r'),
        crlf.text@ == crlf_text(lf.text@),
    ensures
        ({
            let a = lex_spec(super::lexed_bytes(&lf), lf.id);
            let z = lex_spec(super::lexed_bytes(&crlf), crlf.id);
            &&& kinds_of(z.tokens) == kinds_of(a.tokens)
            &&& z.tokens.len() == a.tokens.len()
            &&& forall|i: int| 0 <= i < a.tokens.len()
                ==> kind_text_spec(#[trigger] z.tokens[i].kind) == kind_text_spec(a.tokens[i].kind)
            &&& gists(z.diags) == gists(a.diags)
            &&& floats_gist(z.floats) == floats_gist(a.floats)
        }),
{
    let t = lf.text@;
    lemma_encode_facts(t);
    let b = encode_utf8(t);
    encode_utf8_valid_utf8(t);
    encode_utf8_valid_utf8(crlf_text(t));
    assert(super::lexed_bytes(&lf) == b);
    assert(super::lexed_bytes(&crlf) == to_crlf(b));
    lemma_lex_crlf(b, lf.id);
    let a = lex_spec(b, lf.id);
    let z = lex_spec(to_crlf(b), lf.id);
    assert(kinds_of(a.tokens).len() == a.tokens.len());
    assert(kinds_of(z.tokens).len() == z.tokens.len());
    assert forall|i: int| 0 <= i < a.tokens.len()
        implies kind_text_spec(#[trigger] z.tokens[i].kind) == kind_text_spec(a.tokens[i].kind) by {
        assert(kinds_of(a.tokens)[i] == erase_kind(a.tokens[i].kind));
        assert(kinds_of(z.tokens)[i] == erase_kind(z.tokens[i].kind));
        lemma_kind_text_erase(a.tokens[i].kind);
        lemma_kind_text_erase(z.tokens[i].kind);
    }
}

} // verus!
