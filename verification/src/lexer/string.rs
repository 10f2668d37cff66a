//! String literal scanning, including interpolation.
//!
//! A string produces `Str(Vec<StrPart>)` where each part is literal text
//! (escapes resolved) or an interpolated expression. Interpolation supports
//! nested strings and braces, so `"{f("a")}"` is one expression part.
//!
//! Errors: `E0002` unterminated string (including a raw line break),
//! `E0004` unknown escape, `E0006` malformed interpolation.

use vstd::prelude::*;
use vstd::utf8::*;
use crate::diagnostic::{Diagnostic, DiagV, diags_view, error_v, with_help_v, with_label_v};
use crate::span::{FileId, Span};
use crate::text::push_char;
use super::cursor::{Cursor, boundary, byte_at, char_at, lead_width, lemma_next_boundary};
use super::token::{PartV, StrPart, parts_view};

verus! {

// --- Model ------------------------------------------------------------------

/// The span `[a, b)` in `file`.
pub open spec fn sp(file: FileId, a: int, b: int) -> Span {
    Span { file, start: a as u32, end: b as u32 }
}

/// Where `bump_char` leaves a cursor at `p`.
pub open spec fn bump_pos(b: Seq<u8>, p: int) -> int {
    if boundary(b, p) && 0 <= p < b.len() {
        p + lead_width(b[p])
    } else {
        p
    }
}

/// Whether the byte at `p` is a line break (`\n` or `\r`).
pub open spec fn at_break(b: Seq<u8>, p: int) -> bool {
    byte_at(b, p) == Some(10u8) || byte_at(b, p) == Some(13u8)
}

/// The parts with the pending literal text appended, when there is any.
pub open spec fn flush_v(parts: Seq<PartV>, lit: Seq<char>) -> Seq<PartV> {
    if lit.len() > 0 {
        parts.push(PartV::Lit(lit))
    } else {
        parts
    }
}

/// Whether `c` has the Unicode `White_Space` property, which is what
/// `str::trim` removes.
pub open spec fn is_white_space(c: char) -> bool {
    ||| ('\u{9}' <= c <= '\u{d}')
    ||| c == ' '
    ||| c == '\u{85}'
    ||| c == '\u{a0}'
    ||| c == '\u{1680}'
    ||| ('\u{2000}' <= c <= '\u{200a}')
    ||| c == '\u{2028}'
    ||| c == '\u{2029}'
    ||| c == '\u{202f}'
    ||| c == '\u{205f}'
    ||| c == '\u{3000}'
}

/// Whether `s.trim()` is empty.
pub open spec fn is_blank(s: Seq<char>) -> bool {
    forall|k: int| 0 <= k < s.len() ==> is_white_space(#[trigger] s[k])
}

/// The text `char::escape_debug` produces for `c`.
pub uninterp spec fn escape_debug_spec(c: char) -> Seq<char>;

/// `c.escape_debug()` as a string.
///
/// Calls `char::escape_debug`; its result, a function of `c` alone, is
/// named by [`escape_debug_spec`]. std documents that it escapes `\n` and
/// `\r` (as `\\n` and `\\r`), so the text never holds a line break.
#[verifier::external_body]
pub(crate) fn escape_debug(c: char) -> (s: String)
    ensures
        s@ == escape_debug_spec(c),
        forall|i: int| 0 <= i < s@.len() ==> s@[i] != '\n' && s@[i] != '\r',
{
    c.escape_debug().to_string()
}

/// Whether `s` holds no line break.
pub open spec fn no_break(s: Seq<char>) -> bool {
    forall|i: int| 0 <= i < s.len() ==> s[i] != '\n' && s[i] != '\r'
}

/// How an unknown escape's character is shown in its message: std's
/// `escape_debug` text, which [`escape_debug`] shows to hold no line break,
/// so the second arm is never taken.
pub open spec fn shown_escape(c: char) -> Seq<char> {
    if no_break(escape_debug_spec(c)) { escape_debug_spec(c) } else { Seq::empty() }
}

pub open spec fn unterminated_v(file: FileId, a: int, b: int) -> DiagV {
    with_help_v(error_v("E0002"@, "unterminated string literal"@, sp(file, a, b)), "add a closing `\"`"@)
}

pub open spec fn break_in_string_v(file: FileId, open: int, at: int) -> DiagV {
    with_help_v(
        with_label_v(
            error_v("E0002"@, "unterminated string literal (newline before closing quote)"@, sp(file, open, at)),
            sp(file, at, at + 1), "line break here"@),
        "use `\\n` for a newline inside a string"@)
}

pub open spec fn break_in_nested_v(file: FileId, open: int, at: int) -> DiagV {
    with_help_v(
        error_v("E0002"@, "unterminated string literal (newline before closing quote)"@, sp(file, open, at)),
        "use `\\n` for a newline inside a string"@)
}

pub open spec fn stray_close_v(file: FileId, at: int) -> DiagV {
    with_help_v(error_v("E0006"@, "invalid interpolation: `}` without a matching `{`"@, sp(file, at, at + 1)),
        "use }} to write a literal `}`"@)
}

pub open spec fn escaped_break_v(file: FileId, at: int) -> DiagV {
    with_help_v(error_v("E0004"@, "invalid escape sequence `\\`"@, sp(file, at, at + 1)),
        "valid escapes are \\n \\t \\r \\\\ \\\" \\{ \\}; `\\` cannot escape a line break"@)
}

pub open spec fn unknown_escape_v(file: FileId, at: int, end: int, c: char) -> DiagV {
    with_help_v(
        error_v("E0004"@, "invalid escape sequence `\\"@ + shown_escape(c) + "`"@, sp(file, at, end)),
        "valid escapes are \\n \\t \\r \\\\ \\\" \\{ \\}"@)
}

pub open spec fn unclosed_interpolation_v(file: FileId, open: int, at: int) -> DiagV {
    with_help_v(error_v("E0002"@, "unterminated string literal (unclosed interpolation)"@, sp(file, open, at)),
        "add a closing `}` and `\"`"@)
}

pub open spec fn backslash_in_interpolation_v(file: FileId, at: int) -> DiagV {
    with_help_v(error_v("E0006"@, "invalid interpolation: `\\` is not an escape"@, sp(file, at, at + 1)),
        "write nested strings without escaping: {f(\"a\")}"@)
}

pub open spec fn empty_interpolation_v(file: FileId, open: int, end: int) -> DiagV {
    with_help_v(error_v("E0006"@, "invalid interpolation: empty expression"@, sp(file, open, end)),
        "write an expression between `{` and `}`"@)
}

/// What resolving one escape leaves: the cursor offset, the literal text,
/// whether the escape was valid, and the diagnostics.
pub struct EscV {
    pub end: int,
    pub lit: Seq<char>,
    pub ok: bool,
    pub diags: Seq<DiagV>,
}

/// Resolving the escape whose `\` is at `i`.
pub open spec fn escape_spec(b: Seq<u8>, file: FileId, i: int, lit: Seq<char>, diags: Seq<DiagV>) -> EscV {
    let p = i + 1;
    if !(boundary(b, p) && p < b.len()) {
        EscV { end: p, lit, ok: false, diags: diags.push(unterminated_v(file, i, p)) }
    } else {
        let c = char_at(b, p);
        let e = p + lead_width(b[p]);
        if c == '\n' || c == '\r' {
            EscV { end: p, lit, ok: false, diags: diags.push(escaped_break_v(file, i)) }
        } else if c == 'n' {
            EscV { end: e, lit: lit.push('\n'), ok: true, diags }
        } else if c == 't' {
            EscV { end: e, lit: lit.push('\t'), ok: true, diags }
        } else if c == 'r' {
            EscV { end: e, lit: lit.push('\r'), ok: true, diags }
        } else if c == '\\' || c == '"' || c == '{' || c == '}' {
            EscV { end: e, lit: lit.push(c), ok: true, diags }
        } else {
            EscV { end: e, lit, ok: false, diags: diags.push(unknown_escape_v(file, i, e, c)) }
        }
    }
}

/// An escape ends after its `\` and inside the input.
pub proof fn lemma_escape_end(b: Seq<u8>, file: FileId, i: int, lit: Seq<char>, diags: Seq<DiagV>)
    requires
        valid_utf8(b),
        0 <= i < b.len(),
    ensures
        i < escape_spec(b, file, i, lit, diags).end <= b.len(),
        b[i] < 0x80 ==> boundary(b, escape_spec(b, file, i, lit, diags).end),
{
    let p = i + 1;
    if b[i] < 0x80 {
        super::cursor::lemma_ascii_boundaries(b, i);
    }
    if boundary(b, p) && p < b.len() {
        lemma_next_boundary(b, p);
    }
}

/// What skipping a nested string leaves: offset, whether it closed, diagnostics.
pub struct NestedV {
    pub end: int,
    pub ok: bool,
    pub diags: Seq<DiagV>,
}

/// Skipping the rest of a nested string opened at `open`, from offset `k`.
pub open spec fn nested_loop(b: Seq<u8>, file: FileId, open: int, k: int, diags: Seq<DiagV>) -> NestedV
    decreases b.len() - k,
{
    if k < 0 || k >= b.len() {
        NestedV { end: k, ok: false, diags: diags.push(unterminated_v(file, open, k)) }
    } else if b[k] == 10u8 || b[k] == 13u8 {
        NestedV { end: k, ok: false, diags: diags.push(break_in_nested_v(file, open, k)) }
    } else if b[k] == 92u8 {
        let k1 = k + 1;
        let k2 = if at_break(b, k1) { k1 } else { bump_pos(b, k1) };
        if k < k2 <= b.len() {
            nested_loop(b, file, open, k2, diags)
        } else {
            NestedV { end: k, ok: false, diags }
        }
    } else if b[k] == 34u8 {
        NestedV { end: k + 1, ok: true, diags }
    } else {
        nested_loop(b, file, open, k + 1, diags)
    }
}

/// A nested-string skip ends after its start and inside the input.
pub proof fn lemma_nested_end(b: Seq<u8>, file: FileId, open: int, k: int, diags: Seq<DiagV>)
    requires
        valid_utf8(b),
        0 <= k <= b.len(),
    ensures
        k <= nested_loop(b, file, open, k, diags).end <= b.len(),
        nested_loop(b, file, open, k, diags).ok ==> k < nested_loop(b, file, open, k, diags).end,
        boundary(b, nested_loop(b, file, open, k, diags).end),
    decreases b.len() - k,
{
    if 0 <= k < b.len() && b[k] < 0x80 {
        super::cursor::lemma_ascii_boundaries(b, k);
    }
    if 0 <= k < b.len() && b[k] != 10u8 && b[k] != 13u8 {
        if b[k] == 92u8 {
            let k1 = k + 1;
            lemma_bump_pos(b, k1);
            let k2 = if at_break(b, k1) { k1 } else { bump_pos(b, k1) };
            lemma_nested_end(b, file, open, k2, diags);
        } else if b[k] != 34u8 {
            lemma_nested_end(b, file, open, k + 1, diags);
        }
    }
}

/// How an interpolation scan ended.
pub enum InterpOut {
    Part(PartV),
    Recovered,
    Unterminated,
}

pub struct InterpV {
    pub end: int,
    pub out: InterpOut,
    pub diags: Seq<DiagV>,
}

/// Scanning the inside of an interpolation opened at `open`, from offset
/// `j` with brace depth `depth`; `reported` tells whether a `\` was already
/// reported in this interpolation (one `E0006` each).
pub open spec fn interp_loop(b: Seq<u8>, file: FileId, open: int, j: int, depth: int, reported: bool,
    diags: Seq<DiagV>) -> InterpV
    decreases b.len() - j,
{
    if j < 0 || j >= b.len() || b[j] == 10u8 || b[j] == 13u8 {
        InterpV { end: j, out: InterpOut::Unterminated, diags: diags.push(unclosed_interpolation_v(file, open, j)) }
    } else if b[j] == 92u8 {
        let j1 = j + 1;
        let j2 = if at_break(b, j1) { j1 } else { bump_pos(b, j1) };
        let d2 = if reported { diags } else { diags.push(backslash_in_interpolation_v(file, j)) };
        if j < j2 <= b.len() {
            interp_loop(b, file, open, j2, depth, true, d2)
        } else {
            InterpV { end: j, out: InterpOut::Unterminated, diags: d2 }
        }
    } else if b[j] == 34u8 {
        let ns = nested_loop(b, file, j, j + 1, diags);
        if !ns.ok {
            InterpV { end: ns.end, out: InterpOut::Unterminated, diags: ns.diags }
        } else if j < ns.end <= b.len() {
            interp_loop(b, file, open, ns.end, depth, reported, ns.diags)
        } else {
            InterpV { end: j, out: InterpOut::Unterminated, diags }
        }
    } else if b[j] == 123u8 {
        interp_loop(b, file, open, j + 1, depth + 1, reported, diags)
    } else if b[j] == 125u8 {
        if depth - 1 == 0 {
            let src = decode_utf8(b.subrange(open + 1, j));
            if is_blank(src) {
                InterpV { end: j + 1, out: InterpOut::Recovered, diags: diags.push(empty_interpolation_v(file, open, j + 1)) }
            } else {
                InterpV { end: j + 1, out: InterpOut::Part(PartV::Expr(src, sp(file, open + 1, j))), diags }
            }
        } else {
            interp_loop(b, file, open, j + 1, depth - 1, reported, diags)
        }
    } else {
        interp_loop(b, file, open, j + 1, depth, reported, diags)
    }
}

/// An interpolation scan ends after its start and inside the input.
pub proof fn lemma_interp_end(b: Seq<u8>, file: FileId, open: int, j: int, depth: int, reported: bool,
    diags: Seq<DiagV>)
    requires
        valid_utf8(b),
        0 <= j <= b.len(),
    ensures
        j <= interp_loop(b, file, open, j, depth, reported, diags).end <= b.len(),
        boundary(b, interp_loop(b, file, open, j, depth, reported, diags).end),
    decreases b.len() - j,
{
    if 0 <= j < b.len() && b[j] < 0x80 {
        super::cursor::lemma_ascii_boundaries(b, j);
    }
    if !(j < 0 || j >= b.len() || b[j] == 10u8 || b[j] == 13u8) {
        if b[j] == 92u8 {
            let j1 = j + 1;
            lemma_bump_pos(b, j1);
            let j2 = if at_break(b, j1) { j1 } else { bump_pos(b, j1) };
            lemma_interp_end(b, file, open, j2, depth, true,
                if reported { diags } else { diags.push(backslash_in_interpolation_v(file, j)) });
        } else if b[j] == 34u8 {
            lemma_nested_end(b, file, j, j + 1, diags);
            let ns = nested_loop(b, file, j, j + 1, diags);
            if ns.ok && j < ns.end <= b.len() {
                lemma_interp_end(b, file, open, ns.end, depth, reported, ns.diags);
            }
        } else if b[j] == 123u8 {
            lemma_interp_end(b, file, open, j + 1, depth + 1, reported, diags);
        } else if b[j] == 125u8 {
            if depth - 1 != 0 {
                lemma_interp_end(b, file, open, j + 1, depth - 1, reported, diags);
            }
        } else {
            lemma_interp_end(b, file, open, j + 1, depth, reported, diags);
        }
    }
}

/// Scanning the interpolation whose `{` is at `open`.
pub open spec fn interp_spec(b: Seq<u8>, file: FileId, open: int, diags: Seq<DiagV>) -> InterpV {
    interp_loop(b, file, open, open + 1, 1, false, diags)
}

/// What scanning a string literal leaves.
pub struct StringV {
    pub end: int,
    pub parts: Seq<PartV>,
    /// Whether the literal was well formed.
    pub valid: bool,
    pub diags: Seq<DiagV>,
}

/// Scanning a string literal opened at `open`, from offset `i`, with the
/// parts, pending literal text and validity so far.
pub open spec fn string_loop(b: Seq<u8>, file: FileId, open: int, i: int, parts: Seq<PartV>, lit: Seq<char>,
    ok: bool, diags: Seq<DiagV>) -> StringV
    decreases b.len() - i,
{
    if i < 0 || i >= b.len() {
        StringV { end: i, parts: flush_v(parts, lit), valid: false, diags: diags.push(unterminated_v(file, open, i)) }
    } else if b[i] == 10u8 || b[i] == 13u8 {
        StringV { end: i, parts: flush_v(parts, lit), valid: false, diags: diags.push(break_in_string_v(file, open, i)) }
    } else if b[i] == 34u8 {
        StringV { end: i + 1, parts: flush_v(parts, lit), valid: ok, diags }
    } else if b[i] == 92u8 {
        let e = escape_spec(b, file, i, lit, diags);
        if i < e.end <= b.len() {
            string_loop(b, file, open, e.end, parts, e.lit, ok && e.ok, e.diags)
        } else {
            StringV { end: i, parts: flush_v(parts, lit), valid: ok, diags }
        }
    } else if b[i] == 123u8 {
        if byte_at(b, i + 1) == Some(123u8) {
            string_loop(b, file, open, i + 2, parts, lit.push('{'), ok, diags)
        } else {
            let parts2 = flush_v(parts, lit);
            let iv = interp_spec(b, file, i, diags);
            if !(i < iv.end <= b.len()) {
                StringV { end: i, parts: parts2, valid: false, diags: iv.diags }
            } else {
                match iv.out {
                    InterpOut::Part(p) => string_loop(b, file, open, iv.end, parts2.push(p), Seq::empty(),
                        ok && iv.diags.len() == diags.len(), iv.diags),
                    InterpOut::Recovered => string_loop(b, file, open, iv.end, parts2, Seq::empty(), false, iv.diags),
                    InterpOut::Unterminated => StringV { end: iv.end, parts: parts2, valid: false, diags: iv.diags },
                }
            }
        }
    } else if b[i] == 125u8 {
        if byte_at(b, i + 1) == Some(125u8) {
            string_loop(b, file, open, i + 2, parts, lit.push('}'), ok, diags)
        } else {
            string_loop(b, file, open, i + 1, parts, lit, false, diags.push(stray_close_v(file, i)))
        }
    } else if boundary(b, i) && i + lead_width(b[i]) <= b.len() {
        string_loop(b, file, open, i + lead_width(b[i]), parts, lit.push(char_at(b, i)), ok, diags)
    } else {
        StringV { end: i, parts: flush_v(parts, lit), valid: ok, diags }
    }
}

/// Scanning the string literal whose opening quote is at `open`.
pub open spec fn string_spec(b: Seq<u8>, file: FileId, open: int, diags: Seq<DiagV>) -> StringV {
    string_loop(b, file, open, open + 1, Seq::empty(), Seq::empty(), true, diags)
}

// --- Scanning ---------------------------------------------------------------

/// Where `bump_char` lands stays within the input.
pub proof fn lemma_bump_pos(b: Seq<u8>, p: int)
    requires
        valid_utf8(b),
        0 <= p <= b.len(),
    ensures
        p <= bump_pos(b, p) <= b.len(),
        boundary(b, p) ==> boundary(b, bump_pos(b, p)),
{
    if boundary(b, p) && p < b.len() {
        lemma_next_boundary(b, p);
    }
}

/// Appends a diagnostic.
pub fn push_diag(diagnostics: &mut Vec<Diagnostic>, d: Diagnostic)
    ensures
        diags_view(final(diagnostics)@) == diags_view(old(diagnostics)@).push(d@),
{
    diagnostics.push(d);
    assert(diags_view(final(diagnostics)@) =~= diags_view(old(diagnostics)@).push(d@));
}

/// Whether every character of `s` is Unicode white space, i.e. whether
/// `s.trim()` is empty.
pub fn is_blank_str(s: &str) -> (r: bool)
    ensures
        r == is_blank(s@),
{
    let n = s.unicode_len();
    let mut i: usize = 0;
    while i < n
        invariant
            n == s@.len(),
            i <= n,
            forall|k: int| 0 <= k < i ==> is_white_space(#[trigger] s@[k]),
        decreases n - i,
    {
        let c = s.get_char(i);
        let white = ('\u{9}' <= c && c <= '\u{d}') || c == ' ' || c == '\u{85}' || c == '\u{a0}'
            || c == '\u{1680}' || ('\u{2000}' <= c && c <= '\u{200a}') || c == '\u{2028}'
            || c == '\u{2029}' || c == '\u{202f}' || c == '\u{205f}' || c == '\u{3000}';
        if !white {
            return false;
        }
        i = i + 1;
    }
    true
}

/// Resolves one escape sequence into `lit`; the cursor is at the `\`.
///
/// Returns `false` (and reports) for an unknown escape, a `\` before a line
/// break, or a `\` at the end of input.
pub fn scan_escape(cursor: &mut Cursor, file: FileId, lit: &mut String, diagnostics: &mut Vec<Diagnostic>) -> (ok: bool)
    requires
        old(cursor).wf(),
        old(cursor).pos_spec() < old(cursor).bytes_spec().len(),
        old(cursor).bytes_spec()[old(cursor).pos_spec()] == 92u8,
    ensures
        final(cursor).wf(),
        final(cursor).bytes_spec() == old(cursor).bytes_spec(),
        final(cursor).text_spec() == old(cursor).text_spec(),
        ({
            let e = escape_spec(old(cursor).bytes_spec(), file, old(cursor).pos_spec(), old(lit)@,
                diags_view(old(diagnostics)@));
            &&& final(cursor).pos_spec() == e.end
            &&& final(lit)@ == e.lit
            &&& ok == e.ok
            &&& diags_view(final(diagnostics)@) == e.diags
        }),
{
    proof { cursor.lemma_wf_facts(); }
    let backslash = cursor.pos();
    cursor.advance(1);
    match cursor.bump_char() {
        None => {
            let end = cursor.pos();
            let d = Diagnostic::error("E0002", "unterminated string literal",
                Span::new(file, backslash as u32, end as u32)).with_help("add a closing `\"`");
            push_diag(diagnostics, d);
            false
        },
        Some(ch) => {
            if ch == '\n' || ch == '\r' {
                cursor.rewind_to(backslash + 1);
                let d = Diagnostic::error("E0004", "invalid escape sequence `\\`",
                    Span::new(file, backslash as u32, (backslash + 1) as u32))
                    .with_help("valid escapes are \\n \\t \\r \\\\ \\\" \\{ \\}; `\\` cannot escape a line break");
                push_diag(diagnostics, d);
                return false;
            }
            if ch == 'n' {
                push_char(lit, '\n');
            } else if ch == 't' {
                push_char(lit, '\t');
            } else if ch == 'r' {
                push_char(lit, '\r');
            } else if ch == '\\' || ch == '"' || ch == '{' || ch == '}' {
                push_char(lit, ch);
            } else {
                let end = cursor.pos();
                let rendered = escape_debug(ch);
                assert(shown_escape(ch) == rendered@);
                let mut message = String::from_str("invalid escape sequence `\\");
                message.append(rendered.as_str());
                message.append("`");
                let d = Diagnostic::error("E0004", message.as_str(), Span::new(file, backslash as u32, end as u32))
                    .with_help("valid escapes are \\n \\t \\r \\\\ \\\" \\{ \\}");
                push_diag(diagnostics, d);
                return false;
            }
            true
        },
    }
}

/// Skips a nested `"..."` string inside an interpolation; the cursor is at
/// its opening quote. Returns `false` (and reports `E0002`) when it does not
/// close before a line break or the end of input.
pub fn skip_nested_string(cursor: &mut Cursor, file: FileId, diagnostics: &mut Vec<Diagnostic>) -> (ok: bool)
    requires
        old(cursor).wf(),
        old(cursor).pos_spec() < old(cursor).bytes_spec().len(),
        old(cursor).bytes_spec()[old(cursor).pos_spec()] == 34u8,
    ensures
        final(cursor).wf(),
        final(cursor).bytes_spec() == old(cursor).bytes_spec(),
        final(cursor).text_spec() == old(cursor).text_spec(),
        ({
            let ns = nested_loop(old(cursor).bytes_spec(), file, old(cursor).pos_spec(),
                old(cursor).pos_spec() + 1, diags_view(old(diagnostics)@));
            &&& final(cursor).pos_spec() == ns.end
            &&& ok == ns.ok
            &&& diags_view(final(diagnostics)@) == ns.diags
        }),
{
    let ghost b = cursor.bytes_spec();
    let open = cursor.pos();
    let ghost d0 = diags_view(diagnostics@);
    proof { cursor.lemma_wf_facts(); }
    cursor.advance(1);
    loop
        invariant
            cursor.wf(),
            cursor.bytes_spec() == b,
            b == old(cursor).bytes_spec(),
            d0 == diags_view(old(diagnostics)@),
            open == old(cursor).pos_spec(),
            cursor.text_spec() == old(cursor).text_spec(),
            valid_utf8(b),
            b.len() <= usize::MAX,
            open < b.len(),
            nested_loop(b, file, open as int, open + 1, d0)
                == nested_loop(b, file, open as int, cursor.pos_spec(), diags_view(diagnostics@)),
        decreases b.len() - cursor.pos_spec(),
    {
        let k = cursor.pos();
        match cursor.peek() {
            None => {
                let d = Diagnostic::error("E0002", "unterminated string literal",
                    Span::new(file, open as u32, k as u32)).with_help("add a closing `\"`");
                push_diag(diagnostics, d);
                return false;
            },
            Some(c) => {
                if c == 10u8 || c == 13u8 {
                    let d = Diagnostic::error("E0002", "unterminated string literal (newline before closing quote)",
                        Span::new(file, open as u32, k as u32)).with_help("use `\\n` for a newline inside a string");
                    push_diag(diagnostics, d);
                    return false;
                } else if c == 92u8 {
                    cursor.advance(1);
                    let n = cursor.peek();
                    if !(n == Some(10u8) || n == Some(13u8)) {
                        proof { lemma_bump_pos(b, cursor.pos_spec()); }
                        cursor.bump_char();
                    }
                } else if c == 34u8 {
                    cursor.advance(1);
                    return true;
                } else {
                    cursor.skip_byte();
                }
            },
        }
    }
}

/// How an interpolation scan ended.
pub enum Interpolation {
    /// A usable expression part.
    Part(StrPart),
    /// An error was reported, but the interpolation closed.
    Recovered,
    /// The interpolation never closed; the enclosing string must stop.
    Unterminated,
}

impl View for Interpolation {
    type V = InterpOut;

    open spec fn view(&self) -> InterpOut {
        match self {
            Interpolation::Part(p) => InterpOut::Part(p@),
            Interpolation::Recovered => InterpOut::Recovered,
            Interpolation::Unterminated => InterpOut::Unterminated,
        }
    }
}

/// Scans a `{expr}` interpolation; the cursor is at its `{`.
///
/// The expression source is captured verbatim and nested strings and braces
/// are skipped. A `\` inside is `E0006`, but scanning continues to the
/// closing `}`.
pub fn scan_interpolation(cursor: &mut Cursor, file: FileId, diagnostics: &mut Vec<Diagnostic>) -> (r: Interpolation)
    requires
        old(cursor).wf(),
        old(cursor).pos_spec() < old(cursor).bytes_spec().len(),
        old(cursor).bytes_spec()[old(cursor).pos_spec()] == 123u8,
    ensures
        final(cursor).wf(),
        final(cursor).bytes_spec() == old(cursor).bytes_spec(),
        final(cursor).text_spec() == old(cursor).text_spec(),
        ({
            let iv = interp_spec(old(cursor).bytes_spec(), file, old(cursor).pos_spec(), diags_view(old(diagnostics)@));
            &&& final(cursor).pos_spec() == iv.end
            &&& r@ == iv.out
            &&& diags_view(final(diagnostics)@) == iv.diags
        }),
{
    let ghost b = cursor.bytes_spec();
    let open = cursor.pos();
    let ghost d0 = diags_view(diagnostics@);
    proof {
        cursor.lemma_wf_facts();
        super::cursor::lemma_ascii_step(b, open as int);
    }
    cursor.advance(1);
    let content_start = cursor.pos();
    let mut depth: usize = 1;
    let mut reported = false;
    loop
        invariant
            cursor.wf(),
            cursor.bytes_spec() == b,
            b == old(cursor).bytes_spec(),
            d0 == diags_view(old(diagnostics)@),
            open == old(cursor).pos_spec(),
            cursor.text_spec() == old(cursor).text_spec(),
            valid_utf8(b),
            b.len() <= usize::MAX,
            open < b.len(),
            content_start == open + 1,
            boundary(b, content_start as int),
            1 <= depth <= cursor.pos_spec() - open,
            interp_loop(b, file, open as int, open + 1, 1, false, d0)
                == interp_loop(b, file, open as int, cursor.pos_spec(), depth as int, reported,
                    diags_view(diagnostics@)),
        decreases b.len() - cursor.pos_spec(),
    {
        let j = cursor.pos();
        match cursor.peek() {
            None => {
                let d = Diagnostic::error("E0002", "unterminated string literal (unclosed interpolation)",
                    Span::new(file, open as u32, j as u32)).with_help("add a closing `}` and `\"`");
                push_diag(diagnostics, d);
                return Interpolation::Unterminated;
            },
            Some(c) => {
                if c == 10u8 || c == 13u8 {
                    let d = Diagnostic::error("E0002", "unterminated string literal (unclosed interpolation)",
                        Span::new(file, open as u32, j as u32)).with_help("add a closing `}` and `\"`");
                    push_diag(diagnostics, d);
                    return Interpolation::Unterminated;
                } else if c == 92u8 {
                    // A `\` is not an escape here; nested strings are raw. It is
                    // reported once per interpolation, and the next character is
                    // consumed so a quote cannot open a nested string.
                    if !reported {
                        let d = Diagnostic::error("E0006", "invalid interpolation: `\\` is not an escape",
                            Span::new(file, j as u32, (j + 1) as u32))
                            .with_help("write nested strings without escaping: {f(\"a\")}");
                        push_diag(diagnostics, d);
                        reported = true;
                    }
                    cursor.advance(1);
                    let n = cursor.peek();
                    if !(n == Some(10u8) || n == Some(13u8)) {
                        proof { lemma_bump_pos(b, cursor.pos_spec()); }
                        cursor.bump_char();
                    }
                } else if c == 34u8 {
                    let ghost dv = diags_view(diagnostics@);
                    proof { lemma_nested_end(b, file, j as int, j + 1, dv); }
                    if !skip_nested_string(cursor, file, diagnostics) {
                        return Interpolation::Unterminated;
                    }
                } else if c == 123u8 {
                    depth = depth + 1;
                    cursor.advance(1);
                } else if c == 125u8 {
                    depth = depth - 1;
                    if depth == 0 {
                        let content_end = j;
                        cursor.advance(1);
                        let src_text = cursor.slice(content_start, content_end);
                        if is_blank_str(src_text) {
                            let end = cursor.pos();
                            let d = Diagnostic::error("E0006", "invalid interpolation: empty expression",
                                Span::new(file, open as u32, end as u32))
                                .with_help("write an expression between `{` and `}`");
                            push_diag(diagnostics, d);
                            return Interpolation::Recovered;
                        }
                        let part = StrPart::Expr {
                            src: src_text.to_owned(),
                            span: Span::new(file, content_start as u32, content_end as u32),
                        };
                        return Interpolation::Part(part);
                    }
                    cursor.advance(1);
                } else {
                    cursor.skip_byte();
                }
            },
        }
    }
}

/// The outcome of scanning a string literal.
pub enum StringOutcome {
    /// A well-formed string.
    Parts(Vec<StrPart>),
    /// A malformed string, with the parts read before the error.
    Invalid(Vec<StrPart>),
}

/// Moves the pending literal text into `parts`, when there is any.
fn flush(parts: &mut Vec<StrPart>, lit: &mut String)
    ensures
        parts_view(final(parts)@) == flush_v(parts_view(old(parts)@), old(lit)@),
        final(lit)@ == Seq::<char>::empty(),
{
    if !lit.as_str().is_empty() {
        let mut taken = String::new();
        std::mem::swap(&mut taken, lit);
        parts.push(StrPart::Lit(taken));
        assert(parts_view(final(parts)@) =~= flush_v(parts_view(old(parts)@), old(lit)@));
    } else {
        assert(lit@ =~= Seq::<char>::empty());
    }
}

/// A nested string that does not close has reported why.
pub proof fn lemma_nested_reports(b: Seq<u8>, file: FileId, open: int, k: int, diags: Seq<DiagV>)
    requires
        valid_utf8(b),
        0 <= k <= b.len(),
    ensures
        nested_loop(b, file, open, k, diags).diags.len() >= diags.len(),
        !nested_loop(b, file, open, k, diags).ok ==> nested_loop(b, file, open, k, diags).diags.len() > diags.len(),
    decreases b.len() - k,
{
    if 0 <= k < b.len() && b[k] != 10u8 && b[k] != 13u8 {
        if b[k] == 92u8 {
            let k1 = k + 1;
            lemma_bump_pos(b, k1);
            let k2 = if at_break(b, k1) { k1 } else { bump_pos(b, k1) };
            lemma_nested_reports(b, file, open, k2, diags);
        } else if b[k] != 34u8 {
            lemma_nested_reports(b, file, open, k + 1, diags);
        }
    }
}

/// An interpolation that yields no part has reported why.
pub proof fn lemma_interp_reports(b: Seq<u8>, file: FileId, open: int, j: int, depth: int, reported: bool,
    diags: Seq<DiagV>)
    requires
        valid_utf8(b),
        0 <= j <= b.len(),
    ensures
        interp_loop(b, file, open, j, depth, reported, diags).diags.len() >= diags.len(),
        !(interp_loop(b, file, open, j, depth, reported, diags).out is Part)
            ==> interp_loop(b, file, open, j, depth, reported, diags).diags.len() > diags.len(),
    decreases b.len() - j,
{
    if !(j < 0 || j >= b.len() || b[j] == 10u8 || b[j] == 13u8) {
        if b[j] == 92u8 {
            let j1 = j + 1;
            lemma_bump_pos(b, j1);
            let j2 = if at_break(b, j1) { j1 } else { bump_pos(b, j1) };
            lemma_interp_reports(b, file, open, j2, depth, true,
                if reported { diags } else { diags.push(backslash_in_interpolation_v(file, j)) });
        } else if b[j] == 34u8 {
            lemma_nested_end(b, file, j, j + 1, diags);
            lemma_nested_reports(b, file, j, j + 1, diags);
            let ns = nested_loop(b, file, j, j + 1, diags);
            if ns.ok && j < ns.end <= b.len() {
                lemma_interp_reports(b, file, open, ns.end, depth, reported, ns.diags);
            }
        } else if b[j] == 123u8 {
            lemma_interp_reports(b, file, open, j + 1, depth + 1, reported, diags);
        } else if b[j] == 125u8 {
            if depth - 1 != 0 {
                lemma_interp_reports(b, file, open, j + 1, depth - 1, reported, diags);
            }
        } else {
            lemma_interp_reports(b, file, open, j + 1, depth, reported, diags);
        }
    }
}

/// A string scan is valid exactly when it started valid and reported
/// nothing.
pub proof fn lemma_string_reports(b: Seq<u8>, file: FileId, open: int, i: int, parts: Seq<PartV>, lit: Seq<char>,
    ok: bool, diags: Seq<DiagV>)
    requires
        valid_utf8(b),
        0 <= i <= b.len(),
    ensures
        string_loop(b, file, open, i, parts, lit, ok, diags).diags.len() >= diags.len(),
        string_loop(b, file, open, i, parts, lit, ok, diags).valid
            <==> (ok && string_loop(b, file, open, i, parts, lit, ok, diags).diags.len() == diags.len()),
    decreases b.len() - i,
{
    if 0 <= i < b.len() && b[i] != 10u8 && b[i] != 13u8 && b[i] != 34u8 {
        if b[i] == 92u8 {
            let e = escape_spec(b, file, i, lit, diags);
            if i < e.end <= b.len() {
                lemma_string_reports(b, file, open, e.end, parts, e.lit, ok && e.ok, e.diags);
            }
        } else if b[i] == 123u8 {
            if byte_at(b, i + 1) == Some(123u8) {
                lemma_string_reports(b, file, open, i + 2, parts, lit.push('{'), ok, diags);
            } else {
                lemma_interp_end(b, file, i, i + 1, 1, false, diags);
                lemma_interp_reports(b, file, i, i + 1, 1, false, diags);
                let iv = interp_spec(b, file, i, diags);
                let parts2 = flush_v(parts, lit);
                match iv.out {
                    InterpOut::Part(p) => {
                        lemma_string_reports(b, file, open, iv.end, parts2.push(p), Seq::empty(),
                            ok && iv.diags.len() == diags.len(), iv.diags);
                    },
                    InterpOut::Recovered => {
                        lemma_string_reports(b, file, open, iv.end, parts2, Seq::empty(), false, iv.diags);
                    },
                    InterpOut::Unterminated => {},
                }
            }
        } else if b[i] == 125u8 {
            if byte_at(b, i + 1) == Some(125u8) {
                lemma_string_reports(b, file, open, i + 2, parts, lit.push('}'), ok, diags);
            } else {
                lemma_string_reports(b, file, open, i + 1, parts, lit, false, diags.push(stray_close_v(file, i)));
            }
        } else if boundary(b, i) && i + lead_width(b[i]) <= b.len() {
            lemma_string_reports(b, file, open, i + lead_width(b[i]), parts, lit.push(char_at(b, i)), ok, diags);
        }
    }
}

/// Scans a string literal; the cursor is at the opening `"`.
pub fn scan_string(cursor: &mut Cursor, file: FileId, diagnostics: &mut Vec<Diagnostic>) -> (r: StringOutcome)
    requires
        old(cursor).wf(),
        old(cursor).pos_spec() < old(cursor).bytes_spec().len(),
        old(cursor).bytes_spec()[old(cursor).pos_spec()] == 34u8,
    ensures
        final(cursor).wf(),
        final(cursor).bytes_spec() == old(cursor).bytes_spec(),
        final(cursor).text_spec() == old(cursor).text_spec(),
        ({
            let sv = string_spec(old(cursor).bytes_spec(), file, old(cursor).pos_spec(), diags_view(old(diagnostics)@));
            &&& final(cursor).pos_spec() == sv.end
            &&& diags_view(final(diagnostics)@) == sv.diags
            &&& match r {
                StringOutcome::Parts(p) => sv.valid && parts_view(p@) == sv.parts,
                StringOutcome::Invalid(p) => !sv.valid && parts_view(p@) == sv.parts,
            }
        }),
        r is Invalid <==> diags_view(final(diagnostics)@).len() > diags_view(old(diagnostics)@).len(),
{
    let ghost b = cursor.bytes_spec();
    let open = cursor.pos();
    let ghost d0 = diags_view(diagnostics@);
    proof {
        cursor.lemma_wf_facts();
        lemma_string_reports(b, file, open as int, open + 1, Seq::empty(), Seq::empty(), true, d0);
    }
    cursor.advance(1);
    let mut parts: Vec<StrPart> = Vec::new();
    let mut lit = String::new();
    let mut ok = true;
    assert(parts_view(parts@) =~= Seq::<PartV>::empty());
    loop
        invariant
            cursor.wf(),
            cursor.bytes_spec() == b,
            b == old(cursor).bytes_spec(),
            d0 == diags_view(old(diagnostics)@),
            open == old(cursor).pos_spec(),
            cursor.text_spec() == old(cursor).text_spec(),
            valid_utf8(b),
            b.len() <= usize::MAX,
            open < b.len(),
            string_spec(b, file, open as int, d0)
                == string_loop(b, file, open as int, cursor.pos_spec(), parts_view(parts@), lit@, ok,
                    diags_view(diagnostics@)),
            string_spec(b, file, open as int, d0).valid <==> string_spec(b, file, open as int, d0).diags.len() == d0.len(),
            string_spec(b, file, open as int, d0).diags.len() >= d0.len(),
        decreases b.len() - cursor.pos_spec(),
    {
        let start = cursor.pos();
        match cursor.peek() {
            None => {
                let d = Diagnostic::error("E0002", "unterminated string literal",
                    Span::new(file, open as u32, start as u32)).with_help("add a closing `\"`");
                push_diag(diagnostics, d);
                flush(&mut parts, &mut lit);
                return StringOutcome::Invalid(parts);
            },
            Some(c) => {
                if c == 10u8 || c == 13u8 {
                    let d = Diagnostic::error("E0002", "unterminated string literal (newline before closing quote)",
                        Span::new(file, open as u32, start as u32))
                        .with_label(Span::new(file, start as u32, (start + 1) as u32), "line break here")
                        .with_help("use `\\n` for a newline inside a string");
                    push_diag(diagnostics, d);
                    flush(&mut parts, &mut lit);
                    return StringOutcome::Invalid(parts);
                } else if c == 34u8 {
                    cursor.advance(1);
                    flush(&mut parts, &mut lit);
                    if ok {
                        return StringOutcome::Parts(parts);
                    } else {
                        return StringOutcome::Invalid(parts);
                    }
                } else if c == 92u8 {
                    proof {
                        lemma_escape_end(b, file, start as int, lit@, diags_view(diagnostics@));
                    }
                    let escaped = scan_escape(cursor, file, &mut lit, diagnostics);
                    if !escaped {
                        ok = false;
                    }
                } else if c == 123u8 {
                    if cursor.peek_byte(1) == Some(123u8) {
                        push_char(&mut lit, '{');
                        cursor.advance(2);
                    } else {
                        flush(&mut parts, &mut lit);
                        let ghost dv = diags_view(diagnostics@);
                        proof { lemma_interp_end(b, file, start as int, start + 1, 1, false, dv); }
                        let reported_before = diagnostics.len();
                        match scan_interpolation(cursor, file, diagnostics) {
                            Interpolation::Part(part) => {
                                // A part whose interpolation reported an error
                                // (a `\` inside it) keeps the literal invalid.
                                if diagnostics.len() != reported_before {
                                    ok = false;
                                }
                                let ghost before = parts@;
                                parts.push(part);
                                assert(parts_view(parts@) =~= parts_view(before).push(part@));

                            },
                            Interpolation::Recovered => {
                                ok = false;
                            },
                            Interpolation::Unterminated => {
                                return StringOutcome::Invalid(parts);
                            },
                        }
                    }
                } else if c == 125u8 {
                    if cursor.peek_byte(1) == Some(125u8) {
                        push_char(&mut lit, '}');
                        cursor.advance(2);
                    } else {
                        let d = Diagnostic::error("E0006", "invalid interpolation: `}` without a matching `{`",
                            Span::new(file, start as u32, (start + 1) as u32))
                            .with_help("use }} to write a literal `}`");
                        push_diag(diagnostics, d);
                        cursor.advance(1);
                        ok = false;
                    }
                } else {
                    match cursor.bump_char() {
                        Some(ch) => {
                            proof { lemma_next_boundary(b, start as int); }
                            push_char(&mut lit, ch);
                        },
                        None => {
                            flush(&mut parts, &mut lit);
                            if ok {
                                return StringOutcome::Parts(parts);
                            } else {
                                return StringOutcome::Invalid(parts);
                            }
                        },
                    }
                }
            },
        }
    }
}

} // verus!
