//! Numeric literal scanning.
//!
//! Supported forms: decimal `Int` (`123`, `1_000`), hexadecimal `Int` (`0xFF`),
//! binary `Int` (`0b1010`) and `Float` (`1.5`, `2e10`, `1e-3`, `1.5e+3`).
//! `_` is allowed only between digits. A `.` starts a fraction only when a
//! digit follows, so `1..5` is `Int(1) DotDot Int(5)`. Everything malformed
//! produces `E0005`.
//!
//! A float literal's value is not computed here: the scanner returns its
//! separator-free text, and [`crate::lexer::finish_lex`] receives the parsed
//! value from the caller.

use vstd::prelude::*;
use crate::diagnostic::{Diagnostic, DiagV, diags_view, error_v, with_help_v};
use crate::span::{FileId, Span};
use super::cursor::{Cursor, byte_at};

verus! {

/// The outcome of scanning a numeric literal.
pub enum NumberOutcome {
    /// A well-formed integer literal.
    Int(i64),
    /// A well-formed float literal, given by its text without `_`.
    Float(Vec<u8>),
    /// A malformed literal; `looked_like_float` picks the placeholder kind.
    Invalid { looked_like_float: bool },
}

/// The model of a [`NumberOutcome`].
pub enum NumV {
    Int(i64),
    Float(Seq<u8>),
    Invalid(bool),
}

impl View for NumberOutcome {
    type V = NumV;

    open spec fn view(&self) -> NumV {
        match self {
            NumberOutcome::Int(v) => NumV::Int(*v),
            NumberOutcome::Float(t) => NumV::Float(t@),
            NumberOutcome::Invalid { looked_like_float } => NumV::Invalid(*looked_like_float),
        }
    }
}

/// What scanning a number at some offset produces: where the cursor ends,
/// the outcome, and the diagnostic it reports, if any.
pub struct NumScan {
    pub end: int,
    pub outcome: NumV,
    pub diag: Option<DiagV>,
}

pub open spec fn is_ascii_digit(c: u8) -> bool {
    48 <= c <= 57
}

pub open spec fn is_hex_digit(c: u8) -> bool {
    is_ascii_digit(c) || (65 <= c <= 70) || (97 <= c <= 102)
}

/// Whether a byte is a digit in the given radix.
pub open spec fn digit_in_radix(c: u8, radix: u32) -> bool {
    if radix == 2 {
        c == 48 || c == 49
    } else if radix == 10 {
        is_ascii_digit(c)
    } else if radix == 16 {
        is_hex_digit(c)
    } else {
        false
    }
}

/// The numeric value of a digit byte.
pub open spec fn digit_value(c: u8) -> nat {
    if is_ascii_digit(c) {
        (c - 48) as nat
    } else if 65 <= c <= 70 {
        (c - 55) as nat
    } else {
        (c - 87) as nat
    }
}

/// The value of a digit string in `radix`.
pub open spec fn digits_value(d: Seq<u8>, radix: nat) -> nat
    decreases d.len(),
{
    if d.len() == 0 {
        0
    } else {
        digits_value(d.drop_last(), radix) * radix + digit_value(d.last())
    }
}

/// `i64::from_str_radix` on a string made only of digits of `radix`:
/// the value when the string is non-empty and the value fits.
pub open spec fn parse_digits_spec(d: Seq<u8>, radix: nat) -> Option<i64> {
    if d.len() > 0 && digits_value(d, radix) <= i64::MAX {
        Some(digits_value(d, radix) as i64)
    } else {
        None
    }
}

/// The `0x`/`0X`/`0b`/`0B` prefix at `p`, as a radix.
pub open spec fn radix_prefix_spec(b: Seq<u8>, p: int) -> Option<u32> {
    if byte_at(b, p) != Some(48u8) {
        None
    } else if byte_at(b, p + 1) == Some(120u8) || byte_at(b, p + 1) == Some(88u8) {
        Some(16)
    } else if byte_at(b, p + 1) == Some(98u8) || byte_at(b, p + 1) == Some(66u8) {
        Some(2)
    } else {
        None
    }
}

/// Scanning digits of `radix` with single `_` separators from `i`, given the
/// state so far: the digits read, whether a separator was misplaced, whether
/// the last byte was a separator, and whether a digit was seen.
///
/// Returns the end offset, the digits (without `_`) and whether the
/// separator placement was malformed (including a trailing `_`).
pub open spec fn scan_digits_from(b: Seq<u8>, i: int, radix: u32, digits: Seq<u8>, malformed: bool,
    last_sep: bool, saw_digit: bool) -> (int, Seq<u8>, bool)
    decreases b.len() - i,
{
    if 0 <= i < b.len() && b[i] == 95u8 {
        scan_digits_from(b, i + 1, radix, digits, malformed || !saw_digit || last_sep, true, saw_digit)
    } else if 0 <= i < b.len() && digit_in_radix(b[i], radix) {
        scan_digits_from(b, i + 1, radix, digits.push(b[i]), malformed, false, true)
    } else {
        (i, digits, malformed || last_sep)
    }
}

/// A digit scan never moves backwards and stays in the input.
pub proof fn lemma_scan_digits_from_end(b: Seq<u8>, i: int, radix: u32, digits: Seq<u8>, malformed: bool,
    last_sep: bool, saw_digit: bool)
    requires
        0 <= i <= b.len(),
    ensures
        i <= scan_digits_from(b, i, radix, digits, malformed, last_sep, saw_digit).0 <= b.len(),
        ({
            let e = scan_digits_from(b, i, radix, digits, malformed, last_sep, saw_digit).0;
            e > i ==> b[e - 1] < 0x80
        }),
    decreases b.len() - i,
{
    if 0 <= i < b.len() && b[i] == 95u8 {
        lemma_scan_digits_from_end(b, i + 1, radix, digits, malformed || !saw_digit || last_sep, true, saw_digit);
    } else if 0 <= i < b.len() && digit_in_radix(b[i], radix) {
        lemma_scan_digits_from_end(b, i + 1, radix, digits.push(b[i]), malformed, false, true);
    }
}

/// Scanning a fresh digit run at `i`.
pub open spec fn scan_digits_spec(b: Seq<u8>, i: int, radix: u32) -> (int, Seq<u8>, bool) {
    scan_digits_from(b, i, radix, Seq::empty(), false, false, false)
}

/// Whether the bytes at `p` are `.` followed by a digit.
pub open spec fn starts_fraction(b: Seq<u8>, p: int) -> bool {
    byte_at(b, p) == Some(46u8) && (byte_at(b, p + 1) matches Some(c) && is_ascii_digit(c))
}

/// The length of the run of digits and `_` starting at `p + len`, added to `len`.
pub open spec fn exp_run(b: Seq<u8>, p: int, len: int) -> int
    decreases b.len() - (p + len),
{
    if 0 <= p + len < b.len() && (is_ascii_digit(b[p + len]) || b[p + len] == 95u8) && len >= 0 {
        exp_run(b, p, len + 1)
    } else {
        len
    }
}

/// The byte length of the exponent part at `p` (`e`, optional sign, digits
/// and `_`), or `None` when there is none.
pub open spec fn exponent_length_spec(b: Seq<u8>, p: int) -> Option<int> {
    if byte_at(b, p) == Some(101u8) || byte_at(b, p) == Some(69u8) {
        let start = if byte_at(b, p + 1) == Some(43u8) || byte_at(b, p + 1) == Some(45u8) { 2int } else { 1int };
        Some(exp_run(b, p, start))
    } else {
        None
    }
}

/// The bytes of `s` without `_`.
pub open spec fn without_underscores(s: Seq<u8>) -> Seq<u8>
    decreases s.len(),
{
    if s.len() == 0 {
        Seq::empty()
    } else if s.last() == 95u8 {
        without_underscores(s.drop_last())
    } else {
        without_underscores(s.drop_last()).push(s.last())
    }
}

/// Whether every byte of `s` is an ASCII digit.
pub open spec fn all_digits(s: Seq<u8>) -> bool {
    forall|k: int| 0 <= k < s.len() ==> is_ascii_digit(#[trigger] s[k])
}

/// The default help of `E0005`.
pub open spec fn separator_help() -> Seq<char> {
    "`_` may only appear between digits; `0x`/`0b` need at least one digit"@
}

/// The `E0005` diagnostic over `[start, end)`.
pub open spec fn number_diag(file: FileId, start: int, end: int, help: Seq<char>) -> DiagV {
    with_help_v(error_v("E0005"@, "invalid numeric literal"@,
        Span { file, start: start as u32, end: end as u32 }), help)
}

/// A malformed literal over `[start, end)`.
pub open spec fn invalid_scan(file: FileId, start: int, end: int, help: Seq<char>, float: bool) -> NumScan {
    NumScan { end, outcome: NumV::Invalid(float), diag: Some(number_diag(file, start, end, help)) }
}

/// Scanning a decimal or float literal at `start`.
pub open spec fn scan_decimal_spec(b: Seq<u8>, file: FileId, start: int) -> NumScan {
    let (e1, int_digits, mal1) = scan_digits_spec(b, start, 10);
    if mal1 || int_digits.len() == 0 {
        invalid_scan(file, start, e1, separator_help(), false)
    } else {
        let frac = starts_fraction(b, e1);
        let (e2, frac_digits, mal2) = scan_digits_spec(b, e1 + 1, 10);
        if frac && (mal2 || frac_digits.len() == 0) {
            invalid_scan(file, start, e2, separator_help(), false)
        } else {
            let p = if frac { e2 } else { e1 };
            let (end, exp_ok) = match exponent_length_spec(b, p) {
                Some(len) => {
                    let after_e = p + 1;
                    let end = if p + len <= b.len() { p + len } else { b.len() as int };
                    let sign = if byte_at(b, after_e) == Some(43u8) || byte_at(b, after_e) == Some(45u8) { 1int } else { 0int };
                    let ds = after_e + sign;
                    let exp_digits = if ds <= end { b.subrange(ds, end) } else { Seq::empty() };
                    (end, exp_digits.len() > 0 && all_digits(exp_digits))
                },
                None => (p, true),
            };
            let is_float = frac || exponent_length_spec(b, p).is_some();
            if !exp_ok {
                invalid_scan(file, start, end, "exponent has no digits"@, true)
            } else {
                if is_float {
                    NumScan { end, outcome: NumV::Float(without_underscores(b.subrange(start, end))), diag: None }
                } else {
                    // Without fraction or exponent, the separator-free text is
                    // exactly the digit run.
                    match parse_digits_spec(int_digits, 10) {
                        Some(v) => NumScan { end, outcome: NumV::Int(v), diag: None },
                        None => invalid_scan(file, start, end, "integer literal does not fit in i64"@, false),
                    }
                }
            }
        }
    }
}

/// Scanning a numeric literal at `start` (which holds a decimal digit).
pub open spec fn scan_number_spec(b: Seq<u8>, file: FileId, start: int) -> NumScan {
    match radix_prefix_spec(b, start) {
        None => scan_decimal_spec(b, file, start),
        Some(radix) => {
            let (end, digits, malformed) = scan_digits_spec(b, start + 2, radix);
            if malformed || digits.len() == 0 {
                invalid_scan(file, start, end, separator_help(), false)
            } else {
                match parse_digits_spec(digits, radix as nat) {
                    Some(v) => NumScan { end, outcome: NumV::Int(v), diag: None },
                    None => invalid_scan(file, start, end, "integer literal does not fit in i64"@, false),
                }
            }
        },
    }
}

/// A longer digit string is worth at least as much as its prefix.
proof fn lemma_digits_value_prefix(d: Seq<u8>, k: int, radix: nat)
    requires
        0 <= k <= d.len(),
        radix >= 1,
    ensures
        digits_value(d.take(k), radix) <= digits_value(d, radix),
    decreases d.len(),
{
    if k < d.len() {
        assert(d.drop_last().take(k) =~= d.take(k));
        lemma_digits_value_prefix(d.drop_last(), k, radix);
        let v = digits_value(d.drop_last(), radix);
        assert(v * radix >= v) by (nonlinear_arith)
            requires radix >= 1;
    } else {
        assert(d.take(k) =~= d);
    }
}

/// `i64::from_str_radix` on a non-empty run of `radix` digits.
pub fn parse_digits(digits: &Vec<u8>, radix: u32) -> (v: Option<i64>)
    requires
        radix == 2 || radix == 10 || radix == 16,
        forall|k: int| 0 <= k < digits@.len() ==> digit_in_radix(#[trigger] digits@[k], radix),
    ensures
        v == parse_digits_spec(digits@, radix as nat),
{
    if digits.len() == 0 {
        return None;
    }
    let mut value: i64 = 0;
    let mut i: usize = 0;
    while i < digits.len()
        invariant
            radix == 2 || radix == 10 || radix == 16,
            forall|k: int| 0 <= k < digits@.len() ==> digit_in_radix(#[trigger] digits@[k], radix),
            i <= digits@.len(),
            value as int == digits_value(digits@.take(i as int), radix as nat),
            value >= 0,
        decreases digits@.len() - i,
    {
        let c = digits[i];
        let d: i64 = if c >= 48 && c <= 57 {
            (c - 48) as i64
        } else if c >= 65 && c <= 70 {
            (c - 55) as i64
        } else {
            (c - 87) as i64
        };
        assert(d as int == digit_value(c));
        assert(digits@.take(i + 1).drop_last() =~= digits@.take(i as int));
        match value.checked_mul(radix as i64) {
            Some(m) => {
                match m.checked_add(d) {
                    Some(n) => {
                        value = n;
                    },
                    None => {
                        proof { lemma_digits_value_prefix(digits@, i + 1, radix as nat); }
                        return None;
                    },
                }
            },
            None => {
                proof {
                    lemma_digits_value_prefix(digits@, i + 1, radix as nat);
                    assert(value * radix + d >= value * radix);
                }
                return None;
            },
        }
        i = i + 1;
    }
    assert(digits@.take(digits@.len() as int) =~= digits@);
    Some(value)
}

/// Whether a byte is a digit in the given radix.
pub fn is_digit_in_radix(b: u8, radix: u32) -> (r: bool)
    ensures
        r == digit_in_radix(b, radix),
{
    if radix == 2 {
        b == 48 || b == 49
    } else if radix == 10 {
        b >= 48 && b <= 57
    } else if radix == 16 {
        (b >= 48 && b <= 57) || (b >= 65 && b <= 70) || (b >= 97 && b <= 102)
    } else {
        false
    }
}

/// Recognises a `0x`/`0X` or `0b`/`0B` prefix and returns the radix.
pub fn radix_prefix(cursor: &Cursor) -> (r: Option<u32>)
    requires
        cursor.wf(),
    ensures
        r == radix_prefix_spec(cursor.bytes_spec(), cursor.pos_spec()),
{
    if cursor.peek() != Some(48u8) {
        return None;
    }
    match cursor.peek_byte(1) {
        Some(c) => {
            if c == 120 || c == 88 {
                Some(16)
            } else if c == 98 || c == 66 {
                Some(2)
            } else {
                None
            }
        },
        None => None,
    }
}

/// Consumes digits in `radix`, allowing single `_` separators between
/// digits. Returns the digits and whether the separators were malformed.
pub fn scan_digits(cursor: &mut Cursor, radix: u32) -> (r: (Vec<u8>, bool))
    requires
        old(cursor).wf(),
    ensures
        final(cursor).wf(),
        final(cursor).bytes_spec() == old(cursor).bytes_spec(),
        final(cursor).text_spec() == old(cursor).text_spec(),
        ({
            let (end, digits, malformed) = scan_digits_spec(old(cursor).bytes_spec(), old(cursor).pos_spec(), radix);
            &&& final(cursor).pos_spec() == end
            &&& r.0@ == digits
            &&& r.1 == malformed
        }),
        forall|k: int| 0 <= k < r.0@.len() ==> digit_in_radix(#[trigger] r.0@[k], radix),
        old(cursor).pos_spec() <= final(cursor).pos_spec(),
{
    let ghost b = cursor.bytes_spec();
    let ghost start = cursor.pos_spec();
    proof {
        cursor.lemma_wf_facts();
        lemma_scan_digits_from_end(b, start, radix, Seq::empty(), false, false, false);
    }
    let mut digits: Vec<u8> = Vec::new();
    let mut malformed = false;
    let mut last_was_sep = false;
    let mut saw_digit = false;
    loop
        invariant
            cursor.wf(),
            cursor.bytes_spec() == b,
            cursor.text_spec() == old(cursor).text_spec(),
            scan_digits_spec(b, start, radix)
                == scan_digits_from(b, cursor.pos_spec(), radix, digits@, malformed, last_was_sep, saw_digit),
            forall|k: int| 0 <= k < digits@.len() ==> digit_in_radix(#[trigger] digits@[k], radix),
        ensures
            cursor.wf(),
            cursor.bytes_spec() == b,
            cursor.text_spec() == old(cursor).text_spec(),
            scan_digits_spec(b, start, radix) == (cursor.pos_spec(), digits@, malformed || last_was_sep),
            forall|k: int| 0 <= k < digits@.len() ==> digit_in_radix(#[trigger] digits@[k], radix),
        decreases b.len() - cursor.pos_spec(),
    {
        match cursor.peek() {
            Some(c) => {
                if c == 95u8 {
                    if !saw_digit || last_was_sep {
                        malformed = true;
                    }
                    last_was_sep = true;
                    cursor.advance(1);
                } else if is_digit_in_radix(c, radix) {
                    digits.push(c);
                    saw_digit = true;
                    last_was_sep = false;
                    cursor.advance(1);
                } else {
                    break;
                }
            },
            None => {
                break;
            },
        }
    }
    if last_was_sep {
        malformed = true;
    }
    (digits, malformed)
}

/// Whether the next two bytes are `.<digit>`.
pub fn next_starts_fraction(cursor: &Cursor) -> (r: bool)
    requires
        cursor.wf(),
    ensures
        r == starts_fraction(cursor.bytes_spec(), cursor.pos_spec()),
{
    if cursor.peek() != Some(46u8) {
        return false;
    }
    match cursor.peek_byte(1) {
        Some(c) => c >= 48 && c <= 57,
        None => false,
    }
}

/// The byte length of the exponent part (`e`, optional sign, digits), or
/// `None` when there is no exponent.
pub fn exponent_length(cursor: &Cursor) -> (r: Option<usize>)
    requires
        cursor.wf(),
    ensures
        match r {
            Some(n) => exponent_length_spec(cursor.bytes_spec(), cursor.pos_spec()) == Some(n as int)
                && cursor.pos_spec() + n <= cursor.bytes_spec().len()
                && 0 < n && cursor.bytes_spec()[cursor.pos_spec() + n - 1] < 0x80,
            None => exponent_length_spec(cursor.bytes_spec(), cursor.pos_spec()).is_none(),
        },
{
    match cursor.peek() {
        Some(c) => {
            if c != 101u8 && c != 69u8 {
                return None;
            }
        },
        None => {
            return None;
        },
    }
    let mut len: usize = 1;
    match cursor.peek_byte(1) {
        Some(c) => {
            if c == 43u8 || c == 45u8 {
                len = len + 1;
            }
        },
        None => {},
    }
    let bytes = cursor.rest_bytes();
    let ghost b = cursor.bytes_spec();
    let ghost p = cursor.pos_spec();
    proof {
        cursor.lemma_wf_facts();
    }
    while len < bytes.len()
        invariant
            bytes@ == b.subrange(p, b.len() as int),
            0 <= p <= b.len(),
            1 <= len,
            len <= bytes@.len(),
            b[p + len - 1] < 0x80,
            exponent_length_spec(b, p) == Some(exp_run(b, p, len as int)),
        ensures
            len <= bytes@.len(),
            b[p + len - 1] < 0x80,
            exponent_length_spec(b, p) == Some(len as int),
        decreases bytes@.len() - len,
    {
        let c = bytes[len];
        if (c >= 48 && c <= 57) || c == 95u8 {
            len = len + 1;
        } else {
            break;
        }
    }
    Some(len)
}

/// Reports `E0005` over `[start, end)` and returns the invalid outcome.
fn invalid(file: FileId, diagnostics: &mut Vec<Diagnostic>, start: usize, end: usize, help: &str,
    looked_like_float: bool) -> (r: NumberOutcome)
    ensures
        r@ == NumV::Invalid(looked_like_float),
        diags_view(final(diagnostics)@) == diags_view(old(diagnostics)@).push(
            number_diag(file, start as int, end as int, help@)),
{
    let d = Diagnostic::error("E0005", "invalid numeric literal", Span::new(file, start as u32, end as u32))
        .with_help(help);
    diagnostics.push(d);
    proof {
        assert(diags_view(final(diagnostics)@) =~= diags_view(old(diagnostics)@).push(
            number_diag(file, start as int, end as int, help@)));
    }
    NumberOutcome::Invalid { looked_like_float }
}

/// The bytes of `b[start..end]` without `_`.
fn cleaned_text(b: &[u8], start: usize, end: usize) -> (r: Vec<u8>)
    requires
        start <= end <= b@.len(),
    ensures
        r@ == without_underscores(b@.subrange(start as int, end as int)),
{
    let mut out: Vec<u8> = Vec::new();
    let mut i: usize = start;
    while i < end
        invariant
            start <= i <= end <= b@.len(),
            out@ == without_underscores(b@.subrange(start as int, i as int)),
        decreases end - i,
    {
        assert(b@.subrange(start as int, i + 1).drop_last() =~= b@.subrange(start as int, i as int));
        if b[i] != 95u8 {
            out.push(b[i]);
        }
        i = i + 1;
    }
    out
}

/// Decimal (or float) literal at `start`: digits, optional fraction,
/// optional exponent.
fn scan_decimal(cursor: &mut Cursor, file: FileId, diagnostics: &mut Vec<Diagnostic>, start: usize)
    -> (r: NumberOutcome)
    requires
        old(cursor).wf(),
        old(cursor).pos_spec() == start,
    ensures
        final(cursor).wf(),
        final(cursor).bytes_spec() == old(cursor).bytes_spec(),
        final(cursor).text_spec() == old(cursor).text_spec(),
        ({
            let sc = scan_decimal_spec(old(cursor).bytes_spec(), file, start as int);
            &&& final(cursor).pos_spec() == sc.end
            &&& r@ == sc.outcome
            &&& diags_view(final(diagnostics)@) == match sc.diag {
                Some(d) => diags_view(old(diagnostics)@).push(d),
                None => diags_view(old(diagnostics)@),
            }
        }),
{
    let ghost b = cursor.bytes_spec();
    proof { cursor.lemma_wf_facts(); }
    let (int_digits, malformed) = scan_digits(cursor, 10);
    if malformed || int_digits.len() == 0 {
        let end = cursor.pos();
        proof { reveal_strlit("`_` may only appear between digits; `0x`/`0b` need at least one digit"); }
        return invalid(file, diagnostics, start, end,
            "`_` may only appear between digits; `0x`/`0b` need at least one digit", false);
    }
    let ghost e1 = cursor.pos_spec();
    let mut is_float = false;
    if next_starts_fraction(cursor) {
        is_float = true;
        cursor.advance(1);
        let (frac, mal) = scan_digits(cursor, 10);
        if mal || frac.len() == 0 {
            let end = cursor.pos();
            return invalid(file, diagnostics, start, end,
                "`_` may only appear between digits; `0x`/`0b` need at least one digit", false);
        }
    }
    let ghost p = cursor.pos_spec();
    assert(p == if starts_fraction(b, e1) { scan_digits_spec(b, e1 + 1, 10).0 } else { e1 });
    match exponent_length(cursor) {
        Some(exponent_len) => {
            is_float = true;
            let after_e = cursor.pos() + 1;
            cursor.advance(exponent_len);
            let end = cursor.pos();
            proof { cursor.lemma_wf_facts(); }
            let whole = cursor.whole();
            let sign: usize = if after_e < whole.len() && (whole[after_e] == 43u8 || whole[after_e] == 45u8) {
                1
            } else {
                0
            };
            let ds = after_e + sign;
            let mut ok = ds < end;
            if ok {
                let mut k: usize = ds;
                while k < end
                    invariant
                        ds <= k <= end <= whole@.len(),
                        ok == (forall|j: int| ds <= j < k ==> is_ascii_digit(#[trigger] whole@[j])),
                    decreases end - k,
                {
                    let c = whole[k];
                    if !(c >= 48 && c <= 57) {
                        ok = false;
                    }
                    k = k + 1;
                }
                proof {
                    let sub = b.subrange(ds as int, end as int);
                    assert(ok == all_digits(sub)) by {
                        if ok {
                            assert forall|j: int| 0 <= j < sub.len() implies is_ascii_digit(#[trigger] sub[j]) by {
                                assert(sub[j] == whole@[ds + j]);
                            }
                        } else {
                            let j = choose|j: int| ds <= j < end && !is_ascii_digit(#[trigger] whole@[j]);
                            assert(sub[j - ds] == whole@[j]);
                        }
                    }
                }
            }
            if !ok {
                proof { reveal_strlit("exponent has no digits"); }
                return invalid(file, diagnostics, start, end, "exponent has no digits", true);
            }
            let cleaned = cleaned_text(whole, start, end);
            return NumberOutcome::Float(cleaned);
        },
        None => {},
    }
    let end = cursor.pos();
    if is_float {
        proof { cursor.lemma_wf_facts(); }
        let whole = cursor.whole();
        let cleaned = cleaned_text(whole, start, end);
        NumberOutcome::Float(cleaned)
    } else {
        match parse_digits(&int_digits, 10) {
            Some(value) => NumberOutcome::Int(value),
            None => {
                proof { reveal_strlit("integer literal does not fit in i64"); }
                invalid(file, diagnostics, start, end, "integer literal does not fit in i64", false)
            },
        }
    }
}

/// Scans a numeric literal starting at a decimal digit.
pub fn scan_number(cursor: &mut Cursor, file: FileId, diagnostics: &mut Vec<Diagnostic>) -> (r: NumberOutcome)
    requires
        old(cursor).wf(),
    ensures
        final(cursor).wf(),
        final(cursor).bytes_spec() == old(cursor).bytes_spec(),
        final(cursor).text_spec() == old(cursor).text_spec(),
        ({
            let sc = scan_number_spec(old(cursor).bytes_spec(), file, old(cursor).pos_spec());
            &&& final(cursor).pos_spec() == sc.end
            &&& r@ == sc.outcome
            &&& diags_view(final(diagnostics)@) == match sc.diag {
                Some(d) => diags_view(old(diagnostics)@).push(d),
                None => diags_view(old(diagnostics)@),
            }
        }),
{
    let start = cursor.pos();
    let radix = match radix_prefix(cursor) {
        Some(radix) => radix,
        None => {
            return scan_decimal(cursor, file, diagnostics, start);
        },
    };
    cursor.advance(2);
    let (digits, malformed) = scan_digits(cursor, radix);
    let end = cursor.pos();
    if malformed || digits.len() == 0 {
        proof { reveal_strlit("`_` may only appear between digits; `0x`/`0b` need at least one digit"); }
        return invalid(file, diagnostics, start, end,
            "`_` may only appear between digits; `0x`/`0b` need at least one digit", false);
    }
    match parse_digits(&digits, radix) {
        Some(value) => NumberOutcome::Int(value),
        None => {
            proof { reveal_strlit("integer literal does not fit in i64"); }
            invalid(file, diagnostics, start, end, "integer literal does not fit in i64", false)
        },
    }
}

} // verus!
