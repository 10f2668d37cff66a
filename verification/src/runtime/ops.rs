//! Integer arithmetic, indices and ranges, as the interpreter performs them.

use vstd::prelude::*;
use crate::ast::expr::BinaryOp;
use crate::span::Span;
use super::failure::{Failure, FailureKind};

verus! {

/// The most values a range expression produces.
pub const MAX_RANGE: usize = 10_000_000;

/// Resolves a possibly negative index against a length: a negative index
/// counts from the end; anything outside `[0, len)` is `None`.
pub open spec fn normalize_spec(index: int, len: int) -> Option<int> {
    let resolved = if index < 0 { len + index } else { index };
    if resolved < 0 || resolved >= len {
        None
    } else {
        Some(resolved)
    }
}

/// Normalizes a possibly negative index against a length.
pub fn normalize_index(index: i64, len: usize) -> (r: Option<usize>)
    requires
        len <= i64::MAX,
    ensures
        match (r, normalize_spec(index as int, len as int)) {
            (Some(i), Some(j)) => i as int == j,
            (None, None) => true,
            _ => false,
        },
{
    let n = len as i64;
    let resolved = if index < 0 { n + index } else { index };
    if resolved < 0 || resolved >= n {
        None
    } else {
        Some(resolved as usize)
    }
}

/// Integer division truncated toward zero, as Rust's `/` computes it.
pub open spec fn trunc_div(x: int, d: int) -> int {
    let q = (if x < 0 { -x } else { x }) / (if d < 0 { -d } else { d });
    if (x < 0) != (d < 0) { -q } else { q }
}

/// The remainder matching [`trunc_div`]: it has the sign of `x`.
pub open spec fn trunc_rem(x: int, d: int) -> int {
    let r = (if x < 0 { -x } else { x }) % (if d < 0 { -d } else { d });
    if x < 0 { -r } else { r }
}

pub open spec fn fits_i64(v: int) -> bool {
    i64::MIN <= v <= i64::MAX
}

/// What the integer branch of arithmetic gives: the exact result when it
/// fits in `i64`, `DivisionByZero` for a zero divisor, `Overflow` otherwise
/// (including an operator that is not arithmetic).
pub open spec fn int_op_spec(op: BinaryOp, a: int, b: int) -> Result<int, FailureKind> {
    if (op is Div || op is Rem) && b == 0 {
        Err(FailureKind::DivisionByZero)
    } else {
        let v = match op {
            BinaryOp::Add => Some(a + b),
            BinaryOp::Sub => Some(a - b),
            BinaryOp::Mul => Some(a * b),
            BinaryOp::Div => Some(trunc_div(a, b)),
            BinaryOp::Rem => if a == i64::MIN && b == -1 { None } else { Some(trunc_rem(a, b)) },
            _ => None,
        };
        match v {
            Some(x) => if fits_i64(x) { Ok(x) } else { Err(FailureKind::Overflow) },
            None => Err(FailureKind::Overflow),
        }
    }
}

proof fn lemma_trunc_matches_std(a: i64, b: i64)
    requires
        b != 0,
    ensures
        a.checked_div(b) == (if fits_i64(trunc_div(a as int, b as int)) {
            Some(trunc_div(a as int, b as int) as i64)
        } else {
            None::<i64>
        }),
        !(a == i64::MIN && b == -1) ==> a.checked_rem(b) == Some(trunc_rem(a as int, b as int) as i64)
            && fits_i64(trunc_rem(a as int, b as int)),
{
    let x = a as int;
    let d = b as int;
    if x == 0 {
        assert(0int / (if d < 0 { -d } else { d }) == 0) by (nonlinear_arith)
            requires d != 0;
        assert(0int % (if d < 0 { -d } else { d }) == 0) by (nonlinear_arith)
            requires d != 0;
    }
    if !(a == i64::MIN && b == -1) {
        let ax = if x < 0 { -x } else { x };
        let ad = if d < 0 { -d } else { d };
        assert(0 <= ax % ad < ad) by (nonlinear_arith)
            requires ad > 0, ax >= 0;
        assert(ax % ad <= ax) by (nonlinear_arith)
            requires ad > 0, ax >= 0;
    }
}

/// Integer arithmetic with checked operations: no wrap, no panic.
///
/// A zero divisor is a `DivisionByZero` failure ("division by zero"); a
/// result outside `i64` is an `Overflow` failure ("integer overflow in
/// `op`").
pub fn int_binary(op: BinaryOp, a: i64, b: i64, span: Span) -> (r: Result<i64, Failure>)
    ensures
        match (r, int_op_spec(op, a as int, b as int)) {
            (Ok(v), Ok(w)) => v as int == w,
            (Err(f), Err(k)) => f.kind == k && f.span == span && f.trace@.len() == 0
                && f.message@ == (if k is DivisionByZero {
                    "division by zero"@
                } else {
                    "integer overflow in `"@ + op.spelling() + "`"@
                }),
            _ => false,
        },
{
    if matches!(op, BinaryOp::Div | BinaryOp::Rem) && b == 0 {
        return Err(Failure::new(FailureKind::DivisionByZero, "division by zero", span));
    }
    proof {
        if b != 0 {
            lemma_trunc_matches_std(a, b);
        }
    }
    let result = match op {
        BinaryOp::Add => a.checked_add(b),
        BinaryOp::Sub => a.checked_sub(b),
        BinaryOp::Mul => a.checked_mul(b),
        BinaryOp::Div => a.checked_div(b),
        BinaryOp::Rem => a.checked_rem(b),
        _ => None,
    };
    match result {
        Some(v) => Ok(v),
        None => {
            let mut m = String::new();
            m.append("integer overflow in `");
            m.append(op.as_str());
            m.append("`");
            assert(m@ =~= "integer overflow in `"@ + op.spelling() + "`"@);
            Err(Failure::new(FailureKind::Overflow, m.as_str(), span))
        },
    }
}

/// How many values `start..end` (or `start..=end`) holds, capped at `cap`.
pub open spec fn range_count(start: int, end: int, inclusive: bool, cap: int) -> int {
    let last = if inclusive { end } else { end - 1 };
    if last < start {
        0
    } else if last - start + 1 > cap {
        cap
    } else {
        last - start + 1
    }
}

/// The integers `start, start + 1, …` up to `end` (included when
/// `inclusive`), at most [`MAX_RANGE`] of them.
pub fn int_range(start: i64, end: i64, inclusive: bool) -> (v: Vec<i64>)
    ensures
        v@.len() == range_count(start as int, end as int, inclusive, MAX_RANGE as int),
        forall|k: int| 0 <= k < v@.len() ==> v@[k] as int == start as int + k,
{
    let mut values: Vec<i64> = Vec::new();
    let mut current = start;
    loop
        invariant_except_break
            current as int == start as int + values@.len(),
            values@.len() <= MAX_RANGE,
            values@.len() <= range_count(start as int, end as int, inclusive, MAX_RANGE as int),
            forall|k: int| 0 <= k < values@.len() ==> values@[k] as int == start as int + k,
        ensures
            values@.len() == range_count(start as int, end as int, inclusive, MAX_RANGE as int),
            forall|k: int| 0 <= k < values@.len() ==> values@[k] as int == start as int + k,
        decreases MAX_RANGE - values@.len(),
    {
        let in_range = if inclusive { current <= end } else { current < end };
        if !(in_range && values.len() < MAX_RANGE) {
            break;
        }
        values.push(current);
        match current.checked_add(1) {
            Some(next) => current = next,
            None => break,
        }
    }
    values
}

/// The integers from `start` up to `end`, exclusive.
pub fn range_values(start: i64, end: i64) -> (v: Vec<i64>)
    ensures
        v@.len() == (if start < end { end - start } else { 0 }),
        forall|k: int| 0 <= k < v@.len() ==> v@[k] as int == start as int + k,
{
    let mut values: Vec<i64> = Vec::new();
    let mut current = start;
    while current < end
        invariant
            current as int == start as int + values@.len(),
            start <= current || values@.len() == 0,
            current <= end || values@.len() == 0,
            forall|k: int| 0 <= k < values@.len() ==> values@[k] as int == start as int + k,
        decreases end - current,
    {
        values.push(current);
        current = current + 1;
    }
    values
}

/// `+`, `-` and `*` on integers give the exact mathematical result when it
/// fits in an `Int`, and an overflow otherwise.
pub proof fn law_int_arith_exact(a: i64, b: i64)
    ensures
        int_op_spec(BinaryOp::Add, a as int, b as int)
            == (if i64::MIN <= a + b <= i64::MAX { Ok::<int, FailureKind>(a + b) } else { Err(FailureKind::Overflow) }),
        int_op_spec(BinaryOp::Sub, a as int, b as int)
            == (if i64::MIN <= a - b <= i64::MAX { Ok::<int, FailureKind>(a - b) } else { Err(FailureKind::Overflow) }),
        int_op_spec(BinaryOp::Mul, a as int, b as int)
            == (if i64::MIN <= a * b <= i64::MAX { Ok::<int, FailureKind>(a * b) } else { Err(FailureKind::Overflow) }),
{
}

/// Integer `/` and `%` by zero fail with a division by zero.
pub proof fn law_int_division_by_zero(a: i64)
    ensures
        int_op_spec(BinaryOp::Div, a as int, 0) == Err::<int, FailureKind>(FailureKind::DivisionByZero),
        int_op_spec(BinaryOp::Rem, a as int, 0) == Err::<int, FailureKind>(FailureKind::DivisionByZero),
{
}

/// Integer `/` and `%` truncate toward zero: the quotient times the divisor
/// plus the remainder gives back the dividend, the remainder is smaller
/// than the divisor and carries the dividend's sign.
pub proof fn law_int_division_truncates(a: i64, b: i64)
    requires
        b != 0,
        !(a == i64::MIN && b == -1),
    ensures
        match (int_op_spec(BinaryOp::Div, a as int, b as int), int_op_spec(BinaryOp::Rem, a as int, b as int)) {
            (Ok(q), Ok(r)) => q * b + r == a
                && (if r < 0 { -r } else { r }) < (if b < 0 { -(b as int) } else { b as int })
                && (r == 0 || (r < 0) == (a < 0)),
            _ => false,
        },
{
    let x = a as int;
    let d = b as int;
    let ax = if x < 0 { -x } else { x };
    let ad = if d < 0 { -d } else { d };
    let qq = ax / ad;
    let rr = ax % ad;
    assert(ax == ad * qq + rr && 0 <= rr < ad && 0 <= qq <= ax) by (nonlinear_arith)
        requires ad > 0, ax >= 0, qq == ax / ad, rr == ax % ad;
    let q = trunc_div(x, d);
    let r = trunc_rem(x, d);
    assert(q * d + r == x) by (nonlinear_arith)
        requires
            ax == ad * qq + rr,
            ax == (if x < 0 { -x } else { x }),
            ad == (if d < 0 { -d } else { d }),
            q == (if (x < 0) != (d < 0) { -qq } else { qq }),
            r == (if x < 0 { -rr } else { rr });
    assert(fits_i64(r));
    if !(x == i64::MIN && d == -1) {
        assert(qq <= ax);
        if ad == 1 {
            assert(qq == ax) by (nonlinear_arith) requires ad == 1, ax == ad * qq + rr, 0 <= rr < ad;
        } else {
            assert(qq * 2 <= ax) by (nonlinear_arith) requires ad >= 2, ax == ad * qq + rr, rr >= 0, qq >= 0;
        }
        assert(fits_i64(q));
    }
}

/// A resolved index lies inside the collection and names the position it
/// counts to: itself when not negative, counted from the end when negative.
pub proof fn law_normalize_in_bounds(index: int, len: int)
    ensures
        match normalize_spec(index, len) {
            Some(j) => 0 <= j < len && (if index >= 0 { j == index } else { j == len + index }),
            None => (index >= 0 && index >= len) || (index < 0 && len + index < 0),
        },
{
}

} // verus!
