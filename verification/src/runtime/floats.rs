//! What the runtime reads off a double's IEEE-754 bits: whether it is a NaN
//! or a zero, when two doubles are equal, and which integer (if any) one
//! denotes. Arithmetic on doubles is not done here.

use vstd::prelude::*;

verus! {

/// `2^k`.
pub open spec fn two_to(k: nat) -> nat
    decreases k,
{
    if k == 0 { 1 } else { 2 * two_to((k - 1) as nat) }
}

proof fn lemma_two_to_grows(j: nat, k: nat)
    requires
        j <= k,
    ensures
        two_to(j) <= two_to(k),
        two_to(j) >= 1,
    decreases k,
{
    if k > j {
        lemma_two_to_grows(j, (k - 1) as nat);
    } else if k > 0 {
        lemma_two_to_grows(0, (k - 1) as nat);
    }
}

proof fn lemma_two_to_values()
    ensures
        two_to(11) == 2048,
        two_to(12) == 4096,
        two_to(63) == 9223372036854775808,
        two_to(64) == 18446744073709551616,
{
    reveal_with_fuel(two_to, 65);
}

/// The biased exponent field of a double.
pub open spec fn exponent_field(b: u64) -> int {
    ((b / 4503599627370496) % 2048) as int
}

/// The fraction field of a double.
pub open spec fn fraction_field(b: u64) -> int {
    (b % 4503599627370496) as int
}

/// Whether the sign bit is set.
pub open spec fn sign_set(b: u64) -> bool {
    b >= 9223372036854775808
}

/// Whether the bits are a NaN.
pub open spec fn is_nan_bits(b: u64) -> bool {
    exponent_field(b) == 2047 && fraction_field(b) != 0
}

/// Whether the bits are `0.0` or `-0.0`.
pub open spec fn is_zero_bits(b: u64) -> bool {
    b % 9223372036854775808 == 0
}

/// IEEE-754 equality of two doubles: a NaN equals nothing, the two zeros
/// are equal, and otherwise equal values have equal bits.
pub open spec fn float_eq(x: u64, y: u64) -> bool {
    !is_nan_bits(x) && !is_nan_bits(y) && (x == y || (is_zero_bits(x) && is_zero_bits(y)))
}

/// The integer a finite double denotes, when it is one.
pub open spec fn float_integer(b: u64) -> Option<int> {
    let e = exponent_field(b);
    let m = fraction_field(b);
    if e == 2047 {
        None
    } else {
        let mant: int = if e == 0 { m } else { m + 4503599627370496 };
        let exp: int = if e == 0 { -1074 } else { e - 1075 };
        let mag: Option<int> = if exp >= 0 {
            Some(mant * two_to(exp as nat))
        } else if mant % (two_to((-exp) as nat) as int) == 0 {
            Some(mant / (two_to((-exp) as nat) as int))
        } else {
            None
        };
        match mag {
            Some(v) => Some(if sign_set(b) { -v } else { v }),
            None => None,
        }
    }
}

/// Whether an integer and a double denote the same number.
pub open spec fn int_float_eq(a: i64, b: u64) -> bool {
    float_integer(b) == Some(a as int)
}

/// `2^k` for `k < 64`.
fn two_to_exec(k: u64) -> (p: u64)
    requires
        k < 64,
    ensures
        p == two_to(k as nat),
{
    let mut p: u64 = 1;
    let mut i: u64 = 0;
    while i < k
        invariant
            i <= k < 64,
            p == two_to(i as nat),
        decreases k - i,
    {
        proof {
            lemma_two_to_grows((i + 1) as nat, 63);
            lemma_two_to_values();
            assert(two_to((i + 1) as nat) == 2 * two_to(i as nat));
        }
        p = p * 2;
        i = i + 1;
    }
    p
}

/// IEEE-754 equality of two doubles given by their bits.
pub fn float_bits_eq(x: u64, y: u64) -> (r: bool)
    ensures
        r == float_eq(x, y),
{
    let x_nan = (x / 4503599627370496) % 2048 == 2047 && x % 4503599627370496 != 0;
    let y_nan = (y / 4503599627370496) % 2048 == 2047 && y % 4503599627370496 != 0;
    !x_nan && !y_nan && (x == y || (x % 9223372036854775808 == 0 && y % 9223372036854775808 == 0))
}

/// Whether the integer `a` and the double with bits `b` denote the same
/// number.
pub fn int_equals_float(a: i64, b: u64) -> (r: bool)
    ensures
        r == int_float_eq(a, b),
{
    let e = (b / 4503599627370496) % 2048;
    let m = b % 4503599627370496;
    let neg = b >= 9223372036854775808;
    if e == 2047 {
        return false;
    }
    let mant: u64 = if e == 0 { m } else { m + 4503599627370496 };
    // The magnitude `a` must have, as a u128.
    let target: u128 = if a < 0 { (0i128 - (a as i128)) as u128 } else { a as u128 };
    let magnitude: u128;
    if e >= 1075 {
        let sh = e - 1075;
        if sh > 11 {
            proof {
                lemma_two_to_grows(12, sh as nat);
                lemma_two_to_values();
                assert(mant * two_to(sh as nat) >= 4503599627370496 * 4096) by (nonlinear_arith)
                    requires mant >= 4503599627370496, two_to(sh as nat) >= 4096;
            }
            return false;
        }
        let p = two_to_exec(sh);
        proof {
            lemma_two_to_grows(sh as nat, 11);
            lemma_two_to_values();
            assert(mant * p <= 9007199254740992 * 2048) by (nonlinear_arith)
                requires mant < 9007199254740992, p <= 2048;
        }
        magnitude = (mant as u128) * (p as u128);
    } else {
        let sh: u64 = if e == 0 { 1074 } else { 1075 - e };
        if sh >= 64 {
            proof {
                lemma_two_to_grows(64, sh as nat);
                lemma_two_to_values();
                assert(mant < two_to(sh as nat));
                let t = two_to(sh as nat) as int;
                let mi = mant as int;
                assert(mi % t == mi) by (nonlinear_arith)
                    requires 0 <= mi < t;
                assert(mi / t == 0) by (nonlinear_arith)
                    requires 0 <= mi < t;
            }
            if mant != 0 {
                return false;
            }
            magnitude = 0;
        } else {
            let p = two_to_exec(sh);
            proof { lemma_two_to_grows(0, sh as nat); }
            if mant % p != 0 {
                return false;
            }
            magnitude = (mant / p) as u128;
        }
    }
    if magnitude == 0 {
        a == 0
    } else if neg {
        a < 0 && target == magnitude
    } else {
        a > 0 && target == magnitude
    }
}

} // verus!
