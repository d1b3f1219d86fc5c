//! Floor division and positive remainder on signed integers.
//!
//! Rust's `/` and `%` truncate toward zero, which is the wrong rounding for
//! calendar arithmetic on instants before the epoch; these helpers give the
//! quotient rounded toward negative infinity and the remainder in
//! `[0, divisor)`, which is exactly what `/` and `%` mean in specifications.

use vstd::prelude::*;

verus! {

use vstd::arithmetic::div_mod::lemma_fundamental_div_mod;
use vstd::arithmetic::div_mod::lemma_fundamental_div_mod_converse;
use vstd::arithmetic::div_mod::lemma_mod_bound;

pub trait Integer: Sized + Copy {
    spec fn zero_spec() -> Self;

    spec fn one_spec() -> Self;

    fn zero() -> (r: Self)
        ensures
            r == Self::zero_spec(),
    ;

    fn one() -> (r: Self)
        ensures
            r == Self::one_spec(),
    ;
}

impl Integer for i32 {
    open spec fn zero_spec() -> i32 {
        0
    }

    open spec fn one_spec() -> i32 {
        1
    }

    fn zero() -> (r: i32) {
        0
    }

    fn one() -> (r: i32) {
        1
    }
}

impl Integer for i64 {
    open spec fn zero_spec() -> i64 {
        0
    }

    open spec fn one_spec() -> i64 {
        1
    }

    fn zero() -> (r: i64) {
        0
    }

    fn one() -> (r: i64) {
        1
    }
}

/// Remainder within range 0..divisor, even for negative dividend.
pub fn positive_rem(dividend: i64, divisor: i64) -> (r: i64)
    requires
        divisor > 0,
    ensures
        r == dividend as int % divisor as int,
{
    let rem: i64 = dividend % divisor;
    proof {
        lemma_truncating_rem_is_euclidean(dividend as int, divisor as int);
    }
    if rem < 0 {
        rem + divisor
    } else {
        rem
    }
}

/// Integer division that rounds towards negative infinity.
pub fn div_floor(dividend: i64, divisor: i64) -> (r: i64)
    requires
        divisor > 0,
        dividend > 0 || dividend + 1 - divisor >= i64::MIN,
    ensures
        r == dividend as int / divisor as int,
{
    if dividend > 0 {
        dividend / divisor
    } else {
        proof {
            lemma_floor_div_by_shifting(dividend as int, divisor as int);
        }
        (dividend + 1 - divisor) / divisor
    }
}

/// Rust's truncating `%` differs from the Euclidean `%` of specifications
/// only by the divisor: for a negative dividend with a nonzero remainder,
/// the truncating remainder is the Euclidean one minus the divisor.
proof fn lemma_truncating_rem_is_euclidean(x: int, d: int)
    requires
        d > 0,
    ensures
        x < 0 && (-x) % d == 0 ==> x % d == 0,
        x < 0 && (-x) % d != 0 ==> x % d == d - (-x) % d,
{
    lemma_mod_bound(-x, d);
    if x < 0 {
        let q: int = (-x) / d;
        let r: int = (-x) % d;
        lemma_fundamental_div_mod(-x, d);
        if r == 0 {
            assert(x == (-q) * d + 0) by (nonlinear_arith)
                requires
                    -x == d * q + r,
                    r == 0,
            ;
            lemma_fundamental_div_mod_converse(x, d, -q, 0);
        } else {
            assert(x == (-q - 1) * d + (d - r)) by (nonlinear_arith)
                requires
                    -x == d * q + r,
            ;
            lemma_fundamental_div_mod_converse(x, d, -q - 1, d - r);
        }
    }
}

/// The identity behind `div_floor`: shifting a non-positive dividend down by
/// `divisor - 1` makes truncating division round the same way floor
/// division does.
proof fn lemma_floor_div_by_shifting(x: int, d: int)
    requires
        d > 0,
        x <= 0,
    ensures
        x + 1 - d <= 0,
        -(-(x + 1 - d) / d) == x / d,
{
    let q: int = x / d;
    let r: int = x % d;
    lemma_mod_bound(x, d);
    lemma_fundamental_div_mod(x, d);
    assert(-(x + 1 - d) == (-q) * d + (d - 1 - r)) by (nonlinear_arith)
        requires
            x == d * q + r,
    ;
    lemma_fundamental_div_mod_converse(-(x + 1 - d), d, -q, d - 1 - r);
}

} // verus!
