//! Decimal fixed-point arithmetic.
//!
//! A number is an integer that counts units of `1 / ONE`. Every operation
//! that cannot be exact rounds to the nearest unit, in the way that its
//! contract states.

use vstd::prelude::*;
use vstd::arithmetic::div_mod::lemma_fundamental_div_mod_converse_div;

verus! {

/// The number of units that make up the value one.
pub const ONE: i64 = 1_000_000_000_000;

/// `v` brought into the range of `i64`.
pub open spec fn clamped(v: int) -> int {
    if v < i64::MIN {
        i64::MIN as int
    } else if v > i64::MAX {
        i64::MAX as int
    } else {
        v
    }
}

/// The integer nearest to the quotient `n / d` for a positive `d`, ties going
/// up: half the divisor is added before the division rounds down.
pub open spec fn nearest(n: int, d: int) -> int {
    (n + d / 2) / d
}

/// The integer nearest to the quotient `n / d` for a positive `d`, ties going
/// away from zero: the quotient of `-n` is the negative of that of `n`.
pub open spec fn nearest_even_handed(n: int, d: int) -> int {
    if n >= 0 {
        nearest(n, d)
    } else {
        -nearest(-n, d)
    }
}

/// Brings a wide value into the range of `i64`.
pub fn clamp(v: i128) -> (r: i64)
    ensures
        r == clamped(v as int),
{
    if v < i64::MIN as i128 {
        i64::MIN
    } else if v > i64::MAX as i128 {
        i64::MAX
    } else {
        v as i64
    }
}

/// The quotient of `n` by a positive `d`, rounded towards minus infinity.
pub fn div_floor(n: i128, d: i128) -> (q: i128)
    requires
        d > 0,
        n > i128::MIN,
    ensures
        q == n / d,
{
    if n >= 0 {
        n / d
    } else {
        let m: i128 = -n;
        let q0: i128 = m / d;
        let r0: i128 = m % d;
        if r0 == 0 {
            proof {
                assert(m == d * q0 + r0) by (nonlinear_arith)
                    requires
                        d > 0,
                        q0 == m / d,
                        r0 == m % d,
                ;
                assert(n == (-q0) * d + 0) by (nonlinear_arith)
                    requires
                        n == -m,
                        m == d * q0 + r0,
                        r0 == 0,
                ;
                lemma_fundamental_div_mod_converse_div(n as int, d as int, -q0, 0);
            }
            -q0
        } else {
            proof {
                assert(m == d * q0 + r0 && 0 <= r0 < d) by (nonlinear_arith)
                    requires
                        d > 0,
                        q0 == m / d,
                        r0 == m % d,
                ;
                assert(n == (-q0 - 1) * d + (d - r0)) by (nonlinear_arith)
                    requires
                        n == -m,
                        m == d * q0 + r0,
                ;
                lemma_fundamental_div_mod_converse_div(n as int, d as int, -q0 - 1, d - r0);
            }
            -q0 - 1
        }
    }
}

/// The bound up to which `div_nearest` takes its arguments.
pub const WIDE: i128 = 0x4000_0000_0000_0000_0000_0000_0000_0000;

/// The quotient of `n` by a positive `d`, rounded to the nearest integer.
pub fn div_nearest(n: i128, d: i128) -> (q: i128)
    requires
        -WIDE <= n <= WIDE,
        0 < d <= WIDE,
    ensures
        q == nearest(n as int, d as int),
{
    div_floor(n + d / 2, d)
}

/// The quotient of `n` by a positive `d`, rounded to the nearest integer,
/// ties going away from zero.
pub fn div_even_handed(n: i128, d: i128) -> (q: i128)
    requires
        -WIDE <= n <= WIDE,
        0 < d <= WIDE,
    ensures
        q == nearest_even_handed(n as int, d as int),
{
    if n >= 0 {
        div_nearest(n, d)
    } else {
        -div_nearest(-n, d)
    }
}

} // verus!
