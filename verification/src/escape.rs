//! Escape-time evaluation of the Mandelbrot iteration.
//!
//! The orbit of a point `c = a + b i` starts at zero and repeats
//! `z -> z * z + c`. A point escapes at the first step after which the orbit
//! lies outside the circle of radius four.

use vstd::prelude::*;
use vstd::arithmetic::div_mod::lemma_fundamental_div_mod_converse_div;
use crate::fixed::{ONE, nearest, nearest_even_handed, div_nearest, div_even_handed};

verus! {

/// Whether `x + y i` lies outside the circle of radius four.
pub open spec fn outside(x: int, y: int) -> bool {
    x * x + y * y > 16 * (ONE as int) * (ONE as int)
}

/// The real part of `(x + y i)^2 + a`.
pub open spec fn next_re(x: int, y: int, a: int) -> int {
    nearest(x * x - y * y, ONE as int) + a
}

/// The imaginary part of `(x + y i)^2 + b i`. The product rounds alike on
/// both sides of zero, so that a point and its mirror image about the real
/// axis have mirrored orbits.
pub open spec fn next_im(x: int, y: int, b: int) -> int {
    nearest_even_handed(2 * x * y, ONE as int) + b
}

/// The orbit of `a + b i` after `n` steps.
pub open spec fn orbit(a: int, b: int, n: nat) -> (int, int)
    decreases n,
{
    if n == 0 {
        (0, 0)
    } else {
        let p = orbit(a, b, (n - 1) as nat);
        (next_re(p.0, p.1, a), next_im(p.0, p.1, b))
    }
}

/// Whether the orbit of `a + b i` lies outside the circle after step `n`.
pub open spec fn outside_at(a: int, b: int, n: nat) -> bool {
    outside(orbit(a, b, n).0, orbit(a, b, n).1)
}

/// Whether the orbit stays within the circle after each of the steps 1 to `n`.
pub open spec fn inside_until(a: int, b: int, n: int) -> bool {
    forall|k: nat| 1 <= k <= n ==> !#[trigger] outside_at(a, b, k)
}

/// Whether step `n` is the first after which the orbit lies outside the circle.
pub open spec fn escapes_at(a: int, b: int, n: nat) -> bool {
    n >= 1 && outside_at(a, b, n) && inside_until(a, b, n - 1)
}

/// The step at which `a + b i` escapes, if it does so within `max` steps.
pub open spec fn first_escape(a: int, b: int, max: int) -> Option<nat> {
    if exists|n: nat| n <= max && escapes_at(a, b, n) {
        Some(choose|n: nat| n <= max && escapes_at(a, b, n))
    } else {
        None
    }
}

/// A point escapes at one step at most.
pub proof fn lemma_escape_unique(a: int, b: int, n: nat, m: nat)
    requires
        escapes_at(a, b, n),
        escapes_at(a, b, m),
    ensures
        n == m,
{
    if n < m {
        assert(!outside_at(a, b, n));
    } else if m < n {
        assert(!outside_at(a, b, m));
    }
}

/// `first_escape` is `Some(n)` exactly when `n` is within the bound and the
/// point escapes at step `n`.
pub proof fn lemma_first_escape_some(a: int, b: int, max: int, n: nat)
    ensures
        first_escape(a, b, max) == Some(n) <==> n <= max && escapes_at(a, b, n),
{
    if n <= max && escapes_at(a, b, n) {
        let m = choose|m: nat| m <= max && escapes_at(a, b, m);
        lemma_escape_unique(a, b, n, m);
    }
}

/// `first_escape` is `None` exactly when the orbit stays within the circle
/// for all of the `max` steps.
pub proof fn lemma_first_escape_none(a: int, b: int, max: int)
    ensures
        first_escape(a, b, max).is_none() <==> inside_until(a, b, max),
{
    if inside_until(a, b, max) {
        if exists|n: nat| n <= max && escapes_at(a, b, n) {
            let n = choose|n: nat| n <= max && escapes_at(a, b, n);
            assert(!outside_at(a, b, n));
        }
    } else {
        let k = choose|k: nat| 1 <= k <= max && outside_at(a, b, k);
        lemma_escape_exists(a, b, k);
        let n = choose|n: nat| n <= k && escapes_at(a, b, n);
        assert(n <= max && escapes_at(a, b, n));
    }
}

/// An orbit that lies outside the circle after step `k` has escaped at some
/// step up to `k`.
pub proof fn lemma_escape_exists(a: int, b: int, k: nat)
    requires
        k >= 1,
        outside_at(a, b, k),
    ensures
        exists|n: nat| n <= k && escapes_at(a, b, n),
    decreases k,
{
    if inside_until(a, b, k - 1) {
        assert(k <= k && escapes_at(a, b, k));
    } else {
        let j = choose|j: nat| 1 <= j <= k - 1 && outside_at(a, b, j);
        lemma_escape_exists(a, b, j);
        let n = choose|n: nat| n <= j && escapes_at(a, b, n);
        assert(n <= k && escapes_at(a, b, n));
    }
}

/// Four, the radius of the circle, in units.
pub const RADIUS: i64 = 4_000_000_000_000;

/// Whether `x + y i` lies outside the circle of radius four.
fn is_outside(x: i128, y: i128) -> (r: bool)
    requires
        -0x1_0000_0000_0000_0000 <= x <= 0x1_0000_0000_0000_0000,
        -0x1_0000_0000_0000_0000 <= y <= 0x1_0000_0000_0000_0000,
    ensures
        r == outside(x as int, y as int),
        !r ==> -RADIUS <= x <= RADIUS && -RADIUS <= y <= RADIUS,
{
    let lim: i128 = RADIUS as i128;
    if x > lim || x < -lim || y > lim || y < -lim {
        assert(x * x + y * y > 16 * 1_000_000_000_000 * 1_000_000_000_000) by (nonlinear_arith)
            requires
                x > 4_000_000_000_000 || x < -4_000_000_000_000 || y > 4_000_000_000_000 || y
                    < -4_000_000_000_000,
        ;
        true
    } else {
        assert(0 <= x * x <= 16_000_000_000_000_000_000_000_000 && 0 <= y * y
            <= 16_000_000_000_000_000_000_000_000) by (nonlinear_arith)
            requires
                -4_000_000_000_000 <= x <= 4_000_000_000_000,
                -4_000_000_000_000 <= y <= 4_000_000_000_000,
        ;
        x * x + y * y > 16_000_000_000_000_000_000_000_000
    }
}

/// One step of the iteration from `x + y i`, for the point `a + b i`.
fn advance(x: i64, y: i64, a: i64, b: i64) -> (r: (i128, i128))
    requires
        -RADIUS <= x <= RADIUS,
        -RADIUS <= y <= RADIUS,
    ensures
        r.0 == next_re(x as int, y as int, a as int),
        r.1 == next_im(x as int, y as int, b as int),
        -0x1_0000_0000_0000_0000 <= r.0 <= 0x1_0000_0000_0000_0000,
        -0x1_0000_0000_0000_0000 <= r.1 <= 0x1_0000_0000_0000_0000,
{
    assert(0 <= x * x <= 16_000_000_000_000_000_000_000_000 && 0 <= y * y
        <= 16_000_000_000_000_000_000_000_000 && -16_000_000_000_000_000_000_000_000 <= x * y
        <= 16_000_000_000_000_000_000_000_000) by (nonlinear_arith)
        requires
            -4_000_000_000_000 <= x <= 4_000_000_000_000,
            -4_000_000_000_000 <= y <= 4_000_000_000_000,
    ;
    let wx: i128 = x as i128;
    let wy: i128 = y as i128;
    let re: i128 = div_nearest(wx * wx - wy * wy, ONE as i128);
    assert(2 * x * y == 2 * (x * y)) by (nonlinear_arith);
    let im: i128 = div_even_handed(2 * wx * wy, ONE as i128);
    (re + a as i128, im + b as i128)
}

/// The step at which `a + b i` escapes, if it does so within
/// `max_iterations` steps.
pub fn escape_step(a: i64, b: i64, max_iterations: i64) -> (r: Option<i64>)
    ensures
        match r {
            Some(n) => first_escape(a as int, b as int, max_iterations as int) == Some(n as nat)
                && 1 <= n <= max_iterations,
            None => first_escape(a as int, b as int, max_iterations as int).is_none(),
        },
{
    let mut x: i64 = 0;
    let mut y: i64 = 0;
    let mut m: i64 = 0;
    while m < max_iterations
        invariant
            0 <= m,
            m <= max_iterations || m == 0,
            (x as int, y as int) == orbit(a as int, b as int, m as nat),
            inside_until(a as int, b as int, m as int),
            -RADIUS <= x <= RADIUS,
            -RADIUS <= y <= RADIUS,
        decreases max_iterations - m,
    {
        let (xx, yy) = advance(x, y, a, b);
        m = m + 1;
        assert((xx as int, yy as int) == orbit(a as int, b as int, m as nat));
        if is_outside(xx, yy) {
            proof {
                assert(outside_at(a as int, b as int, m as nat));
                lemma_first_escape_some(a as int, b as int, max_iterations as int, m as nat);
            }
            return Some(m);
        }
        x = xx as i64;
        y = yy as i64;
        assert(!outside_at(a as int, b as int, m as nat));
    }
    proof {
        lemma_first_escape_none(a as int, b as int, max_iterations as int);
    }
    None
}

/// What an evaluation reports for a point that stayed within the circle for
/// all of its steps.
#[derive(Clone, Copy, Debug, PartialEq, Eq, Structural)]
pub enum TerminalPolicy {
    /// The fraction zero.
    Zero,
    /// The fraction one: the bound divided by itself.
    Full,
}

/// The outcome of an evaluation.
#[derive(Clone, Copy, Debug, PartialEq, Eq, Structural)]
pub struct EscapeResult {
    /// Whether the point escaped within the bound.
    pub escaped: bool,
    /// The share of the bound that was used, between zero and `ONE`.
    pub fraction: i64,
}

/// Step `n` as a share of `max` steps, in units.
pub open spec fn fraction_of(n: int, max: int) -> int {
    nearest(n * ONE, max)
}

/// The fraction that `policy` gives to a point that did not escape.
pub open spec fn terminal_fraction(policy: TerminalPolicy) -> int {
    match policy {
        TerminalPolicy::Zero => 0,
        TerminalPolicy::Full => ONE as int,
    }
}

/// The outcome of evaluating `a + b i` with a bound of `max` steps.
pub open spec fn escape_result(a: int, b: int, max: int, policy: TerminalPolicy) -> EscapeResult {
    match first_escape(a, b, max) {
        Some(n) => EscapeResult { escaped: true, fraction: fraction_of(n as int, max) as i64 },
        None => EscapeResult { escaped: false, fraction: terminal_fraction(policy) as i64 },
    }
}

/// A step within the bound is a share of it between zero and one.
pub proof fn lemma_fraction_bounds(n: int, max: int)
    requires
        1 <= n <= max,
    ensures
        0 <= fraction_of(n, max) <= ONE,
        n == max ==> fraction_of(n, max) == ONE,
{
    let one = ONE as int;
    let h = max / 2;
    assert(0 <= h < max);
    assert(0 <= n * one <= max * one) by (nonlinear_arith)
        requires
            1 <= n <= max,
            one > 0,
    ;
    assert((n * one + h) / max >= 0) by (nonlinear_arith)
        requires
            n * one + h >= 0,
            max > 0,
    ;
    assert(max * one + h == one * max + h) by (nonlinear_arith);
    lemma_fundamental_div_mod_converse_div(max * one + h, max, one, h);
    assert((n * one + h) / max <= (max * one + h) / max) by (nonlinear_arith)
        requires
            n * one + h <= max * one + h,
            max > 0,
    ;
}

/// Evaluates the point `a + b i` with a bound of `max_iterations` steps.
///
/// A point that escapes at step `n` is reported as escaped with the fraction
/// `n / max_iterations`; one that does not escape within the bound is
/// reported with the fraction that `policy` names.
pub fn evaluate(a: i64, b: i64, max_iterations: i64, policy: TerminalPolicy) -> (r: EscapeResult)
    ensures
        r == escape_result(a as int, b as int, max_iterations as int, policy),
        0 <= r.fraction <= ONE,
{
    match escape_step(a, b, max_iterations) {
        Some(n) => {
            proof {
                lemma_fraction_bounds(n as int, max_iterations as int);
            }
            assert(0 <= n * ONE <= 0x8000_0000_0000_0000 * 1_000_000_000_000) by (nonlinear_arith)
                requires
                    0 <= n <= 0x8000_0000_0000_0000,
                    ONE == 1_000_000_000_000,
            ;
            let f: i128 = div_nearest(n as i128 * ONE as i128, max_iterations as i128);
            EscapeResult { escaped: true, fraction: f as i64 }
        },
        None => {
            let f: i64 = match policy {
                TerminalPolicy::Zero => 0,
                TerminalPolicy::Full => ONE,
            };
            EscapeResult { escaped: false, fraction: f }
        },
    }
}

/// A point farther than four from the origin escapes at the first step,
/// whatever the bound of at least one step.
pub proof fn lemma_far_point_escapes_at_once(a: int, b: int, max: int, policy: TerminalPolicy)
    requires
        a * a + b * b > 16 * (ONE as int) * (ONE as int),
        max >= 1,
    ensures
        escapes_at(a, b, 1),
        first_escape(a, b, max) == Some(1nat),
        escape_result(a, b, max, policy) == (EscapeResult {
            escaped: true,
            fraction: fraction_of(1, max) as i64,
        }),
{
    assert(orbit(a, b, 0) == (0int, 0int));
    assert(next_re(0, 0, a) == a && next_im(0, 0, b) == b);
    assert(orbit(a, b, 1) == (next_re(0, 0, a), next_im(0, 0, b)));
    assert(outside_at(a, b, 1));
    lemma_first_escape_some(a, b, max, 1);
}

/// The step at which a point escapes does not depend on the bound: a point
/// that escapes at step `n` within one bound escapes at step `n` within every
/// bound of at least `n`.
pub proof fn lemma_escape_step_is_monotone(a: int, b: int, max: int, n: nat, other: int)
    requires
        first_escape(a, b, max) == Some(n),
        other >= n,
    ensures
        first_escape(a, b, other) == Some(n),
{
    lemma_first_escape_some(a, b, max, n);
    lemma_first_escape_some(a, b, other, n);
}

/// The orbit of the mirror image of a point about the real axis is the
/// mirror image of the orbit of the point.
pub proof fn lemma_mirror_orbit(a: int, b: int, n: nat)
    ensures
        orbit(a, -b, n) == (orbit(a, b, n).0, -orbit(a, b, n).1),
    decreases n,
{
    if n > 0 {
        lemma_mirror_orbit(a, b, (n - 1) as nat);
        let p = orbit(a, b, (n - 1) as nat);
        assert(p.0 * p.0 - (-p.1) * (-p.1) == p.0 * p.0 - p.1 * p.1) by (nonlinear_arith);
        assert(2 * p.0 * (-p.1) == -(2 * p.0 * p.1)) by (nonlinear_arith);
    }
}

/// A point and its mirror image about the real axis evaluate alike.
pub proof fn lemma_mirror_image(a: int, b: int, max: int, policy: TerminalPolicy)
    ensures
        first_escape(a, -b, max) == first_escape(a, b, max),
        escape_result(a, -b, max, policy) == escape_result(a, b, max, policy),
{
    match first_escape(a, b, max) {
        Some(n) => {
            lemma_first_escape_some(a, b, max, n);
            lemma_mirror_outside(a, b, n);
            lemma_mirror_inside(a, b, n - 1);
            lemma_first_escape_some(a, -b, max, n);
        },
        None => {
            lemma_first_escape_none(a, b, max);
            lemma_mirror_inside(a, b, max);
            lemma_first_escape_none(a, -b, max);
        },
    }
}

/// The orbits of a point and of its mirror image lie outside the circle
/// after the same steps.
pub proof fn lemma_mirror_outside(a: int, b: int, n: nat)
    ensures
        outside_at(a, -b, n) == outside_at(a, b, n),
{
    lemma_mirror_orbit(a, b, n);
    let p = orbit(a, b, n);
    assert((-p.1) * (-p.1) == p.1 * p.1) by (nonlinear_arith);
}

/// The orbits of a point and of its mirror image stay within the circle for
/// the same numbers of steps.
pub proof fn lemma_mirror_inside(a: int, b: int, n: int)
    ensures
        inside_until(a, -b, n) == inside_until(a, b, n),
{
    if inside_until(a, b, n) {
        assert forall|k: nat| 1 <= k <= n implies !#[trigger] outside_at(a, -b, k) by {
            lemma_mirror_outside(a, b, k);
            assert(!outside_at(a, b, k));
        }
    }
    if inside_until(a, -b, n) {
        assert forall|k: nat| 1 <= k <= n implies !#[trigger] outside_at(a, b, k) by {
            lemma_mirror_outside(a, b, k);
            assert(!outside_at(a, -b, k));
        }
    }
}

/// Whether `x + y i` lies in the square of side one half about the origin.
pub open spec fn in_core(x: int, y: int) -> bool {
    -ONE <= 4 * x <= ONE && -ONE <= 4 * y <= ONE
}

/// The orbit of a point with a real part of at most 3/16 and an imaginary
/// part of at most 1/8 in size never leaves the square of side one half
/// about the origin.
pub proof fn lemma_core_orbit(a: int, b: int, n: nat)
    requires
        -3 * ONE <= 16 * a <= 3 * ONE,
        -ONE <= 8 * b <= ONE,
    ensures
        in_core(orbit(a, b, n).0, orbit(a, b, n).1),
    decreases n,
{
    if n > 0 {
        lemma_core_orbit(a, b, (n - 1) as nat);
        let p = orbit(a, b, (n - 1) as nat);
        lemma_core_step(p.0, p.1, a, b);
    }
}

/// One step from the square of side one half, for a point of the core
/// region, ends in that square.
pub proof fn lemma_core_step(x: int, y: int, a: int, b: int)
    requires
        in_core(x, y),
        -3 * ONE <= 16 * a <= 3 * ONE,
        -ONE <= 8 * b <= ONE,
    ensures
        in_core(next_re(x, y, a), next_im(x, y, b)),
{
    let one = ONE as int;
    let sq = x * x - y * y;
    let cr = 2 * x * y;
    assert(-62_500_000_000_000_000_000_000 <= sq <= 62_500_000_000_000_000_000_000 && -125_000_000_000_000_000_000_000
        <= cr <= 125_000_000_000_000_000_000_000) by (nonlinear_arith)
        requires
            -250_000_000_000 <= x <= 250_000_000_000,
            -250_000_000_000 <= y <= 250_000_000_000,
            sq == x * x - y * y,
            cr == 2 * x * y,
    ;
    assert(-62_500_000_000 <= nearest(sq, one) <= 62_500_000_000);
    assert(-125_000_000_000 <= nearest(cr, one) <= 125_000_000_000);
}

/// A point of the core region, the origin among them, does not escape,
/// whatever the bound: its evaluation reports the fraction of the policy.
pub proof fn lemma_core_never_escapes(a: int, b: int, max: int, policy: TerminalPolicy)
    requires
        -3 * ONE <= 16 * a <= 3 * ONE,
        -ONE <= 8 * b <= ONE,
    ensures
        first_escape(a, b, max).is_none(),
        escape_result(a, b, max, policy) == (EscapeResult {
            escaped: false,
            fraction: terminal_fraction(policy) as i64,
        }),
{
    assert forall|k: nat| 1 <= k <= max implies !#[trigger] outside_at(a, b, k) by {
        lemma_core_orbit(a, b, k);
        let p = orbit(a, b, k);
        assert(p.0 * p.0 + p.1 * p.1 <= 16 * 1_000_000_000_000 * 1_000_000_000_000)
            by (nonlinear_arith)
            requires
                -250_000_000_000 <= p.0 <= 250_000_000_000,
                -250_000_000_000 <= p.1 <= 250_000_000_000,
        ;
    }
    lemma_first_escape_none(a, b, max);
}

} // verus!
