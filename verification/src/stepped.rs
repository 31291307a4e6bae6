//! A quantity that changes in steps of nine tenths.
//!
//! The scale and the density of a view only ever change by a factor of 0.9
//! or of its inverse. Such a quantity is held as the value it started with
//! and the net number of steps taken since: `start * 0.9^steps`, exactly.
//! Nothing is rounded when a step is taken. A rounded value is worked out
//! from the two where a coordinate or a digit is needed.

use vstd::prelude::*;
use vstd::arithmetic::power::{pow, lemma_pow0, lemma_pow_adds, lemma_pow_positive};
use crate::fixed::{div_floor, nearest};

verus! {

/// The number of fine units that make up one unit.
pub const FINE: i128 = 1_000_000;

/// The size at which a rounded value is held, in fine units. It stands for
/// a hundred million million million: a sample that lies off the middle of
/// a view of that scale lies beyond every coordinate that an `i64` holds.
pub const CAP: i128 = 100_000_000_000_000_000_000_000_000_000_000_000_000;

/// A quantity of `start * 0.9^steps` units.
#[derive(Clone, Copy, Debug, PartialEq, Eq, Structural)]
pub struct Stepped {
    /// The value before any step, in units.
    pub start: i64,
    /// The steps of nine tenths taken since, less those of ten ninths.
    pub steps: i64,
}

/// The value one in fine units.
pub const ONE_FINE: i128 = 1_000_000_000_000_000_000;

/// The cap in units.
pub const UNIT_CAP: i128 = 100_000_000_000_000_000_000_000_000_000_000;

/// `v` brought into the range from `-CAP` to `CAP`.
pub open spec fn capped(v: int) -> int {
    if v < -CAP {
        -CAP as int
    } else if v > CAP {
        CAP as int
    } else {
        v
    }
}

/// One rounded step from `v`: inward to nine tenths of it, outward to ten
/// ninths of it, the latter held at the cap.
pub open spec fn step(v: int, inward: bool) -> int {
    if inward {
        nearest(9 * v, 10)
    } else {
        capped(nearest(10 * v, 9))
    }
}

/// `k` rounded steps from `v`.
pub open spec fn step_times(v: int, inward: bool, k: nat) -> int
    decreases k,
{
    if k == 0 {
        v
    } else {
        step(step_times(v, inward, (k - 1) as nat), inward)
    }
}

impl Stepped {
    /// The numerator of the quantity as a fraction of units.
    pub open spec fn numerator(self) -> int {
        if self.steps >= 0 {
            self.start * pow(9, self.steps as nat)
        } else {
            self.start * pow(10, (-self.steps) as nat)
        }
    }

    /// The denominator of the quantity as a fraction of units: positive.
    pub open spec fn denominator(self) -> int {
        if self.steps >= 0 {
            pow(10, self.steps as nat)
        } else {
            pow(9, (-self.steps) as nat)
        }
    }

    /// Whether the quantity is `num / den` times `other`, for a positive
    /// `den`.
    pub open spec fn is_multiple_of(self, other: Stepped, num: int, den: int) -> bool {
        den * self.numerator() * other.denominator() == num * other.numerator()
            * self.denominator()
    }

    /// Whether the quantity is greater than `other`.
    pub open spec fn exceeds(self, other: Stepped) -> bool {
        self.numerator() * other.denominator() > other.numerator() * self.denominator()
    }

    /// The quantity after `k` more steps of nine tenths, or after `-k` steps
    /// of ten ninths.
    pub open spec fn moved(self, k: int) -> Stepped {
        Stepped { start: self.start, steps: (self.steps + k) as i64 }
    }

    /// The quantity in fine units, rounded step by step from the start.
    pub open spec fn fine(self) -> int {
        if self.steps >= 0 {
            step_times(self.start * FINE, true, self.steps as nat)
        } else {
            step_times(self.start * FINE, false, (-self.steps) as nat)
        }
    }

    /// The quantity in units: its fine value rounded to the nearest unit.
    pub open spec fn units(self) -> int {
        nearest(self.fine(), FINE as int)
    }

    /// A quantity of `start` units that has taken no step.
    pub fn new(start: i64) -> (r: Stepped)
        ensures
            r == (Stepped { start, steps: 0 }),
    {
        Stepped { start, steps: 0 }
    }

    /// Whether a step of nine tenths can still be counted.
    pub fn can_shrink(&self) -> (r: bool)
        ensures
            r == (self.steps < i64::MAX),
    {
        self.steps < i64::MAX
    }

    /// Whether a step of ten ninths can still be counted.
    pub fn can_grow(&self) -> (r: bool)
        ensures
            r == (self.steps > i64::MIN),
    {
        self.steps > i64::MIN
    }

    /// Takes a step of nine tenths.
    pub fn shrink(&mut self)
        requires
            old(self).steps < i64::MAX,
        ensures
            *final(self) == old(self).moved(1),
    {
        self.steps = self.steps + 1;
    }

    /// Takes a step of ten ninths.
    pub fn grow(&mut self)
        requires
            old(self).steps > i64::MIN,
        ensures
            *final(self) == old(self).moved(-1),
    {
        self.steps = self.steps - 1;
    }

    /// The quantity in fine units.
    pub fn to_fine(&self) -> (r: i128)
        ensures
            r == self.fine(),
            -CAP <= r <= CAP,
    {
        let inward: bool = self.steps >= 0;
        let total: u64 = if inward {
            self.steps as u64
        } else {
            (-(self.steps as i128)) as u64
        };
        let ghost v = self.start * FINE;
        assert(-CAP <= v <= CAP) by (nonlinear_arith)
            requires
                v == self.start * 1_000_000,
                -0x8000_0000_0000_0000 <= self.start <= 0x7fff_ffff_ffff_ffff,
                CAP == 100_000_000_000_000_000_000_000_000_000_000_000_000,
        ;
        assert(self.fine() == step_times(v, inward, total as nat));
        let mut x: i128 = self.start as i128 * FINE;
        let mut i: u64 = 0;
        while i < total
            invariant
                i <= total,
                -CAP <= x <= CAP,
                x == step_times(v, inward, i as nat),
                self.fine() == step_times(v, inward, total as nat),
            decreases total - i,
        {
            let y: i128 = step_of(x, inward);
            if y == x {
                proof {
                    lemma_step_times_adds(v, inward, i as nat, (total - i) as nat);
                    lemma_step_times_rests(x as int, inward, (total - i) as nat);
                    assert(i as nat + (total - i) as nat == total as nat);
                }
                return x;
            }
            x = y;
            i = i + 1;
        }
        x
    }

    /// The quantity in units.
    pub fn to_units(&self) -> (r: i128)
        ensures
            r == self.units(),
            -UNIT_CAP <= r <= UNIT_CAP,
    {
        div_floor(self.to_fine() + FINE / 2, FINE)
    }
}

/// One rounded step from `v`.
fn step_of(v: i128, inward: bool) -> (r: i128)
    requires
        -CAP <= v <= CAP,
    ensures
        r == step(v as int, inward),
        -CAP <= r <= CAP,
{
    if inward {
        v + div_floor(5 - v, 10)
    } else {
        let g: i128 = v + div_floor(v + 4, 9);
        if g < -CAP {
            -CAP
        } else if g > CAP {
            CAP
        } else {
            g
        }
    }
}

/// `i` steps and then `j` more are `i + j` steps.
pub proof fn lemma_step_times_adds(v: int, inward: bool, i: nat, j: nat)
    ensures
        step_times(v, inward, i + j) == step_times(step_times(v, inward, i), inward, j),
    decreases j,
{
    if j > 0 {
        lemma_step_times_adds(v, inward, i, (j - 1) as nat);
        assert(i + j - 1 == i + (j - 1) as nat);
    }
}

/// A value that one step leaves as it is stays as it is.
pub proof fn lemma_step_times_rests(v: int, inward: bool, k: nat)
    requires
        step(v, inward) == v,
    ensures
        step_times(v, inward, k) == v,
    decreases k,
{
    if k > 0 {
        lemma_step_times_rests(v, inward, (k - 1) as nat);
    }
}

/// Powers of nine and ten are positive, and that of ten is the greater from
/// the first on.
pub proof fn lemma_powers(k: nat)
    ensures
        0 < pow(9, k) <= pow(10, k),
        k == 0 ==> pow(9, k) == 1 && pow(10, k) == 1,
        k > 0 ==> pow(9, k) < pow(10, k),
        k > 0 ==> pow(9, k) == 9 * pow(9, (k - 1) as nat) && pow(10, k) == 10 * pow(
            10,
            (k - 1) as nat,
        ),
    decreases k,
{
    if k == 0 {
        lemma_pow0(9);
        lemma_pow0(10);
    } else {
        lemma_powers((k - 1) as nat);
        reveal(pow);
    }
}

/// `k` rounded steps inward give `v * 0.9^k` to within five: the difference,
/// multiplied by `10^k`, is at most `5 * (10^k - 9^k)` in size.
pub proof fn lemma_inward_is_close(v: int, k: nat)
    ensures
        -5 * (pow(10, k) - pow(9, k)) <= pow(10, k) * step_times(v, true, k) - pow(9, k) * v <= 5
            * (pow(10, k) - pow(9, k)),
    decreases k,
{
    lemma_powers(k);
    if k > 0 {
        let j = (k - 1) as nat;
        lemma_inward_is_close(v, j);
        lemma_powers(j);
        let t = pow(10, j);
        let n = pow(9, j);
        let z = step_times(v, true, j);
        let z1 = step_times(v, true, k);
        let d = 10 * z1 - 9 * z;
        let e = t * z - n * v;
        assert(-5 < d <= 5);
        let tk = pow(10, k);
        let nk = pow(9, k);
        assert(tk * z1 - nk * v == t * d + 9 * e) by (nonlinear_arith)
            requires
                tk == 10 * t,
                nk == 9 * n,
                d == 10 * z1 - 9 * z,
                e == t * z - n * v,
        ;
        assert(-5 * t <= t * d <= 5 * t) by (nonlinear_arith)
            requires
                t > 0,
                -5 < d <= 5,
        ;
    }
}

/// `k` rounded steps outward from a positive `v` that stay below the cap
/// give `v / 0.9^k` to within four for each step: the difference, multiplied
/// by `9^k`, is at most `4 * (10^k - 9^k)` in size. They do not fall.
pub proof fn lemma_outward_is_close(v: int, k: nat)
    requires
        0 < v < CAP,
        step_times(v, false, k) < CAP,
    ensures
        -4 * (pow(10, k) - pow(9, k)) <= pow(9, k) * step_times(v, false, k) - pow(10, k) * v <= 4
            * (pow(10, k) - pow(9, k)),
        v <= step_times(v, false, k),
    decreases k,
{
    lemma_powers(k);
    if k > 0 {
        let j = (k - 1) as nat;
        let z = step_times(v, false, j);
        let z1 = step_times(v, false, k);
        lemma_outward_is_capped(v, j);
        assert(z < CAP) by {
            if z >= CAP {
                assert(nearest(10 * z, 9) >= CAP);
            }
        }
        lemma_outward_is_close(v, j);
        lemma_powers(j);
        let t = pow(10, j);
        let n = pow(9, j);
        let d = 9 * z1 - 10 * z;
        let e = n * z - t * v;
        assert(z1 == nearest(10 * z, 9));
        assert(-4 <= d <= 4);
        let tk = pow(10, k);
        let nk = pow(9, k);
        assert(nk * z1 - tk * v == n * d + 10 * e) by (nonlinear_arith)
            requires
                tk == 10 * t,
                nk == 9 * n,
                d == 9 * z1 - 10 * z,
                e == n * z - t * v,
        ;
        assert(-4 * n <= n * d <= 4 * n) by (nonlinear_arith)
            requires
                n > 0,
                -4 <= d <= 4,
        ;
    }
}

/// Rounded steps inward bring a value no farther from zero.
pub proof fn lemma_inward_shrinks(v: int, k: nat)
    ensures
        v >= 0 ==> 0 <= step_times(v, true, k) <= v,
        v <= 0 ==> v <= step_times(v, true, k) <= 0,
    decreases k,
{
    if k > 0 {
        lemma_inward_shrinks(v, (k - 1) as nat);
    }
}

/// Rounded steps outward from a value within the cap stay within it.
pub proof fn lemma_outward_is_capped(v: int, k: nat)
    requires
        -CAP <= v <= CAP,
    ensures
        -CAP <= step_times(v, false, k) <= CAP,
    decreases k,
{
    if k > 0 {
        lemma_outward_is_capped(v, (k - 1) as nat);
    }
}

impl Stepped {
    /// The rounded value of a quantity that has taken `s` steps of nine
    /// tenths lies within half a unit and five fine units of the quantity:
    /// the difference, in fine units and multiplied by `10^s`, is at most
    /// `FINE / 2 * 10^s + 5 * (10^s - 9^s)` in size.
    pub proof fn lemma_units_inward(self)
        requires
            self.steps >= 0,
        ensures
            -(FINE / 2) * pow(10, self.steps as nat) - 5 * (pow(10, self.steps as nat) - pow(
                9,
                self.steps as nat,
            )) <= FINE * (pow(10, self.steps as nat) * self.units() - self.numerator()),
            FINE * (pow(10, self.steps as nat) * self.units() - self.numerator()) <= (FINE / 2)
                * pow(10, self.steps as nat) + 5 * (pow(10, self.steps as nat) - pow(
                9,
                self.steps as nat,
            )),
    {
        let s = self.steps as nat;
        let v = self.start * FINE;
        let f = self.fine();
        let t = pow(10, s);
        let n = pow(9, s);
        lemma_inward_is_close(v, s);
        lemma_powers(s);
        lemma_inward_shrinks(v, s);
        let u = nearest(f, FINE as int);
        let r = 1_000_000 * u - f;
        assert(u == (f + 500_000) / 1_000_000);
        assert(-500_000 <= r <= 500_000);
        let num = self.numerator();
        let lhs = FINE * (t * u - num);
        assert(lhs == t * r + (t * f - n * v)) by (nonlinear_arith)
            requires
                lhs == 1_000_000 * (t * u - num),
                r == 1_000_000 * u - f,
                num == self.start * n,
                v == self.start * 1_000_000,
        ;
        assert(-500_000 * t <= t * r <= 500_000 * t) by (nonlinear_arith)
            requires
                t > 0,
                -500_000 <= r <= 500_000,
        ;
    }

    /// The rounded value of a positive quantity that has taken `k` steps of
    /// ten ninths and lies below the cap lies within half a unit, and four
    /// fine units for each step, of the quantity: the difference, in fine
    /// units and multiplied by `9^k`, is at most
    /// `FINE / 2 * 9^k + 4 * (10^k - 9^k)` in size.
    pub proof fn lemma_units_outward(self)
        requires
            self.steps < 0,
            self.start > 0,
            self.fine() < CAP,
        ensures
            -(FINE / 2) * pow(9, (-self.steps) as nat) - 4 * (pow(10, (-self.steps) as nat) - pow(
                9,
                (-self.steps) as nat,
            )) <= FINE * (pow(9, (-self.steps) as nat) * self.units() - self.numerator()),
            FINE * (pow(9, (-self.steps) as nat) * self.units() - self.numerator()) <= (FINE / 2)
                * pow(9, (-self.steps) as nat) + 4 * (pow(10, (-self.steps) as nat) - pow(
                9,
                (-self.steps) as nat,
            )),
    {
        let k = (-self.steps) as nat;
        let v = self.start * FINE;
        let f = self.fine();
        let t = pow(10, k);
        let n = pow(9, k);
        assert(0 < v < CAP) by (nonlinear_arith)
            requires
                v == self.start * 1_000_000,
                0 < self.start <= 0x7fff_ffff_ffff_ffff,
                CAP == 100_000_000_000_000_000_000_000_000_000_000_000_000,
        ;
        lemma_outward_is_close(v, k);
        lemma_powers(k);
        let u = nearest(f, FINE as int);
        let r = 1_000_000 * u - f;
        assert(u == (f + 500_000) / 1_000_000);
        assert(-500_000 <= r <= 500_000);
        let num = self.numerator();
        let lhs = FINE * (n * u - num);
        assert(lhs == n * r + (n * f - t * v)) by (nonlinear_arith)
            requires
                lhs == 1_000_000 * (n * u - num),
                r == 1_000_000 * u - f,
                num == self.start * t,
                v == self.start * 1_000_000,
        ;
        assert(-500_000 * n <= n * r <= 500_000 * n) by (nonlinear_arith)
            requires
                n > 0,
                -500_000 <= r <= 500_000,
        ;
    }

    /// `k` steps of nine tenths multiply the quantity by `0.9^k`, exactly.
    pub proof fn lemma_moved_inward(self, k: nat)
        requires
            self.steps + k <= i64::MAX,
        ensures
            self.moved(k as int).is_multiple_of(self, pow(9, k), pow(10, k)),
    {
        let t = self.moved(k as int);
        let st = self.start as int;
        let tn = t.numerator();
        let td = t.denominator();
        let sn = self.numerator();
        let sd = self.denominator();
        let c = pow(9, k);
        let d = pow(10, k);
        if self.steps >= 0 {
            let s = self.steps as nat;
            lemma_pow_adds(9, s, k);
            lemma_pow_adds(10, s, k);
            let a = pow(9, s);
            let b = pow(10, s);
            assert(t.steps as nat == s + k);
            assert(d * tn * sd == c * sn * td) by (nonlinear_arith)
                requires
                    tn == st * (a * c),
                    td == b * d,
                    sn == st * a,
                    sd == b,
            ;
        } else if self.steps + k <= 0 {
            let m = (-(self.steps + k)) as nat;
            lemma_pow_adds(9, m, k);
            lemma_pow_adds(10, m, k);
            assert(m + k == (-self.steps) as nat);
            lemma_pow0(9);
            lemma_pow0(10);
            let a = pow(9, m);
            let b = pow(10, m);
            assert(tn == st * b && td == a);
            assert(d * tn * sd == c * sn * td) by (nonlinear_arith)
                requires
                    tn == st * b,
                    td == a,
                    sn == st * (b * d),
                    sd == a * c,
            ;
        } else {
            let m = (-self.steps) as nat;
            let n = (self.steps + k) as nat;
            lemma_pow_adds(9, m, n);
            lemma_pow_adds(10, m, n);
            assert(m + n == k);
            let a = pow(9, m);
            let b = pow(10, m);
            let e = pow(9, n);
            let f = pow(10, n);
            assert(d * tn * sd == c * sn * td) by (nonlinear_arith)
                requires
                    tn == st * e,
                    td == f,
                    sn == st * b,
                    sd == a,
                    c == a * e,
                    d == b * f,
            ;
        }
    }

    /// `k` steps of ten ninths divide the quantity by `0.9^k`, exactly.
    pub proof fn lemma_moved_outward(self, k: nat)
        requires
            self.steps - k >= i64::MIN,
        ensures
            self.moved(-(k as int)).is_multiple_of(self, pow(10, k), pow(9, k)),
    {
        let t = self.moved(-(k as int));
        t.lemma_moved_inward(k);
        assert(t.moved(k as int) == self);
    }

    /// A step of nine tenths and one of ten ninths, in either order, give
    /// the quantity back.
    pub proof fn lemma_steps_cancel(self)
        ensures
            self.steps < i64::MAX ==> self.moved(1).moved(-1) == self,
            self.steps > i64::MIN ==> self.moved(-1).moved(1) == self,
    {
    }

    /// The numerator of a positive quantity and the denominator of any are
    /// positive.
    pub proof fn lemma_positive(self)
        ensures
            self.denominator() > 0,
            self.start > 0 ==> self.numerator() > 0,
    {
        let k = if self.steps >= 0 {
            self.steps as nat
        } else {
            (-self.steps) as nat
        };
        lemma_powers(k);
        let st = self.start as int;
        let a = pow(9, k);
        let b = pow(10, k);
        assert(st > 0 ==> st * a > 0 && st * b > 0) by (nonlinear_arith)
            requires
                a > 0,
                b > 0,
        ;
    }

    /// Each step of ten ninths makes a positive quantity greater, and each
    /// step of nine tenths makes it less: there is no floor and no ceiling.
    pub proof fn lemma_steps_order(self, k: nat)
        requires
            self.start > 0,
            k > 0,
        ensures
            self.steps - k >= i64::MIN ==> self.moved(-(k as int)).exceeds(self),
            self.steps + k <= i64::MAX ==> self.exceeds(self.moved(k as int)),
    {
        lemma_powers(k);
        let c = pow(9, k);
        let d = pow(10, k);
        self.lemma_positive();
        if self.steps - k >= i64::MIN {
            let t = self.moved(-(k as int));
            self.lemma_moved_outward(k);
            t.lemma_positive();
            let x = t.numerator() * self.denominator();
            let y = self.numerator() * t.denominator();
            assert(c * x == d * y) by (nonlinear_arith)
                requires
                    c * t.numerator() * self.denominator() == d * self.numerator()
                        * t.denominator(),
                    x == t.numerator() * self.denominator(),
                    y == self.numerator() * t.denominator(),
            ;
            assert(y > 0) by (nonlinear_arith)
                requires
                    y == self.numerator() * t.denominator(),
                    self.numerator() > 0,
                    t.denominator() > 0,
            ;
            assert(x > y) by (nonlinear_arith)
                requires
                    c * x == d * y,
                    0 < c < d,
                    y > 0,
            ;
        }
        if self.steps + k <= i64::MAX {
            let t = self.moved(k as int);
            self.lemma_moved_inward(k);
            t.lemma_positive();
            let x = t.numerator() * self.denominator();
            let y = self.numerator() * t.denominator();
            assert(d * x == c * y) by (nonlinear_arith)
                requires
                    d * t.numerator() * self.denominator() == c * self.numerator()
                        * t.denominator(),
                    x == t.numerator() * self.denominator(),
                    y == self.numerator() * t.denominator(),
            ;
            assert(y > 0) by (nonlinear_arith)
                requires
                    y == self.numerator() * t.denominator(),
                    self.numerator() > 0,
                    t.denominator() > 0,
            ;
            assert(y > x) by (nonlinear_arith)
                requires
                    d * x == c * y,
                    0 < c < d,
                    y > 0,
            ;
        }
    }
}

} // verus!
