//! The lattice of sample points and, for rendering on the host, their
//! colours.

use vstd::prelude::*;
use vstd::arithmetic::div_mod::{
    lemma_fundamental_div_mod_converse_div,
    lemma_fundamental_div_mod_converse_mod,
};
use crate::escape::{EscapeResult, TerminalPolicy, escape_result, evaluate};
use crate::fixed::{ONE, clamp, clamped, div_floor, div_nearest, nearest};
use crate::stepped::{Stepped, CAP, ONE_FINE};
use crate::view::ViewState;

verus! {

/// The number of samples along one axis: the multiples of `density`, from
/// zero on, that are less than twice the extent.
pub open spec fn axis_steps(extent: int, density: int) -> int {
    if extent <= 0 {
        0
    } else {
        (2 * extent + density - 1) / density
    }
}

/// The sample at place `k` of a lattice with `n` samples to the row: rows
/// run along the first coordinate, and follow each other along the second.
pub open spec fn lattice_point(extent: int, density: int, n: int, k: int) -> (i64, i64) {
    ((-extent + (k % n) * density) as i64, (-extent + (k / n) * density) as i64)
}

/// The samples of the square from `-extent` up to `extent` on both axes, at
/// a distance of `density` from each other, row by row.
pub open spec fn lattice(extent: int, density: int) -> Seq<(i64, i64)> {
    let n = axis_steps(extent, density);
    Seq::new((n * n) as nat, |k: int| lattice_point(extent, density, n, k))
}

/// The multiples of a positive `density` below twice the extent are those by
/// less than `axis_steps`.
pub proof fn lemma_axis_steps(extent: int, density: int, j: int)
    requires
        density > 0,
        extent > 0,
    ensures
        axis_steps(extent, density) > 0,
        j * density < 2 * extent <==> j < axis_steps(extent, density),
{
    let n = axis_steps(extent, density);
    let t = 2 * extent + density - 1;
    assert(n * density <= t < n * density + density && n > 0) by (nonlinear_arith)
        requires
            n == t / density,
            density > 0,
            t >= density,
    ;
    if j < n {
        assert(j * density <= (n - 1) * density) by (nonlinear_arith)
            requires
                j <= n - 1,
                density > 0,
        ;
        assert((n - 1) * density == n * density - density) by (nonlinear_arith);
    } else {
        assert(j * density >= n * density) by (nonlinear_arith)
            requires
                j >= n,
                density > 0,
        ;
    }
}

/// A lattice holds the square of `axis_steps` samples, and each of them lies
/// in the square that it covers: from `-extent` on, below `extent`, at a
/// whole number of steps of `density` along each axis.
pub proof fn lemma_lattice_in_square(extent: i64, density: int, k: int)
    requires
        density > 0,
        extent > 0,
        0 <= k < lattice(extent as int, density as int).len(),
    ensures
        lattice(extent as int, density as int).len() == axis_steps(extent as int, density as int)
            * axis_steps(extent as int, density as int),
        lattice(extent as int, density as int)[k].0 == -extent + (k % axis_steps(
            extent as int,
            density as int,
        )) * density,
        lattice(extent as int, density as int)[k].1 == -extent + (k / axis_steps(
            extent as int,
            density as int,
        )) * density,
        -extent <= lattice(extent as int, density as int)[k].0 < extent,
        -extent <= lattice(extent as int, density as int)[k].1 < extent,
{
    let e = extent as int;
    let d = density as int;
    let n = axis_steps(e, d);
    lemma_axis_steps(e, d, 0);
    assert(0 <= n * n) by (nonlinear_arith);
    let i = k / n;
    let j = k % n;
    assert(0 <= j < n && 0 <= i < n && k == i * n + j) by (nonlinear_arith)
        requires
            0 <= k < n * n,
            n > 0,
            i == k / n,
            j == k % n,
    ;
    lemma_axis_steps(e, d, i);
    lemma_axis_steps(e, d, j);
    assert(0 <= i * d && 0 <= j * d) by (nonlinear_arith)
        requires
            0 <= i,
            0 <= j,
            d > 0,
    ;
}

/// The samples of the square from `-extent` up to `extent` on both axes, at
/// a distance of `density` from each other, row by row. The density is
/// rounded to the nearest unit, and has to be half a unit at least.
pub fn generate(extent: i64, density: Stepped) -> (r: Vec<(i64, i64)>)
    requires
        density.units() > 0,
    ensures
        r@ == lattice(extent as int, density.units()),
{
    generate_at(extent, density.to_units())
}

/// The samples of the square from `-extent` up to `extent` on both axes, at
/// a distance of `density` units from each other, row by row.
pub fn generate_at(extent: i64, density: i128) -> (r: Vec<(i64, i64)>)
    requires
        density > 0,
    ensures
        r@ == lattice(extent as int, density as int),
{
    let mut points: Vec<(i64, i64)> = Vec::new();
    if extent <= 0 {
        proof {
            let zero = axis_steps(extent as int, density as int);
            assert(zero == 0);
            assert(zero * zero == 0);
            assert(points@ =~= lattice(extent as int, density as int));
        }
        return points;
    }
    let ghost n = axis_steps(extent as int, density as int);
    let ghost e = extent as int;
    let ghost d = density as int;
    if density >= 2 * (extent as i128) {
        points.push((-extent, -extent));
        proof {
            lemma_axis_steps(e, d, 1);
            assert(n == 1);
            assert(n * n == 1);
            let j = 0int % n;
            let i = 0int / n;
            assert(j == 0 && i == 0);
            assert(j * d == 0 && i * d == 0);
            assert(lattice_point(e, d, n, 0) == ((-extent) as i64, (-extent) as i64));
            assert(points@ =~= lattice(e, d));
        }
        return points;
    }
    let mut y: i128 = -(extent as i128);
    let ghost mut i: int = 0;
    proof {
        lemma_axis_steps(e, d, 0);
        lemma_axis_steps(e, d, n);
    }
    while y < extent as i128
        invariant
            extent > 0,
            density > 0,
            e == extent,
            d == density,
            n == axis_steps(e, d),
            n > 0,
            d < 2 * e,
            0 <= i <= n,
            y == -e + i * d,
            points@.len() == i * n,
            forall|k: int| 0 <= k < points@.len() ==> points@[k] == lattice_point(e, d, n, k),
        decreases n - i,
    {
        proof {
            lemma_axis_steps(e, d, i);
        }
        let mut x: i128 = -(extent as i128);
        let ghost mut j: int = 0;
        while x < extent as i128
            invariant
                extent > 0,
                density > 0,
                e == extent,
                d == density,
                n == axis_steps(e, d),
                n > 0,
                d < 2 * e,
                0 <= i < n,
                0 <= j <= n,
                y == -e + i * d,
                -e <= y < e,
                x == -e + j * d,
                points@.len() == i * n + j,
                forall|k: int| 0 <= k < points@.len() ==> points@[k] == lattice_point(e, d, n, k),
            decreases n - j,
        {
            proof {
                lemma_axis_steps(e, d, j);
                assert(0 <= j * d) by (nonlinear_arith)
                    requires
                        0 <= j,
                        d > 0,
                ;
                lemma_fundamental_div_mod_converse_div(i * n + j, n, i, j);
                lemma_fundamental_div_mod_converse_mod(i * n + j, n, i, j);
                assert((j + 1) * d == j * d + d) by (nonlinear_arith);
            }
            points.push((x as i64, y as i64));
            x = x + density;
            proof {
                j = j + 1;
            }
        }
        proof {
            lemma_axis_steps(e, d, j);
            assert(j == n);
            assert((i + 1) * d == i * d + d) by (nonlinear_arith);
            assert((i + 1) * n == i * n + n) by (nonlinear_arith);
            assert(0 <= i * d) by (nonlinear_arith)
                requires
                    0 <= i,
                    d > 0,
            ;
        }
        y = y + density;
        proof {
            i = i + 1;
        }
    }
    proof {
        lemma_axis_steps(e, d, i);
        assert(i == n);
        assert(points@ =~= lattice(e, d));
    }
    points
}

/// A colour: red, green, blue and opacity, each between zero and `ONE`.
#[derive(Clone, Copy, Debug, PartialEq, Eq, Structural)]
pub struct Rgba {
    pub red: i64,
    pub green: i64,
    pub blue: i64,
    pub alpha: i64,
}

/// A sample of the lattice with the colour of its point in the plane.
#[derive(Clone, Copy, Debug, PartialEq, Eq, Structural)]
pub struct Sample {
    /// The first coordinate in the square of the view.
    pub x: i64,
    /// The second coordinate in the square of the view.
    pub y: i64,
    pub color: Rgba,
}

/// The coordinate in the plane of a sample at `offset` from the middle of a
/// view with the given centre, and with a scale of `scale` fine units:
/// `center + offset * scale`, rounded to the nearest unit and held within
/// `i64`.
pub open spec fn plane_coordinate(center: int, offset: int, scale: int) -> int {
    clamped(center + nearest(offset * scale, ONE_FINE as int))
}

/// A scale at the cap of the rounded values stands for every greater one:
/// each sample off the middle of the view then lies beyond the coordinates
/// that an `i64` holds, on the side of its offset.
pub proof fn lemma_capped_scale_is_far(center: i64, offset: i64, scale: int)
    requires
        scale >= CAP,
    ensures
        plane_coordinate(center as int, offset as int, scale) == plane_coordinate(
            center as int,
            offset as int,
            CAP as int,
        ),
        offset > 0 ==> plane_coordinate(center as int, offset as int, scale) == i64::MAX,
        offset < 0 ==> plane_coordinate(center as int, offset as int, scale) == i64::MIN,
        offset == 0 ==> plane_coordinate(center as int, offset as int, scale) == center,
{
    let o = offset as int;
    let cap = CAP as int;
    if o > 0 {
        assert(o * scale >= 100_000_000_000_000_000_000_000_000_000_000_000_000 && o * cap
            >= 100_000_000_000_000_000_000_000_000_000_000_000_000) by (nonlinear_arith)
            requires
                o >= 1,
                scale >= 100_000_000_000_000_000_000_000_000_000_000_000_000,
                cap >= 100_000_000_000_000_000_000_000_000_000_000_000_000,
        ;
    } else if o < 0 {
        assert(o * scale <= -100_000_000_000_000_000_000_000_000_000_000_000_000 && o * cap
            <= -100_000_000_000_000_000_000_000_000_000_000_000_000) by (nonlinear_arith)
            requires
                o <= -1,
                scale >= 100_000_000_000_000_000_000_000_000_000_000_000_000,
                cap >= 100_000_000_000_000_000_000_000_000_000_000_000_000,
        ;
    } else {
        assert(o * scale == 0 && o * cap == 0) by (nonlinear_arith)
            requires
                o == 0,
        ;
    }
}

/// The colour of an evaluated point: opaque, with the fraction as its green.
pub open spec fn shade(result: EscapeResult) -> Rgba {
    Rgba { red: 0, green: result.fraction, blue: 0, alpha: ONE }
}

/// The sample at `(x, y)` as `view` colours it.
pub open spec fn colored(view: ViewState, policy: TerminalPolicy, x: i64, y: i64) -> Sample {
    Sample {
        x,
        y,
        color: shade(
            escape_result(
                plane_coordinate(view.center_re as int, x as int, view.scale.fine()),
                plane_coordinate(view.center_im as int, y as int, view.scale.fine()),
                view.max_iterations as int,
                policy,
            ),
        ),
    }
}

/// The coordinate in the plane of a sample at `offset` from the middle of a
/// view with the given centre, and with a scale of `scale` fine units.
pub fn to_plane(center: i64, offset: i64, scale: i128) -> (r: i64)
    requires
        -CAP <= scale <= CAP,
    ensures
        r == plane_coordinate(center as int, offset as int, scale as int),
{
    let q: i128 = div_floor(scale, ONE_FINE);
    let rem: i128 = scale - q * ONE_FINE;
    let ghost o = offset as int;
    let ghost p = o * q;
    let ghost b = o * rem;
    assert(-0x8000_0000_0000_0000 * 1_000_000_000_000_000_000 <= b <= 0x8000_0000_0000_0000
        * 1_000_000_000_000_000_000 && (o >= 0 ==> 0 <= b <= o * 1_000_000_000_000_000_000) && (o
        <= 0 ==> o * 1_000_000_000_000_000_000 <= b <= 0)) by (nonlinear_arith)
        requires
            b == o * rem,
            0 <= rem < 1_000_000_000_000_000_000,
            -0x8000_0000_0000_0000 <= o < 0x8000_0000_0000_0000,
    ;
    let rest: i128 = div_nearest(offset as i128 * rem, ONE_FINE);
    assert(o * scale == p * 1_000_000_000_000_000_000 + b) by (nonlinear_arith)
        requires
            p == o * q,
            b == o * rem,
            scale == q * 1_000_000_000_000_000_000 + rem,
    ;
    assert(nearest(o * scale, ONE_FINE as int) == p + rest);
    let limit: i128 = 0x8000_0000_0000_0000;
    if (-limit <= q && q <= limit) || (-1 <= offset && offset <= 1) {
        assert(-0x4000_0000_0000_0000_0000_0000_0000_0000 <= p
            <= 0x4000_0000_0000_0000_0000_0000_0000_0000) by (nonlinear_arith)
            requires
                p == o * q,
                -0x8000_0000_0000_0000 <= o < 0x8000_0000_0000_0000,
                (-0x8000_0000_0000_0000 <= q <= 0x8000_0000_0000_0000) || (-1 <= o <= 1 && -0x4000_0000_0000_0000_0000_0000_0000_0000
                    <= q <= 0x4000_0000_0000_0000_0000_0000_0000_0000),
        ;
        clamp(center as i128 + (offset as i128 * q + rest))
    } else if (offset > 0) == (q > 0) {
        assert(p + rest >= 0x1_0000_0000_0000_0000) by (nonlinear_arith)
            requires
                p == o * q,
                (o >= 2 && q > 0x8000_0000_0000_0000 && rest >= 0) || (o <= -2 && q
                    < -0x8000_0000_0000_0000 && rest >= o),
        ;
        i64::MAX
    } else {
        assert(p + rest <= -0x1_0000_0000_0000_0000) by (nonlinear_arith)
            requires
                p == o * q,
                (o >= 2 && q < -0x8000_0000_0000_0000 && rest <= o) || (o <= -2 && q
                    > 0x8000_0000_0000_0000 && rest <= 0),
        ;
        i64::MIN
    }
}

/// The colour of an evaluated point.
pub fn shade_of(result: EscapeResult) -> (r: Rgba)
    ensures
        r == shade(result),
{
    Rgba { red: 0, green: result.fraction, blue: 0, alpha: ONE }
}

/// The sample at `(x, y)` as `view` colours it.
pub fn color_sample(view: &ViewState, policy: TerminalPolicy, x: i64, y: i64) -> (r: Sample)
    ensures
        r == colored(*view, policy, x, y),
{
    color_at(view, view.scale.to_fine(), policy, x, y)
}

/// The sample at `(x, y)` as `view` colours it, given the scale of the view
/// in fine units.
fn color_at(view: &ViewState, scale: i128, policy: TerminalPolicy, x: i64, y: i64) -> (r: Sample)
    requires
        scale == view.scale.fine(),
        -CAP <= scale <= CAP,
    ensures
        r == colored(*view, policy, x, y),
{
    let a: i64 = to_plane(view.center_re, x, scale);
    let b: i64 = to_plane(view.center_im, y, scale);
    Sample { x, y, color: shade_of(evaluate(a, b, view.max_iterations, policy)) }
}

/// The samples of the square from `-extent` up to `extent`, at the density
/// of `view`, each with the colour of its point in the plane.
pub fn generate_colored(view: &ViewState, extent: i64, policy: TerminalPolicy) -> (r: Vec<Sample>)
    requires
        view.density.units() > 0,
    ensures
        r@ == lattice(extent as int, view.density.units()).map_values(
            |p: (i64, i64)| colored(*view, policy, p.0, p.1),
        ),
{
    let points: Vec<(i64, i64)> = generate(extent, view.density);
    let scale: i128 = view.scale.to_fine();
    let mut samples: Vec<Sample> = Vec::new();
    let mut k: usize = 0;
    while k < points.len()
        invariant
            0 <= k <= points.len(),
            scale == view.scale.fine(),
            -CAP <= scale <= CAP,
            samples@.len() == k,
            forall|m: int|
                0 <= m < k ==> samples@[m] == colored(*view, policy, points@[m].0, points@[m].1),
        decreases points.len() - k,
    {
        let p: (i64, i64) = points[k];
        samples.push(color_at(view, scale, policy, p.0, p.1));
        k = k + 1;
    }
    assert(samples@ =~= points@.map_values(|p: (i64, i64)| colored(*view, policy, p.0, p.1)));
    samples
}

} // verus!
