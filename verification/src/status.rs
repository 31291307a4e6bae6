//! The status line of a frame: the five parameters of the view in decimal
//! notation.

use vstd::prelude::*;
use crate::fixed::ONE;
use crate::view::ViewState;

verus! {

/// The character of the digit `d`.
pub open spec fn digit(d: int) -> char {
    if d == 0 {
        '0'
    } else if d == 1 {
        '1'
    } else if d == 2 {
        '2'
    } else if d == 3 {
        '3'
    } else if d == 4 {
        '4'
    } else if d == 5 {
        '5'
    } else if d == 6 {
        '6'
    } else if d == 7 {
        '7'
    } else if d == 8 {
        '8'
    } else {
        '9'
    }
}

/// The decimal digits of `n`, without zeros in front.
pub open spec fn digits(n: nat) -> Seq<char>
    decreases n,
{
    if n < 10 {
        seq![digit(n as int)]
    } else {
        digits(n / 10).push(digit((n % 10) as int))
    }
}

/// The decimal digits of the share `f / (10 * place)`, from the first behind
/// the point to the last that is not zero.
pub open spec fn fraction_digits(f: nat, place: nat) -> Seq<char>
    decreases place,
{
    if f == 0 || place == 0 {
        Seq::empty()
    } else {
        seq![digit((f / place) as int)] + fraction_digits(f % place, place / 10)
    }
}

/// The size of `v`.
pub open spec fn magnitude(v: int) -> nat {
    if v < 0 {
        (-v) as nat
    } else {
        v as nat
    }
}

/// The sign in front of `v`: a minus where `v` is negative, else nothing.
pub open spec fn sign(v: int) -> Seq<char> {
    if v < 0 {
        seq!['-']
    } else {
        Seq::empty()
    }
}

/// The whole number `v` in decimal notation.
pub open spec fn whole(v: int) -> Seq<char> {
    sign(v) + digits(magnitude(v))
}

/// What follows the whole part of a number of `m` units: nothing where `m`
/// is a whole number, else a point and the digits behind it.
pub open spec fn fraction_part(m: nat) -> Seq<char> {
    if m % (ONE as nat) == 0 {
        Seq::empty()
    } else {
        seq!['.'] + fraction_digits(m % (ONE as nat), (ONE / 10) as nat)
    }
}

/// The fixed-point number of `v` units in decimal notation: a minus where it
/// is negative, its whole part, and its fraction where it has one.
pub open spec fn decimal(v: int) -> Seq<char> {
    sign(v) + digits(magnitude(v) / (ONE as nat)) + fraction_part(magnitude(v))
}

/// The status line of `view`: the imaginary and the real part of the centre,
/// the scale, the bound on the steps and the density, with a space between
/// each two. Scale and density are given to the nearest unit, and a value
/// that has reached the cap of the rounded values is given as the cap.
pub open spec fn status_text(view: ViewState) -> Seq<char> {
    decimal(view.center_im as int) + seq![' '] + decimal(view.center_re as int) + seq![' ']
        + decimal(view.scale.units()) + seq![' '] + whole(view.max_iterations as int) + seq![' ']
        + decimal(view.density.units())
}

/// The character of the digit `d`.
fn digit_char(d: u128) -> (c: char)
    requires
        d < 10,
    ensures
        c == digit(d as int),
{
    match d {
        0 => '0',
        1 => '1',
        2 => '2',
        3 => '3',
        4 => '4',
        5 => '5',
        6 => '6',
        7 => '7',
        8 => '8',
        _ => '9',
    }
}

/// Appends the decimal digits of `n`.
fn push_digits(out: &mut Vec<char>, n: u128)
    ensures
        final(out)@ == old(out)@ + digits(n as nat),
    decreases n,
{
    if n >= 10 {
        push_digits(out, n / 10);
    }
    out.push(digit_char(n % 10));
    assert(out@ =~= old(out)@ + digits(n as nat));
}

/// Whether `p` is a power of ten.
pub open spec fn is_power_of_ten(p: nat) -> bool
    decreases p,
{
    p == 1 || (p >= 10 && p % 10 == 0 && is_power_of_ten(p / 10))
}

/// Appends the digits behind the point of `f / (10 * place)`.
fn push_fraction(out: &mut Vec<char>, f: u128, place: u128)
    requires
        is_power_of_ten(place as nat),
        f < 10 * place,
    ensures
        final(out)@ == old(out)@ + fraction_digits(f as nat, place as nat),
    decreases place,
{
    if f == 0 {
        assert(out@ =~= old(out)@ + fraction_digits(f as nat, place as nat));
    } else {
        assert(f / place < 10) by (nonlinear_arith)
            requires
                f < 10 * place,
                place > 0,
        ;
        out.push(digit_char(f / place));
        if place >= 10 {
            assert(f % place < place) by (nonlinear_arith)
                requires
                    place > 0,
            ;
            push_fraction(out, f % place, place / 10);
        } else {
            assert(f % place == 0);
            assert(fraction_digits((f % place) as nat, (place / 10) as nat) =~= Seq::<char>::empty());
        }
        assert(out@ =~= old(out)@ + fraction_digits(f as nat, place as nat));
    }
}

/// The size of `v`.
fn magnitude_of(v: i128) -> (m: u128)
    requires
        v > i128::MIN,
    ensures
        m == magnitude(v as int),
{
    if v < 0 {
        (-v) as u128
    } else {
        v as u128
    }
}

/// Appends the whole number `v` in decimal notation.
fn push_whole(out: &mut Vec<char>, v: i64)
    ensures
        final(out)@ == old(out)@ + whole(v as int),
{
    if v < 0 {
        out.push('-');
    }
    push_digits(out, magnitude_of(v as i128));
    assert(out@ =~= old(out)@ + whole(v as int));
}

/// Appends the fixed-point number of `v` units in decimal notation.
fn push_decimal(out: &mut Vec<char>, v: i128)
    requires
        v > i128::MIN,
    ensures
        final(out)@ == old(out)@ + decimal(v as int),
{
    if v < 0 {
        out.push('-');
    }
    let m: u128 = magnitude_of(v);
    let one: u128 = ONE as u128;
    push_digits(out, m / one);
    let f: u128 = m % one;
    if f != 0 {
        out.push('.');
        assert(is_power_of_ten(100_000_000_000)) by {
            reveal_with_fuel(is_power_of_ten, 12);
        }
        push_fraction(out, f, one / 10);
    }
    assert(out@ =~= old(out)@ + decimal(v as int));
}

/// The characters of the status line of `view`.
pub fn status_chars(view: &ViewState) -> (r: Vec<char>)
    ensures
        r@ == status_text(*view),
{
    let mut out: Vec<char> = Vec::new();
    push_decimal(&mut out, view.center_im as i128);
    out.push(' ');
    push_decimal(&mut out, view.center_re as i128);
    out.push(' ');
    push_decimal(&mut out, view.scale.to_units());
    out.push(' ');
    push_whole(&mut out, view.max_iterations);
    out.push(' ');
    push_decimal(&mut out, view.density.to_units());
    assert(out@ =~= status_text(*view));
    out
}

/// Makes a `String` of characters, by `String::from_iter` of the standard
/// library. That the string holds the characters it was given, in their
/// order, is taken from the documentation of `String` and not proved here.
#[verifier::external_body]
fn string_of(chars: Vec<char>) -> (s: String)
    ensures
        s@ == chars@,
{
    String::from_iter(chars)
}

/// The fixed-point number of `v` units in decimal notation.
pub fn decimal_string(v: i64) -> (r: String)
    ensures
        r@ == decimal(v as int),
{
    let mut out: Vec<char> = Vec::new();
    push_decimal(&mut out, v as i128);
    assert(out@ =~= decimal(v as int));
    string_of(out)
}

/// The status line of `view`.
pub fn status_line(view: &ViewState) -> (r: String)
    ensures
        r@ == status_text(*view),
{
    string_of(status_chars(view))
}

} // verus!
