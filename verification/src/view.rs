//! The view onto the complex plane and the keys that change it.
//!
//! Scale and density are held exactly (see `stepped`); the centre and the
//! bound on the steps are whole numbers of units and of steps. A key is
//! accepted unless a count or the centre would leave the range of `i64`.

use vstd::prelude::*;
use vstd::arithmetic::power::pow;
use crate::fixed::{ONE, div_floor, nearest};
use crate::stepped::{
    Stepped,
    CAP,
    FINE,
    UNIT_CAP,
    step,
    step_times,
    lemma_outward_is_capped,
};

verus! {

/// A logical key of the explorer.
#[derive(Clone, Copy, Debug, PartialEq, Eq, Structural)]
pub enum Key {
    Up,
    Down,
    Left,
    Right,
    Enter,
    Backspace,
    Z,
    X,
    C,
    V,
    Escape,
    Q,
    /// Any key that the explorer does not know.
    Other,
}

impl Key {
    /// Whether the key asks the explorer to end.
    pub open spec fn quits(self) -> bool {
        self == Key::Escape || self == Key::Q
    }

    /// Whether the key asks the explorer to end.
    pub fn is_quit(self) -> (r: bool)
        ensures
            r == self.quits(),
    {
        match self {
            Key::Escape => true,
            Key::Q => true,
            _ => false,
        }
    }
}

/// The density at or below which `Key::C` no longer refines the grid: 0.002,
/// in fine units.
pub const DENSITY_FLOOR: i128 = 2_000_000_000_000_000;

/// Nine tenths of the floor, below which no key brings a density from above:
/// 0.0018, in fine units.
pub const DENSITY_GUARD: i128 = 1_800_000_000_000_000;

/// The five parameters of the view.
#[derive(Clone, Copy, Debug, PartialEq, Eq, Structural)]
pub struct ViewState {
    /// The real part of the point at the middle of the view.
    pub center_re: i64,
    /// The imaginary part of the point at the middle of the view.
    pub center_im: i64,
    /// The distance in the plane from the middle of the view to its edge.
    pub scale: Stepped,
    /// The bound on the steps of an evaluation, in whole steps.
    pub max_iterations: i64,
    /// The distance between neighbouring samples in the square of the view,
    /// which reaches from -1 to 1.
    pub density: Stepped,
}

/// The distance by which one key press moves the middle: a twentieth of the
/// scale, rounded to the nearest unit.
pub open spec fn pan_step(scale: Stepped) -> int {
    nearest(scale.fine(), 20 * FINE)
}

/// Whether `v` is in the range of `i64`.
pub open spec fn fits(v: int) -> bool {
    i64::MIN <= v <= i64::MAX
}

impl ViewState {
    /// Whether scale and density are positive.
    pub open spec fn wf(self) -> bool {
        self.scale.start > 0 && self.density.start > 0
    }

    /// Whether the density is above the floor, so that `Key::C` refines it.
    pub open spec fn refines(self) -> bool {
        self.density.fine() > DENSITY_FLOOR
    }

    /// Whether the view can take a press of `key`: the centre that it gives
    /// and the count that it changes are in the range of `i64`.
    pub open spec fn accepts(self, key: Key) -> bool {
        match key {
            Key::Up => fits(self.center_im + pan_step(self.scale)),
            Key::Down => fits(self.center_im - pan_step(self.scale)),
            Key::Left => fits(self.center_re - pan_step(self.scale)),
            Key::Right => fits(self.center_re + pan_step(self.scale)),
            Key::Enter => self.scale.steps < i64::MAX,
            Key::Backspace => self.scale.steps > i64::MIN,
            Key::Z => self.max_iterations < i64::MAX,
            Key::X => self.max_iterations > i64::MIN,
            Key::C => self.refines() ==> self.density.steps < i64::MAX,
            Key::V => self.density.steps > i64::MIN,
            Key::Escape => true,
            Key::Q => true,
            Key::Other => true,
        }
    }

    /// The view after one press of `key`.
    pub open spec fn after(self, key: Key) -> ViewState {
        match key {
            Key::Up => ViewState {
                center_im: (self.center_im + pan_step(self.scale)) as i64,
                ..self
            },
            Key::Down => ViewState {
                center_im: (self.center_im - pan_step(self.scale)) as i64,
                ..self
            },
            Key::Left => ViewState {
                center_re: (self.center_re - pan_step(self.scale)) as i64,
                ..self
            },
            Key::Right => ViewState {
                center_re: (self.center_re + pan_step(self.scale)) as i64,
                ..self
            },
            Key::Enter => ViewState { scale: self.scale.moved(1), ..self },
            Key::Backspace => ViewState { scale: self.scale.moved(-1), ..self },
            Key::Z => ViewState { max_iterations: (self.max_iterations + 1) as i64, ..self },
            Key::X => ViewState { max_iterations: (self.max_iterations - 1) as i64, ..self },
            Key::C => if self.refines() {
                ViewState { density: self.density.moved(1), ..self }
            } else {
                self
            },
            Key::V => ViewState { density: self.density.moved(-1), ..self },
            Key::Escape => self,
            Key::Q => self,
            Key::Other => self,
        }
    }

    /// The view after the presses of `keys`, in their order.
    pub open spec fn after_all(self, keys: Seq<Key>) -> ViewState
        decreases keys.len(),
    {
        if keys.len() == 0 {
            self
        } else {
            self.after_all(keys.drop_last()).after(keys.last())
        }
    }

    /// Whether the view can take the presses of `keys`, in their order.
    pub open spec fn accepts_all(self, keys: Seq<Key>) -> bool
        decreases keys.len(),
    {
        keys.len() == 0 || (self.accepts_all(keys.drop_last()) && self.after_all(
            keys.drop_last(),
        ).accepts(keys.last()))
    }

    /// The view at the start of an interactive session: the middle at the
    /// origin, scale 3, a bound of 100 steps, density 0.01.
    pub fn new() -> (r: ViewState)
        ensures
            r.center_re == 0,
            r.center_im == 0,
            r.scale.start == 3 * ONE,
            r.scale.steps == 0,
            r.max_iterations == 100,
            r.density.start == 10_000_000_000,
            r.density.steps == 0,
    {
        ViewState {
            center_re: 0,
            center_im: 0,
            scale: Stepped::new(3 * ONE),
            max_iterations: 100,
            density: Stepped::new(10_000_000_000),
        }
    }

    /// The view at the start of a self-running zoom: the middle at -1.78,
    /// scale 3, a bound of 500 steps, density 0.005.
    pub fn deep_zoom() -> (r: ViewState)
        ensures
            r.center_re == -1_780_000_000_000,
            r.center_im == 0,
            r.scale.start == 3 * ONE,
            r.scale.steps == 0,
            r.max_iterations == 500,
            r.density.start == 5_000_000_000,
            r.density.steps == 0,
    {
        ViewState {
            center_re: -1_780_000_000_000,
            center_im: 0,
            scale: Stepped::new(3 * ONE),
            max_iterations: 500,
            density: Stepped::new(5_000_000_000),
        }
    }

    /// Whether scale and density are positive.
    pub fn is_valid(&self) -> (r: bool)
        ensures
            r == self.wf(),
    {
        self.scale.start > 0 && self.density.start > 0
    }

    /// The distance by which one key press moves the middle.
    pub fn pan(&self) -> (r: i128)
        ensures
            r == pan_step(self.scale),
            -UNIT_CAP <= r <= UNIT_CAP,
    {
        div_floor(self.scale.to_fine() + 10 * FINE, 20 * FINE)
    }

    /// Whether the view can take a press of `key`.
    pub fn can_apply(&self, key: Key) -> (r: bool)
        ensures
            r == self.accepts(key),
    {
        match key {
            Key::Up => in_range(self.center_im as i128 + self.pan()),
            Key::Down => in_range(self.center_im as i128 - self.pan()),
            Key::Left => in_range(self.center_re as i128 - self.pan()),
            Key::Right => in_range(self.center_re as i128 + self.pan()),
            Key::Enter => self.scale.can_shrink(),
            Key::Backspace => self.scale.can_grow(),
            Key::Z => self.max_iterations < i64::MAX,
            Key::X => self.max_iterations > i64::MIN,
            Key::C => !(self.density.to_fine() > DENSITY_FLOOR) || self.density.can_shrink(),
            Key::V => self.density.can_grow(),
            _ => true,
        }
    }

    /// Changes the view as one press of `key` asks.
    pub fn apply(&mut self, key: Key)
        requires
            old(self).accepts(key),
        ensures
            *final(self) == old(self).after(key),
            old(self).wf() ==> final(self).wf(),
    {
        match key {
            Key::Up => {
                self.center_im = (self.center_im as i128 + self.pan()) as i64;
            },
            Key::Down => {
                self.center_im = (self.center_im as i128 - self.pan()) as i64;
            },
            Key::Left => {
                self.center_re = (self.center_re as i128 - self.pan()) as i64;
            },
            Key::Right => {
                self.center_re = (self.center_re as i128 + self.pan()) as i64;
            },
            Key::Enter => {
                self.scale.shrink();
            },
            Key::Backspace => {
                self.scale.grow();
            },
            Key::Z => {
                self.max_iterations = self.max_iterations + 1;
            },
            Key::X => {
                self.max_iterations = self.max_iterations - 1;
            },
            Key::C => {
                if self.density.to_fine() > DENSITY_FLOOR {
                    self.density.shrink();
                }
            },
            Key::V => {
                self.density.grow();
            },
            _ => {},
        }
    }

    /// Changes the view as one press of `key` asks, where the view can take
    /// it, and says whether it could; a view that cannot is left as it is.
    pub fn try_apply(&mut self, key: Key) -> (r: bool)
        ensures
            r == old(self).accepts(key),
            r ==> *final(self) == old(self).after(key),
            !r ==> *final(self) == *old(self),
    {
        if self.can_apply(key) {
            self.apply(key);
            true
        } else {
            false
        }
    }

    /// Changes the view as the presses of `keys` ask, in their order.
    pub fn apply_all(&mut self, keys: &Vec<Key>)
        requires
            old(self).accepts_all(keys@),
        ensures
            *final(self) == old(self).after_all(keys@),
            old(self).wf() ==> final(self).wf(),
    {
        let mut i: usize = 0;
        while i < keys.len()
            invariant
                0 <= i <= keys.len(),
                old(self).accepts_all(keys@),
                *self == old(self).after_all(keys@.take(i as int)),
                old(self).wf() ==> self.wf(),
            decreases keys.len() - i,
        {
            let key: Key = keys[i];
            proof {
                assert(keys@.take(i + 1).drop_last() =~= keys@.take(i as int));
                assert(keys@.take(i + 1).last() == key);
                lemma_accepts_prefix(*old(self), keys@, i + 1);
            }
            self.apply(key);
            i = i + 1;
        }
        assert(keys@.take(i as int) =~= keys@);
    }

    /// Whether the view can take the presses of `keys`, in their order.
    pub fn can_apply_all(&self, keys: &Vec<Key>) -> (r: bool)
        ensures
            r == self.accepts_all(keys@),
    {
        let mut view: ViewState = *self;
        let mut i: usize = 0;
        while i < keys.len()
            invariant
                0 <= i <= keys.len(),
                self.accepts_all(keys@.take(i as int)),
                view == self.after_all(keys@.take(i as int)),
            decreases keys.len() - i,
        {
            let key: Key = keys[i];
            proof {
                assert(keys@.take(i + 1).drop_last() =~= keys@.take(i as int));
                assert(keys@.take(i + 1).last() == key);
            }
            if !view.can_apply(key) {
                proof {
                    if self.accepts_all(keys@) {
                        lemma_accepts_prefix(*self, keys@, i + 1);
                    }
                }
                return false;
            }
            view.apply(key);
            i = i + 1;
        }
        assert(keys@.take(i as int) =~= keys@);
        true
    }
}

/// Whether `v` is in the range of `i64`.
fn in_range(v: i128) -> (r: bool)
    ensures
        r == fits(v as int),
{
    i64::MIN as i128 <= v && v <= i64::MAX as i128
}

/// A view that can take some keys can take those in front of any of them.
pub proof fn lemma_accepts_prefix(view: ViewState, keys: Seq<Key>, n: int)
    requires
        0 <= n <= keys.len(),
        view.accepts_all(keys),
    ensures
        view.accepts_all(keys.take(n)),
    decreases keys.len(),
{
    if n < keys.len() {
        assert(keys.drop_last().take(n) =~= keys.take(n));
        lemma_accepts_prefix(view, keys.drop_last(), n);
    } else {
        assert(keys.take(n) =~= keys);
    }
}

/// `k` presses of `key`.
pub open spec fn presses(key: Key, k: nat) -> Seq<Key> {
    Seq::new(k, |i: int| key)
}

/// The presses of a key, less the last, are one press fewer.
pub proof fn lemma_presses_unfold(key: Key, k: nat)
    requires
        k > 0,
    ensures
        presses(key, k).drop_last() == presses(key, (k - 1) as nat),
        presses(key, k).last() == key,
        presses(key, k).len() == k,
{
    assert(presses(key, k).drop_last() =~= presses(key, (k - 1) as nat));
}

impl ViewState {
    /// `k` presses of `Key::Enter` change the scale alone, and multiply it by
    /// `0.9^k` exactly, whatever the scale and whatever `k`, as long as the
    /// presses can be counted.
    pub proof fn lemma_enter_presses(self, k: nat)
        requires
            self.scale.steps + k <= i64::MAX,
        ensures
            self.accepts_all(presses(Key::Enter, k)),
            self.after_all(presses(Key::Enter, k)) == (ViewState {
                scale: self.scale.moved(k as int),
                ..self
            }),
            self.scale.moved(k as int).is_multiple_of(self.scale, pow(9, k), pow(10, k)),
        decreases k,
    {
        self.scale.lemma_moved_inward(k);
        if k > 0 {
            lemma_presses_unfold(Key::Enter, k);
            self.lemma_enter_presses((k - 1) as nat);
        }
    }

    /// `k` presses of `Key::Backspace` change the scale alone, and divide it
    /// by `0.9^k` exactly: each makes a positive scale greater, and nothing
    /// holds it back.
    pub proof fn lemma_backspace_presses(self, k: nat)
        requires
            self.scale.steps - k >= i64::MIN,
        ensures
            self.accepts_all(presses(Key::Backspace, k)),
            self.after_all(presses(Key::Backspace, k)) == (ViewState {
                scale: self.scale.moved(-(k as int)),
                ..self
            }),
            self.scale.moved(-(k as int)).is_multiple_of(self.scale, pow(10, k), pow(9, k)),
            self.scale.start > 0 && k > 0 ==> self.scale.moved(-(k as int)).exceeds(self.scale),
        decreases k,
    {
        self.scale.lemma_moved_outward(k);
        if k > 0 {
            if self.scale.start > 0 {
                self.scale.lemma_steps_order(k);
            }
            lemma_presses_unfold(Key::Backspace, k);
            self.lemma_backspace_presses((k - 1) as nat);
        }
    }

    /// `k` presses of `Key::V` change the density alone, and divide it by
    /// `0.9^k` exactly: each makes a positive density greater, and nothing
    /// holds it back.
    pub proof fn lemma_v_presses(self, k: nat)
        requires
            self.density.steps - k >= i64::MIN,
        ensures
            self.accepts_all(presses(Key::V, k)),
            self.after_all(presses(Key::V, k)) == (ViewState {
                density: self.density.moved(-(k as int)),
                ..self
            }),
            self.density.moved(-(k as int)).is_multiple_of(self.density, pow(10, k), pow(9, k)),
            self.density.start > 0 && k > 0 ==> self.density.moved(-(k as int)).exceeds(
                self.density,
            ),
        decreases k,
    {
        self.density.lemma_moved_outward(k);
        if k > 0 {
            if self.density.start > 0 {
                self.density.lemma_steps_order(k);
            }
            lemma_presses_unfold(Key::V, k);
            self.lemma_v_presses((k - 1) as nat);
        }
    }

    /// `Key::Enter` and then `Key::Backspace`, or the two the other way
    /// round, give the view back as it was.
    pub proof fn lemma_enter_and_backspace_cancel(self)
        ensures
            self.accepts(Key::Enter) ==> self.after(Key::Enter).accepts(Key::Backspace)
                && self.after(Key::Enter).after(Key::Backspace) == self,
            self.accepts(Key::Backspace) ==> self.after(Key::Backspace).accepts(Key::Enter)
                && self.after(Key::Backspace).after(Key::Enter) == self,
    {
    }

    /// At or below the floor of 0.002, `Key::C` leaves the view as it is.
    pub proof fn lemma_c_stops_at_floor(self)
        requires
            self.density.fine() <= DENSITY_FLOOR,
        ensures
            self.after(Key::C) == self,
    {
    }

    /// One press of `Key::C` from a density of more than ten ninths of the
    /// floor, by a fine unit, leaves the density above the floor.
    pub proof fn lemma_c_keeps_above_floor(self)
        requires
            self.accepts(Key::C),
            9 * self.density.fine() >= 10 * DENSITY_FLOOR + 10,
        ensures
            self.after(Key::C).density == self.density.moved(1),
            self.after(Key::C).density.fine() > DENSITY_FLOOR,
    {
        let d = self.density;
        if d.steps < 0 {
            let k = (-d.steps) as nat;
            let before = step_times(d.start * FINE, false, (k - 1) as nat);
            assert(d.fine() == step(before, false));
            assert(d.moved(1).fine() == before);
        } else {
            assert(d.moved(1).fine() == step(d.fine(), true));
        }
    }

    /// No key brings the density from above 0.0018 to or below it.
    pub proof fn lemma_density_guard(self, key: Key)
        requires
            self.accepts(key),
            self.density.fine() > DENSITY_GUARD,
        ensures
            self.after(key).density.fine() > DENSITY_GUARD,
    {
        let d = self.density;
        let v = d.start * FINE;
        assert(-CAP <= v <= CAP) by (nonlinear_arith)
            requires
                v == d.start * 1_000_000,
                -0x8000_0000_0000_0000 <= d.start <= 0x7fff_ffff_ffff_ffff,
                CAP == 100_000_000_000_000_000_000_000_000_000_000_000_000,
        ;
        if key == Key::C && self.refines() {
            if d.steps < 0 {
                let k = (-d.steps) as nat;
                let before = step_times(v, false, (k - 1) as nat);
                assert(d.fine() == step(before, false));
                assert(d.moved(1).fine() == before);
            } else {
                assert(d.moved(1).fine() == step(d.fine(), true));
            }
        } else if key == Key::V {
            if d.steps <= 0 {
                let k = (-d.steps) as nat;
                lemma_outward_is_capped(v, k);
                assert(d.moved(-1).fine() == step(d.fine(), false));
            } else {
                let before = step_times(v, true, (d.steps - 1) as nat);
                assert(d.fine() == step(before, true));
                assert(d.moved(-1).fine() == before);
            }
        }
    }

    /// Whatever keys are pressed, a valid view stays valid, and a density
    /// above 0.0018 stays above it.
    pub proof fn lemma_keys_keep_invariants(self, keys: Seq<Key>)
        requires
            self.accepts_all(keys),
        ensures
            self.wf() ==> self.after_all(keys).wf(),
            self.density.fine() > DENSITY_GUARD ==> self.after_all(keys).density.fine()
                > DENSITY_GUARD,
        decreases keys.len(),
    {
        if keys.len() > 0 {
            self.lemma_keys_keep_invariants(keys.drop_last());
            if self.density.fine() > DENSITY_GUARD {
                self.after_all(keys.drop_last()).lemma_density_guard(keys.last());
            }
        }
    }
}

} // verus!
