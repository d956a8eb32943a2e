//! Sizing rules for resizable plugin editors.

use vstd::arithmetic::div_mod::*;
use vstd::arithmetic::mul::*;
use vstd::prelude::*;

verus! {

/// Greatest common divisor by Euclid's algorithm, with `gcd(a, 0) == a`.
pub open spec fn spec_gcd(a: nat, b: nat) -> nat
    decreases b,
{
    if b == 0 {
        a
    } else {
        spec_gcd(b, a % b)
    }
}

/// `gcd(a, b)` is zero only when both arguments are.
pub proof fn lemma_gcd_positive(a: nat, b: nat)
    requires
        a > 0 || b > 0,
    ensures
        spec_gcd(a, b) > 0,
    decreases b,
{
    if b > 0 {
        lemma_gcd_positive(b, a % b);
    }
}

/// `gcd(a, b)` divides both `a` and `b`.
pub proof fn lemma_gcd_divides(a: nat, b: nat)
    requires
        a > 0 || b > 0,
    ensures
        spec_gcd(a, b) > 0,
        a % spec_gcd(a, b) == 0,
        b % spec_gcd(a, b) == 0,
    decreases b,
{
    lemma_gcd_positive(a, b);
    let g = spec_gcd(a, b);
    if b == 0 {
        lemma_mod_self_0(a as int);
        lemma_small_mod(0, g);
    } else {
        let q = a / b;
        let r = a % b;
        lemma_gcd_divides(b, r);
        lemma_fundamental_div_mod(a as int, b as int);
        lemma_fundamental_div_mod(b as int, g as int);
        lemma_fundamental_div_mod(r as int, g as int);
        let k1 = b / g;
        let k2 = r / g;
        assert(a == g * (k1 * q + k2)) by (nonlinear_arith)
            requires
                a == b * q + r,
                b == g * k1,
                r == g * k2,
        ;
        lemma_mod_multiples_basic((k1 * q + k2) as int, g as int);
        lemma_mul_is_commutative(g as int, (k1 * q + k2) as int);
    }
}

/// Every common divisor of `a` and `b` divides `gcd(a, b)`.
pub proof fn lemma_common_divisor_divides_gcd(a: nat, b: nat, d: nat)
    requires
        d > 0,
        a % d == 0,
        b % d == 0,
    ensures
        spec_gcd(a, b) % d == 0,
    decreases b,
{
    if b > 0 {
        let q = a / b;
        let r = a % b;
        lemma_fundamental_div_mod(a as int, b as int);
        lemma_fundamental_div_mod(a as int, d as int);
        lemma_fundamental_div_mod(b as int, d as int);
        let ka = a / d;
        let kb = b / d;
        assert(r == d * (ka - kb * q)) by (nonlinear_arith)
            requires
                a == b * q + r,
                a == d * ka,
                b == d * kb,
        ;
        assert(ka - kb * q >= 0) by (nonlinear_arith)
            requires
                r == d * (ka - kb * q),
                d > 0,
                r >= 0,
        ;
        lemma_mod_multiples_basic(ka - kb * q, d as int);
        lemma_mul_is_commutative(d as int, ka - kb * q);
        lemma_common_divisor_divides_gcd(b, r, d);
    }
}

/// Scaling both arguments scales their greatest common divisor.
pub proof fn lemma_gcd_scale(s: nat, a: nat, b: nat)
    requires
        s > 0,
    ensures
        spec_gcd(s * a, s * b) == s * spec_gcd(a, b),
    decreases b,
{
    if b == 0 {
        assert(s * b == 0) by (nonlinear_arith)
            requires
                b == 0,
        ;
    } else {
        assert(s * b > 0) by (nonlinear_arith)
            requires
                s > 0,
                b > 0,
        ;
        lemma_mod_breakdown((s * a) as int, s as int, b as int);
        lemma_div_multiples_vanish(a as int, s as int);
        lemma_mod_multiples_basic(a as int, s as int);
        lemma_mul_is_commutative(a as int, s as int);
        assert((s * a) % (s * b) == s * (a % b));
        lemma_gcd_scale(s, b, a % b);
    }
}

/// A positive number's divisor is no larger than it.
proof fn lemma_divisor_at_most(n: nat, d: nat)
    requires
        n > 0,
        d > 0,
        n % d == 0,
    ensures
        d <= n,
{
    lemma_fundamental_div_mod(n as int, d as int);
    let k = n / d;
    assert(d <= n) by (nonlinear_arith)
        requires
            n == d * k,
            n > 0,
            d > 0,
    ;
}

/// The order of the arguments of the greatest common divisor does not matter.
pub proof fn law_gcd_symmetric(a: nat, b: nat)
    ensures
        spec_gcd(a, b) == spec_gcd(b, a),
{
    if a == 0 && b == 0 {
    } else {
        lemma_gcd_divides(a, b);
        lemma_gcd_divides(b, a);
        let g1 = spec_gcd(a, b);
        let g2 = spec_gcd(b, a);
        lemma_common_divisor_divides_gcd(b, a, g1);
        lemma_common_divisor_divides_gcd(a, b, g2);
        lemma_divisor_at_most(g2, g1);
        lemma_divisor_at_most(g1, g2);
    }
}

/// Dividing two positive numbers by their greatest common divisor leaves
/// numbers whose greatest common divisor is one.
pub proof fn lemma_reduced_coprime(a: nat, b: nat)
    requires
        a > 0,
        b > 0,
    ensures
        spec_gcd(a, b) > 0,
        a == spec_gcd(a, b) * (a / spec_gcd(a, b)),
        b == spec_gcd(a, b) * (b / spec_gcd(a, b)),
        spec_gcd(a / spec_gcd(a, b), b / spec_gcd(a, b)) == 1,
{
    lemma_gcd_divides(a, b);
    let g = spec_gcd(a, b);
    lemma_fundamental_div_mod(a as int, g as int);
    lemma_fundamental_div_mod(b as int, g as int);
    lemma_gcd_scale(g, a / g, b / g);
    let x = spec_gcd(a / g, b / g);
    assert(x == 1) by (nonlinear_arith)
        requires
            g > 0,
            g == g * x,
    ;
}

/// Euclid's algorithm on `u32`, never returning less than one.
pub fn gcd(a: u32, b: u32) -> (g: u32)
    ensures
        g as nat == if spec_gcd(a as nat, b as nat) == 0 { 1 } else { spec_gcd(a as nat, b as nat) },
{
    let mut a: u32 = a;
    let mut b: u32 = b;
    let ghost target = spec_gcd(a as nat, b as nat);
    while b != 0
        invariant
            spec_gcd(a as nat, b as nat) == target,
        decreases b,
    {
        let r: u32 = a % b;
        a = b;
        b = r;
    }
    if a == 0 { 1 } else { a }
}


/// The product of two `u32`s, which always fits in a `u64`.
fn mul_wide(a: u32, b: u32) -> (p: u64)
    ensures
        p as nat == a as nat * b as nat,
{
    proof {
        lemma_mul_upper_bound(a as int, u32::MAX as int, b as int, u32::MAX as int);
    }
    (a as u64) * (b as u64)
}

/// `a / b` rounded up.
fn div_ceil(a: u32, b: u32) -> (q: u32)
    requires
        b > 0,
    ensures
        q as nat == ceil_div(a as nat, b as nat),
{
    let q: u32 = a / b;
    if a % b == 0 {
        q
    } else {
        proof {
            lemma_div_is_ordered_by_denominator(a as int, 2, b as int);
        }
        q + 1
    }
}

/// `side` scaled by the fraction `scale.0 / scale.1`, rounded to the nearest
/// pixel (halves up), made a valid side for a request of `requested` pixels.
fn scaled_side(side: u32, scale: (u32, u32), requested: u32) -> (r: u32)
    requires
        scale.1 > 0,
    ensures
        r as nat == clamp_side(
            round_ratio(side as nat * scale.0 as nat, scale.1 as nat),
            requested as nat,
        ),
{
    let x: u128 = mul_wide(side, scale.0) as u128;
    let den: u128 = scale.1 as u128;
    let q: u128 = (2 * x + den) / (2 * den);
    if q == 0 && requested > 0 {
        1
    } else if q > u32::MAX as u128 {
        u32::MAX
    } else {
        q as u32
    }
}

/// A side length in which zero counts as one.
pub open spec fn at_least_one(x: u32) -> nat {
    if x == 0 {
        1
    } else {
        x as nat
    }
}

/// The smaller of two naturals.
pub open spec fn min_nat(a: nat, b: nat) -> nat {
    if a <= b {
        a
    } else {
        b
    }
}

/// The larger of two naturals.
pub open spec fn max_nat(a: nat, b: nat) -> nat {
    if a >= b {
        a
    } else {
        b
    }
}

/// `a / b` rounded up.
pub open spec fn ceil_div(a: nat, b: nat) -> nat {
    if a % b == 0 {
        a / b
    } else {
        a / b + 1
    }
}

/// `x / d` rounded to the nearest natural, halves rounding up.
pub open spec fn round_ratio(x: nat, d: nat) -> nat {
    (2 * x + d) / (2 * d)
}

/// A computed side length made a valid window side for a request of
/// `requested` pixels: raised to one where the request leaves room for a
/// pixel, and at most `u32::MAX`.
pub open spec fn clamp_side(v: nat, requested: nat) -> nat {
    if v == 0 && requested > 0 {
        1
    } else if v > u32::MAX {
        u32::MAX as nat
    } else {
        v
    }
}

/// The smallest integer aspect ratio of `size`, zero sides counting as one:
/// both sides divided by their greatest common divisor.
pub open spec fn spec_aspect_ratio(size: (u32, u32)) -> (nat, nat) {
    let w = at_least_one(size.0);
    let h = at_least_one(size.1);
    let g = spec_gcd(w, h);
    (w / g, h / g)
}

/// Constraints a host must respect when resizing an editor, returned from the
/// editor's resize hints. All sizes are in logical pixels.
#[derive(Debug, Clone, Copy, PartialEq, Eq, Structural)]
pub struct ResizeHints {
    pub min_width: u32,
    pub min_height: u32,
    /// Whether the editor must keep the aspect ratio it currently has.
    pub preserve_aspect_ratio: bool,
}

impl ResizeHints {
    /// Whether a request of `w` by `h` is snapped to whole multiples of `ratio`:
    /// only when the ratio fits at least eight times into both sides.
    pub open spec fn uses_grid(ratio: (nat, nat), w: nat, h: nat) -> bool {
        ratio.0 <= w / 8 && ratio.1 <= h / 8
    }

    /// The number of whole ratio steps a grid-snapped size gets, from the
    /// number `fit` that fits inside the request: never fewer than needed for
    /// the minimum, and at least one.
    pub open spec fn steps_from(self, ratio: (nat, nat), fit: nat) -> nat {
        max_nat(
            max_nat(
                max_nat(fit, ceil_div(self.min_width as nat, ratio.0)),
                ceil_div(self.min_height as nat, ratio.1),
            ),
            1,
        )
    }

    /// The number of whole ratio steps that fit inside `w` by `h`.
    pub open spec fn fitting_steps(ratio: (nat, nat), w: nat, h: nat) -> nat {
        min_nat(w / ratio.0, h / ratio.1)
    }

    /// The scale factor of a direct rescale, as a fraction `(numerator,
    /// denominator)`, from the fraction `fit` that fits inside the request:
    /// raised to `min_width / cw` and then to `min_height / ch` where those are
    /// larger.
    pub open spec fn scale_from(self, fit: (nat, nat), cw: nat, ch: nat) -> (nat, nat) {
        let mw = self.min_width as nat;
        let mh = self.min_height as nat;
        let s1 = if mw * fit.1 > fit.0 * cw {
            (mw, cw)
        } else {
            fit
        };
        if mh * s1.1 > s1.0 * ch {
            (mh, ch)
        } else {
            s1
        }
    }

    /// The largest scale factor at which `cw` by `ch` fits inside `w` by `h`:
    /// the smaller of `w / cw` and `h / ch`, as a fraction.
    pub open spec fn fitting_scale(cw: nat, ch: nat, w: nat, h: nat) -> (nat, nat) {
        if w * ch <= h * cw {
            (w, cw)
        } else {
            (h, ch)
        }
    }

    /// `cw` by `ch` scaled by the fraction `scale`, each side rounded to the
    /// nearest pixel and made a valid side for a request of `w` by `h`.
    pub open spec fn scaled(scale: (nat, nat), cw: nat, ch: nat, w: nat, h: nat) -> (nat, nat) {
        (
            clamp_side(round_ratio(cw * scale.0, scale.1), w),
            clamp_side(round_ratio(ch * scale.0, scale.1), h),
        )
    }

    /// The size the editor makes of a request, given how much of the request
    /// counts (`fit` steps on the grid, or the fraction `fit_scale` when
    /// rescaling directly). Free resizing clamps each side to the minimum.
    pub open spec fn size_from(
        self,
        current: (u32, u32),
        requested: (u32, u32),
        fit: nat,
        fit_scale: (nat, nat),
    ) -> (nat, nat) {
        let w = requested.0 as nat;
        let h = requested.1 as nat;
        if !self.preserve_aspect_ratio {
            (max_nat(w, self.min_width as nat), max_nat(h, self.min_height as nat))
        } else {
            let ratio = spec_aspect_ratio(current);
            if Self::uses_grid(ratio, w, h) {
                let steps = self.steps_from(ratio, fit);
                (steps * ratio.0, steps * ratio.1)
            } else {
                let cw = at_least_one(current.0);
                let ch = at_least_one(current.1);
                Self::scaled(self.scale_from(fit_scale, cw, ch), cw, ch, w, h)
            }
        }
    }

    /// What `adjust_size` makes of `requested` for an editor of size `current`.
    /// With the aspect ratio preserved, a request with room for at least
    /// eight steps of the reduced ratio on both sides becomes the largest
    /// whole multiple of that ratio inside it (raised to the minimum); any
    /// other request rescales `current` directly by the largest factor that
    /// fits, raised to the minimum.
    pub open spec fn spec_adjust_size(self, current: (u32, u32), requested: (u32, u32)) -> (nat, nat) {
        let w = requested.0 as nat;
        let h = requested.1 as nat;
        let ratio = spec_aspect_ratio(current);
        let cw = at_least_one(current.0);
        let ch = at_least_one(current.1);
        self.size_from(
            current,
            requested,
            Self::fitting_steps(ratio, w, h),
            Self::fitting_scale(cw, ch, w, h),
        )
    }

    /// The size the minimum alone makes of a request: with free resizing the
    /// minimum itself; with the aspect ratio preserved, what `adjust_size` gives
    /// when nothing of the request counts.
    pub open spec fn forced_size(self, current: (u32, u32), requested: (u32, u32)) -> (nat, nat) {
        if !self.preserve_aspect_ratio {
            (self.min_width as nat, self.min_height as nat)
        } else {
            self.size_from(current, requested, 0, (0, 1))
        }
    }

    /// The smallest integer aspect ratio that expresses `size`, as the
    /// `(width, height)` pair CLAP's `clap_gui_resize_hints` asks for. Zero
    /// sides count as one.
    pub fn aspect_ratio(size: (u32, u32)) -> (ratio: (u32, u32))
        ensures
            ratio.0 as nat == spec_aspect_ratio(size).0,
            ratio.1 as nat == spec_aspect_ratio(size).1,
    {
        let width: u32 = if size.0 == 0 { 1 } else { size.0 };
        let height: u32 = if size.1 == 0 { 1 } else { size.1 };
        let divisor = gcd(width, height);
        proof {
            lemma_gcd_positive(width as nat, height as nat);
        }
        (width / divisor, height / divisor)
    }
    /// Correct a size the host asked for into one this editor accepts: never
    /// smaller than the minimum, and on `current_size`'s aspect ratio when that
    /// has to be preserved. The result fits inside `requested` unless the
    /// minimum forces it larger; in particular a side requested as zero stays
    /// zero unless the minimum asks for more. Direct rescaling works on exact
    /// fractions and rounds each side to the nearest pixel, halves up, raising
    /// a side that rounds to zero to one pixel where the request has room for
    /// it. The result must fit in a `u32`: snapping to whole multiples of the
    /// reduced ratio can exceed it only where the minimum is close to
    /// `u32::MAX`; `checked_adjust_size` tests this.
    pub fn adjust_size(&self, current_size: (u32, u32), requested: (u32, u32)) -> (size: (u32, u32))
        requires
            self.spec_adjust_size(current_size, requested).0 <= u32::MAX,
            self.spec_adjust_size(current_size, requested).1 <= u32::MAX,
        ensures
            size.0 as nat == self.spec_adjust_size(current_size, requested).0,
            size.1 as nat == self.spec_adjust_size(current_size, requested).1,
    {
        let (width, height) = self.adjusted_wide(current_size, requested);
        (width as u32, height as u32)
    }

    /// `adjust_size` for callers that cannot show the result fits in a `u32`:
    /// `None` exactly where it does not.
    pub fn checked_adjust_size(&self, current_size: (u32, u32), requested: (u32, u32)) -> (size:
        Option<(u32, u32)>)
        ensures
            size is Some <==> (self.spec_adjust_size(current_size, requested).0 <= u32::MAX
                && self.spec_adjust_size(current_size, requested).1 <= u32::MAX),
            size matches Some(s) ==> s.0 as nat == self.spec_adjust_size(current_size, requested).0
                && s.1 as nat == self.spec_adjust_size(current_size, requested).1,
    {
        let (width, height) = self.adjusted_wide(current_size, requested);
        if width <= u32::MAX as u64 && height <= u32::MAX as u64 {
            Some((width as u32, height as u32))
        } else {
            None
        }
    }

    /// `adjust_size` computed in `u64`, where every result fits.
    fn adjusted_wide(&self, current_size: (u32, u32), requested: (u32, u32)) -> (size: (u64, u64))
        ensures
            size.0 as nat == self.spec_adjust_size(current_size, requested).0,
            size.1 as nat == self.spec_adjust_size(current_size, requested).1,
    {
        let width: u32 = requested.0;
        let height: u32 = requested.1;
        if !self.preserve_aspect_ratio {
            let w: u32 = if width >= self.min_width { width } else { self.min_width };
            let h: u32 = if height >= self.min_height { height } else { self.min_height };
            return (w as u64, h as u64);
        }
        let (ratio_width, ratio_height) = Self::aspect_ratio(current_size);
        proof {
            lemma_gcd_positive(at_least_one(current_size.0), at_least_one(current_size.1));
            lemma_reduced_coprime(at_least_one(current_size.0), at_least_one(current_size.1));
        }
        // Whole multiples of the reduced ratio land on it exactly, so a run of
        // resizes can never accumulate rounding error. A current size that
        // barely reduces has no usable grid (its steps would be as large as the
        // window), so that one is scaled directly instead.
        if ratio_width > width / 8 || ratio_height > height / 8 {
            let current_width: u32 = if current_size.0 == 0 { 1 } else { current_size.0 };
            let current_height: u32 = if current_size.1 == 0 { 1 } else { current_size.1 };
            let fit: (u32, u32) = if mul_wide(width, current_height) <= mul_wide(height, current_width) {
                (width, current_width)
            } else {
                (height, current_height)
            };
            let with_min_width: (u32, u32) = if mul_wide(self.min_width, fit.1) > mul_wide(fit.0, current_width) {
                (self.min_width, current_width)
            } else {
                fit
            };
            let scale: (u32, u32) = if mul_wide(self.min_height, with_min_width.1) > mul_wide(with_min_width.0, current_height) {
                (self.min_height, current_height)
            } else {
                with_min_width
            };
            return (
                scaled_side(current_width, scale, width) as u64,
                scaled_side(current_height, scale, height) as u64,
            );
        }
        let fit_w: u32 = width / ratio_width;
        let fit_h: u32 = height / ratio_height;
        let mut steps: u32 = if fit_w <= fit_h { fit_w } else { fit_h };
        let need_width: u32 = div_ceil(self.min_width, ratio_width);
        if need_width > steps {
            steps = need_width;
        }
        let need_height: u32 = div_ceil(self.min_height, ratio_height);
        if need_height > steps {
            steps = need_height;
        }
        if steps < 1 {
            steps = 1;
        }
        (mul_wide(steps, ratio_width), mul_wide(steps, ratio_height))
    }
}

} // verus!
