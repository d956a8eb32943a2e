//! Laws of the editor sizing rules, stated over the specifications that
//! `ResizeHints::aspect_ratio` and `ResizeHints::adjust_size` ensure.

use vstd::arithmetic::div_mod::*;
use vstd::arithmetic::mul::*;
use vstd::prelude::*;

use crate::editor::{
    ResizeHints, at_least_one, ceil_div, clamp_side, round_ratio, lemma_common_divisor_divides_gcd, lemma_gcd_scale, lemma_reduced_coprime, spec_aspect_ratio, spec_gcd,
};

verus! {

/// The aspect ratio of a size is a pair of positive coprime integers with the
/// same proportion as the size (zero sides counting as one), and it is no
/// larger than the size.
pub proof fn law_aspect_ratio_is_reduced(size: (u32, u32))
    ensures
        spec_aspect_ratio(size).0 >= 1,
        spec_aspect_ratio(size).1 >= 1,
        spec_aspect_ratio(size).0 <= at_least_one(size.0),
        spec_aspect_ratio(size).1 <= at_least_one(size.1),
        spec_gcd(spec_aspect_ratio(size).0, spec_aspect_ratio(size).1) == 1,
        at_least_one(size.0) * spec_aspect_ratio(size).1 == at_least_one(size.1)
            * spec_aspect_ratio(size).0,
{
    let w = at_least_one(size.0);
    let h = at_least_one(size.1);
    lemma_reduced_coprime(w, h);
    let g = spec_gcd(w, h);
    let a = w / g;
    let b = h / g;
    assert(a >= 1 && b >= 1 && a <= w && b <= h) by (nonlinear_arith)
        requires
            w >= 1,
            h >= 1,
            g >= 1,
            w == g * a,
            h == g * b,
    ;
    assert(w * b == h * a) by (nonlinear_arith)
        requires
            w == g * a,
            h == g * b,
    ;
}

/// The aspect ratio is the smallest integer ratio that expresses the size:
/// every pair of positive integers in the same proportion as the size (zero
/// sides counting as one) is a whole multiple of it.
pub proof fn law_aspect_ratio_is_smallest(size: (u32, u32), a: nat, b: nat)
    requires
        a >= 1,
        b >= 1,
        at_least_one(size.0) * b == at_least_one(size.1) * a,
    ensures
        a % spec_aspect_ratio(size).0 == 0,
        b % spec_aspect_ratio(size).1 == 0,
        a / spec_aspect_ratio(size).0 == b / spec_aspect_ratio(size).1,
        spec_aspect_ratio(size).0 <= a,
        spec_aspect_ratio(size).1 <= b,
{
    let w = at_least_one(size.0);
    let h = at_least_one(size.1);
    lemma_reduced_coprime(w, h);
    law_aspect_ratio_is_reduced(size);
    let g = spec_gcd(w, h);
    let r0 = w / g;
    let r1 = h / g;
    assert(r0 * b == r1 * a) by (nonlinear_arith)
        requires
            w == g * r0,
            h == g * r1,
            g > 0,
            w * b == h * a,
    ;
    // r0 divides both a * r0 and a * r1, so it divides their gcd, which is a;
    // r1 likewise divides b.
    lemma_gcd_scale(a, r0, r1);
    lemma_gcd_scale(b, r0, r1);
    assert(spec_gcd(a * r0, a * r1) == a);
    assert(spec_gcd(b * r0, b * r1) == b);
    lemma_mod_multiples_basic(a as int, r0 as int);
    lemma_mod_multiples_basic(b as int, r0 as int);
    lemma_mod_multiples_basic(a as int, r1 as int);
    lemma_mod_multiples_basic(b as int, r1 as int);
    lemma_mul_is_commutative(a as int, r0 as int);
    lemma_mul_is_commutative(a as int, r1 as int);
    lemma_mul_is_commutative(b as int, r0 as int);
    lemma_mul_is_commutative(b as int, r1 as int);
    assert(a * r1 == b * r0);
    lemma_common_divisor_divides_gcd(a * r0, a * r1, r0);
    lemma_common_divisor_divides_gcd(b * r0, b * r1, r1);
    lemma_fundamental_div_mod(a as int, r0 as int);
    lemma_fundamental_div_mod(b as int, r1 as int);
    let ka = a / r0;
    let kb = b / r1;
    assert(ka == kb && r0 <= a && r1 <= b) by (nonlinear_arith)
        requires
            a == r0 * ka,
            b == r1 * kb,
            r0 * b == r1 * a,
            r0 >= 1,
            r1 >= 1,
            a >= 1,
            b >= 1,
    ;
}

/// Any whole multiple of a reduced aspect ratio has that same aspect ratio.
pub proof fn law_multiple_keeps_aspect_ratio(size: (u32, u32), steps: nat)
    requires
        steps >= 1,
        steps * spec_aspect_ratio(size).0 <= u32::MAX,
        steps * spec_aspect_ratio(size).1 <= u32::MAX,
    ensures
        spec_aspect_ratio(
            (
                (steps * spec_aspect_ratio(size).0) as u32,
                (steps * spec_aspect_ratio(size).1) as u32,
            ),
        ) == spec_aspect_ratio(size),
{
    law_aspect_ratio_is_reduced(size);
    let r = spec_aspect_ratio(size);
    let w = steps * r.0;
    let h = steps * r.1;
    assert(w >= 1 && h >= 1) by (nonlinear_arith)
        requires
            steps >= 1,
            r.0 >= 1,
            r.1 >= 1,
            w == steps * r.0,
            h == steps * r.1,
    ;
    lemma_gcd_scale(steps, r.0, r.1);
    assert(spec_gcd(w, h) == steps);
    lemma_div_multiples_vanish(r.0 as int, steps as int);
    lemma_div_multiples_vanish(r.1 as int, steps as int);
}

/// Taking the aspect ratio of an aspect ratio changes nothing.
pub proof fn law_aspect_ratio_idempotent(size: (u32, u32))
    ensures
        spec_aspect_ratio(
            (spec_aspect_ratio(size).0 as u32, spec_aspect_ratio(size).1 as u32),
        ) == spec_aspect_ratio(size),
{
    law_aspect_ratio_is_reduced(size);
    let r = spec_aspect_ratio(size);
    assert(1 * r.0 == r.0 && 1 * r.1 == r.1);
    law_multiple_keeps_aspect_ratio(size, 1);
}


/// `ceil_div(a, b)` steps of `b` reach at least `a`.
proof fn lemma_ceil_div_covers(a: nat, b: nat)
    requires
        b > 0,
    ensures
        ceil_div(a, b) * b >= a,
{
    lemma_fundamental_div_mod(a as int, b as int);
    lemma_mod_bound(a as int, b as int);
    assert(ceil_div(a, b) * b >= a) by (nonlinear_arith)
        requires
            b > 0,
            a == b * (a / b) + a % b,
            0 <= a % b < b,
            ceil_div(a, b) == if a % b == 0 { a / b } else { a / b + 1 },
    ;
}

/// With the aspect ratio preserved and the request snapped to the grid of the
/// current ratio, the adjusted size has exactly the current size's aspect
/// ratio, so that a run of resizes never drifts off it.
pub proof fn law_adjusted_keeps_aspect_ratio(
    hints: ResizeHints,
    current: (u32, u32),
    requested: (u32, u32),
)
    requires
        hints.preserve_aspect_ratio,
        ResizeHints::uses_grid(
            spec_aspect_ratio(current),
            requested.0 as nat,
            requested.1 as nat,
        ),
        hints.spec_adjust_size(current, requested).0 <= u32::MAX,
        hints.spec_adjust_size(current, requested).1 <= u32::MAX,
    ensures
        spec_aspect_ratio(
            (
                hints.spec_adjust_size(current, requested).0 as u32,
                hints.spec_adjust_size(current, requested).1 as u32,
            ),
        ) == spec_aspect_ratio(current),
{
    let ratio = spec_aspect_ratio(current);
    let w = requested.0 as nat;
    let h = requested.1 as nat;
    let steps = hints.steps_from(ratio, ResizeHints::fitting_steps(ratio, w, h));
    law_multiple_keeps_aspect_ratio(current, steps);
}

/// The adjusted size is never smaller than the minimum, on either side.
pub proof fn law_adjusted_meets_minimum(
    hints: ResizeHints,
    current: (u32, u32),
    requested: (u32, u32),
)
    ensures
        hints.spec_adjust_size(current, requested).0 >= hints.min_width,
        hints.spec_adjust_size(current, requested).1 >= hints.min_height,
{
    let w = requested.0 as nat;
    let h = requested.1 as nat;
    let ratio = spec_aspect_ratio(current);
    let mw = hints.min_width as nat;
    let mh = hints.min_height as nat;
    if !hints.preserve_aspect_ratio {
    } else if ResizeHints::uses_grid(ratio, w, h) {
        law_aspect_ratio_is_reduced(current);
        let steps = hints.steps_from(ratio, ResizeHints::fitting_steps(ratio, w, h));
        lemma_ceil_div_covers(mw, ratio.0);
        lemma_ceil_div_covers(mh, ratio.1);
        lemma_mul_inequality(ceil_div(mw, ratio.0) as int, steps as int, ratio.0 as int);
        lemma_mul_inequality(ceil_div(mh, ratio.1) as int, steps as int, ratio.1 as int);
    } else {
        let cw = at_least_one(current.0);
        let ch = at_least_one(current.1);
        let fit = ResizeHints::fitting_scale(cw, ch, w, h);
        let s1 = if mw * fit.1 > fit.0 * cw { (mw, cw) } else { fit };
        let s = hints.scale_from(fit, cw, ch);
        assert(s1.1 > 0);
        assert(s1.0 * cw >= mw * s1.1) by (nonlinear_arith)
            requires
                s1 == (if mw * fit.1 > fit.0 * cw { (mw, cw) } else { fit }),
        ;
        assert(s.1 > 0);
        assert(s.0 * cw >= mw * s.1 && s.0 * ch >= mh * s.1) by (nonlinear_arith)
            requires
                s1.1 > 0,
                cw > 0,
                ch > 0,
                s1.0 * cw >= mw * s1.1,
                s == (if mh * s1.1 > s1.0 * ch { (mh, ch) } else { s1 }),
        ;
        lemma_scaled_at_least(cw, s, mw, w);
        lemma_scaled_at_least(ch, s, mh, h);
    }
}

/// A side scaled by a fraction that makes it at least `m` rounds to at least
/// `m`.
proof fn lemma_scaled_at_least(side: nat, scale: (nat, nat), m: nat, requested: nat)
    requires
        scale.1 > 0,
        scale.0 * side >= m * scale.1,
        m <= u32::MAX,
    ensures
        clamp_side(round_ratio(side * scale.0, scale.1), requested) >= m,
{
    let x = side * scale.0;
    let d = scale.1;
    assert(2 * x + d >= m * (2 * d)) by (nonlinear_arith)
        requires
            x == side * scale.0,
            scale.0 * side >= m * d,
    ;
    lemma_div_by_multiple(m as int, (2 * d) as int);
    lemma_div_is_ordered((m * (2 * d)) as int, (2 * x + d) as int, (2 * d) as int);
}


/// A fraction of a side that stays within `h` pixels rounds to at most `h`
/// pixels, and stays there when made a valid side for a request of `h`.
proof fn lemma_scaled_at_most(x: nat, d: nat, h: nat)
    requires
        d > 0,
        x <= h * d,
        h <= u32::MAX,
    ensures
        clamp_side(round_ratio(x, d), h) <= h,
{
    assert(2 * x + d < (2 * d) * (h + 1)) by (nonlinear_arith)
        requires
            d > 0,
            x <= h * d,
    ;
    lemma_multiply_divide_lt((2 * x + d) as int, (2 * d) as int, (h + 1) as int);
}

/// The adjusted size fits inside the request unless the minimum forces it larger: each side either fits, or is the side
/// that the minimum alone would give.
pub proof fn law_adjusted_fits_unless_minimum(
    hints: ResizeHints,
    current: (u32, u32),
    requested: (u32, u32),
)
    ensures
        hints.spec_adjust_size(current, requested).0 <= requested.0
            || hints.spec_adjust_size(current, requested).0 == hints.forced_size(
            current,
            requested,
        ).0,
        hints.spec_adjust_size(current, requested).1 <= requested.1
            || hints.spec_adjust_size(current, requested).1 == hints.forced_size(
            current,
            requested,
        ).1,
{
    let w = requested.0 as nat;
    let h = requested.1 as nat;
    let ratio = spec_aspect_ratio(current);
    let mw = hints.min_width as nat;
    let mh = hints.min_height as nat;
    if !hints.preserve_aspect_ratio {
    } else if ResizeHints::uses_grid(ratio, w, h) {
        law_aspect_ratio_is_reduced(current);
        let fit = ResizeHints::fitting_steps(ratio, w, h);
        let steps = hints.steps_from(ratio, fit);
        if steps == fit {
            lemma_fundamental_div_mod(w as int, ratio.0 as int);
            lemma_fundamental_div_mod(h as int, ratio.1 as int);
            lemma_mod_bound(w as int, ratio.0 as int);
            lemma_mod_bound(h as int, ratio.1 as int);
            assert(fit * ratio.0 <= w && fit * ratio.1 <= h) by (nonlinear_arith)
                requires
                    fit <= w / ratio.0,
                    fit <= h / ratio.1,
                    w == ratio.0 * (w / ratio.0) + w % ratio.0,
                    h == ratio.1 * (h / ratio.1) + h % ratio.1,
                    w % ratio.0 >= 0,
                    h % ratio.1 >= 0,
                    ratio.0 >= 1,
                    ratio.1 >= 1,
            ;
        } else {
            assert(steps == hints.steps_from(ratio, 0));
        }
    } else {
        let cw = at_least_one(current.0);
        let ch = at_least_one(current.1);
        let fit = ResizeHints::fitting_scale(cw, ch, w, h);
        let s1 = if mw * fit.1 > fit.0 * cw { (mw, cw) } else { fit };
        let s = hints.scale_from(fit, cw, ch);
        let f1 = if mw * 1 > 0 * cw { (mw, cw) } else { (0nat, 1nat) };
        let f = hints.scale_from((0, 1), cw, ch);
        if s == fit {
            if w * ch <= h * cw {
                assert(cw * w <= w * cw && ch * w <= h * cw) by (nonlinear_arith)
                    requires
                        w * ch <= h * cw,
                ;
                lemma_scaled_at_most(cw * w, cw, w);
                lemma_scaled_at_most(ch * w, cw, h);
            } else {
                assert(cw * h <= w * ch && ch * h <= h * ch) by (nonlinear_arith)
                    requires
                        w * ch > h * cw,
                ;
                lemma_scaled_at_most(cw * h, ch, w);
                lemma_scaled_at_most(ch * h, ch, h);
            }
        } else {
            if mw * fit.1 > fit.0 * cw {
                assert(mw > 0) by (nonlinear_arith)
                    requires
                        mw * fit.1 > fit.0 * cw,
                ;
                assert(f1 == s1);
            } else {
                assert(s == (mh, ch));
                assert(mh * fit.1 > fit.0 * ch);
                assert(mh > 0) by (nonlinear_arith)
                    requires
                        mh * fit.1 > fit.0 * ch,
                ;
                if mw > 0 {
                    assert(mh * cw > mw * ch) by (nonlinear_arith)
                        requires
                            fit.1 > 0,
                            cw > 0,
                            ch > 0,
                            mh * fit.1 > fit.0 * ch,
                            mw * fit.1 <= fit.0 * cw,
                    ;
                    assert(f1 == (mw, cw));
                    assert(f == (mh, ch));
                } else {
                    assert(f1 == (0nat, 1nat));
                    assert(mh * 1 > 0 * ch);
                    assert(f == (mh, ch));
                }
            }
            assert(s == f);
        }
    }
}


/// Adjusting an adjusted size again gives it back unchanged, whenever the
/// first adjustment clamped freely or snapped to the ratio grid.
pub proof fn law_adjust_size_idempotent(
    hints: ResizeHints,
    current: (u32, u32),
    requested: (u32, u32),
)
    requires
        hints.preserve_aspect_ratio ==> ResizeHints::uses_grid(
            spec_aspect_ratio(current),
            requested.0 as nat,
            requested.1 as nat,
        ),
        hints.spec_adjust_size(current, requested).0 <= u32::MAX,
        hints.spec_adjust_size(current, requested).1 <= u32::MAX,
    ensures
        hints.spec_adjust_size(
            current,
            (
                hints.spec_adjust_size(current, requested).0 as u32,
                hints.spec_adjust_size(current, requested).1 as u32,
            ),
        ) == hints.spec_adjust_size(current, requested),
{
    let w = requested.0 as nat;
    let h = requested.1 as nat;
    let ratio = spec_aspect_ratio(current);
    let r = hints.spec_adjust_size(current, requested);
    if hints.preserve_aspect_ratio {
        law_aspect_ratio_is_reduced(current);
        let fit = ResizeHints::fitting_steps(ratio, w, h);
        let steps = hints.steps_from(ratio, fit);
        lemma_div_by_multiple(8, ratio.0 as int);
        lemma_div_by_multiple(8, ratio.1 as int);
        lemma_mul_is_commutative(8, ratio.0 as int);
        lemma_mul_is_commutative(8, ratio.1 as int);
        lemma_fundamental_div_mod(w as int, 8);
        lemma_fundamental_div_mod(h as int, 8);
        lemma_div_is_ordered((8 * ratio.0) as int, w as int, ratio.0 as int);
        lemma_div_is_ordered((8 * ratio.1) as int, h as int, ratio.1 as int);
        assert(steps >= 8);
        let w2 = steps * ratio.0;
        let h2 = steps * ratio.1;
        assert(w2 >= 8 * ratio.0 && h2 >= 8 * ratio.1 && w2 >= 1 && h2 >= 1) by (nonlinear_arith)
            requires
                steps >= 8,
                ratio.0 >= 1,
                ratio.1 >= 1,
                w2 == steps * ratio.0,
                h2 == steps * ratio.1,
        ;
        lemma_div_multiples_vanish(8 * ratio.0 as int, 8);
        lemma_div_multiples_vanish(8 * ratio.1 as int, 8);
        lemma_div_is_ordered((8 * ratio.0) as int, w2 as int, 8);
        lemma_div_is_ordered((8 * ratio.1) as int, h2 as int, 8);
        lemma_div_multiples_vanish(steps as int, ratio.0 as int);
        lemma_div_multiples_vanish(steps as int, ratio.1 as int);
        lemma_mul_is_commutative(steps as int, ratio.0 as int);
        lemma_mul_is_commutative(steps as int, ratio.1 as int);
        assert(ResizeHints::uses_grid(ratio, w2, h2));
        assert(ResizeHints::fitting_steps(ratio, w2, h2) == steps);
    }
}


/// `k` whole steps of `b` that stay within `w` number at most `w / b`.
proof fn lemma_steps_within(k: nat, b: nat, w: nat)
    requires
        b > 0,
        k * b <= w,
    ensures
        k <= w / b,
{
    lemma_div_is_ordered((k * b) as int, w as int, b as int);
    lemma_div_by_multiple(k as int, b as int);
}

/// `k` whole steps of `b` that reach `a` number at least `ceil_div(a, b)`.
proof fn lemma_steps_reaching(k: nat, b: nat, a: nat)
    requires
        b > 0,
        k * b >= a,
    ensures
        k >= ceil_div(a, b),
{
    lemma_fundamental_div_mod(a as int, b as int);
    lemma_mod_bound(a as int, b as int);
    let q = a / b;
    let r = a % b;
    assert(k >= ceil_div(a, b)) by (nonlinear_arith)
        requires
            b > 0,
            a == b * q + r,
            0 <= r < b,
            k * b >= a,
            ceil_div(a, b) == if r == 0 { q } else { q + 1 },
    ;
}

/// With the aspect ratio preserved and the request on the ratio grid, the
/// adjusted size is `steps` whole multiples of the current ratio, where
/// `steps` is at least every number of steps that fits inside the request,
/// reaches the minimum on both sides with at least one step, and is either
/// itself inside the request or the fewest steps that reach the minimum.
pub proof fn law_grid_size_is_largest_fitting_multiple(
    hints: ResizeHints,
    current: (u32, u32),
    requested: (u32, u32),
)
    requires
        hints.preserve_aspect_ratio,
        ResizeHints::uses_grid(spec_aspect_ratio(current), requested.0 as nat, requested.1 as nat),
    ensures
        ({
            let ratio = spec_aspect_ratio(current);
            let w = requested.0 as nat;
            let h = requested.1 as nat;
            let mw = hints.min_width as nat;
            let mh = hints.min_height as nat;
            let steps = hints.steps_from(ratio, ResizeHints::fitting_steps(ratio, w, h));
            &&& hints.spec_adjust_size(current, requested) == (steps * ratio.0, steps * ratio.1)
            &&& steps >= 1
            &&& steps * ratio.0 >= mw
            &&& steps * ratio.1 >= mh
            &&& forall|k: nat|
                #![trigger k * ratio.0, k * ratio.1]
                k * ratio.0 <= w && k * ratio.1 <= h ==> k <= steps
            &&& (steps * ratio.0 <= w && steps * ratio.1 <= h) || forall|k: nat|
                #![trigger k * ratio.0, k * ratio.1]
                k >= 1 && k * ratio.0 >= mw && k * ratio.1 >= mh ==> steps <= k
        }),
{
    let ratio = spec_aspect_ratio(current);
    let w = requested.0 as nat;
    let h = requested.1 as nat;
    let mw = hints.min_width as nat;
    let mh = hints.min_height as nat;
    law_aspect_ratio_is_reduced(current);
    let fit = ResizeHints::fitting_steps(ratio, w, h);
    let steps = hints.steps_from(ratio, fit);
    law_adjusted_meets_minimum(hints, current, requested);
    assert forall|k: nat|
        #![trigger k * ratio.0, k * ratio.1]
        k * ratio.0 <= w && k * ratio.1 <= h implies k <= steps by {
        lemma_steps_within(k, ratio.0, w);
        lemma_steps_within(k, ratio.1, h);
    }
    if steps == fit {
        lemma_fundamental_div_mod(w as int, ratio.0 as int);
        lemma_fundamental_div_mod(h as int, ratio.1 as int);
        lemma_mod_bound(w as int, ratio.0 as int);
        lemma_mod_bound(h as int, ratio.1 as int);
        assert(fit * ratio.0 <= w && fit * ratio.1 <= h) by (nonlinear_arith)
            requires
                fit <= w / ratio.0,
                fit <= h / ratio.1,
                w == ratio.0 * (w / ratio.0) + w % ratio.0,
                h == ratio.1 * (h / ratio.1) + h % ratio.1,
                w % ratio.0 >= 0,
                h % ratio.1 >= 0,
                ratio.0 >= 1,
                ratio.1 >= 1,
        ;
    } else {
        assert forall|k: nat|
            #![trigger k * ratio.0, k * ratio.1]
            k >= 1 && k * ratio.0 >= mw && k * ratio.1 >= mh implies steps <= k by {
            lemma_steps_reaching(k, ratio.0, mw);
            lemma_steps_reaching(k, ratio.1, mh);
        }
    }
}


/// Scaling both sides of a size by the same whole factor keeps its aspect
/// ratio.
pub proof fn law_aspect_ratio_scale_invariant(size: (u32, u32), k: nat)
    requires
        k >= 1,
        size.0 >= 1,
        size.1 >= 1,
        k * size.0 <= u32::MAX,
        k * size.1 <= u32::MAX,
    ensures
        spec_aspect_ratio(((k * size.0) as u32, (k * size.1) as u32)) == spec_aspect_ratio(size),
{
    let w = size.0 as nat;
    let h = size.1 as nat;
    lemma_reduced_coprime(w, h);
    let g = spec_gcd(w, h);
    let r0 = w / g;
    let r1 = h / g;
    let kw = k * w;
    let kh = k * h;
    assert(kw >= 1 && kh >= 1) by (nonlinear_arith)
        requires
            k >= 1,
            w >= 1,
            h >= 1,
            kw == k * w,
            kh == k * h,
    ;
    lemma_gcd_scale(k, w, h);
    let kg = k * g;
    assert(kg > 0 && kw == kg * r0 && kh == kg * r1) by (nonlinear_arith)
        requires
            k >= 1,
            g > 0,
            w == g * r0,
            h == g * r1,
            kw == k * w,
            kh == k * h,
            kg == k * g,
    ;
    lemma_div_multiples_vanish(r0 as int, kg as int);
    lemma_div_multiples_vanish(r1 as int, kg as int);
}

/// `(2 * c * v + c) / (2 * c)` is `v`: a whole number of pixels rounds to
/// itself.
proof fn lemma_round_whole(c: nat, v: nat, a: nat)
    requires
        c > 0,
        a == c * v,
    ensures
        round_ratio(a, c) == v,
{
    assert(2 * a + c == v * (2 * c) + c && c < 2 * c) by (nonlinear_arith)
        requires
            c > 0,
            a == c * v,
    ;
    lemma_fundamental_div_mod_converse((2 * a + c) as int, (2 * c) as int, v as int, c as int);
}

/// A current size that meets the minimum (with no zero side), asked for
/// again, comes back unchanged.
pub proof fn law_current_size_is_kept(hints: ResizeHints, current: (u32, u32))
    requires
        current.0 >= 1,
        current.1 >= 1,
        current.0 >= hints.min_width,
        current.1 >= hints.min_height,
    ensures
        hints.spec_adjust_size(current, current) == (current.0 as nat, current.1 as nat),
{
    let w = current.0 as nat;
    let h = current.1 as nat;
    let mw = hints.min_width as nat;
    let mh = hints.min_height as nat;
    let ratio = spec_aspect_ratio(current);
    if hints.preserve_aspect_ratio {
        lemma_reduced_coprime(w, h);
        law_aspect_ratio_is_reduced(current);
        let g = spec_gcd(w, h);
        if ResizeHints::uses_grid(ratio, w, h) {
            lemma_mul_is_commutative(g as int, ratio.0 as int);
            lemma_mul_is_commutative(g as int, ratio.1 as int);
            lemma_div_multiples_vanish(g as int, ratio.0 as int);
            lemma_div_multiples_vanish(g as int, ratio.1 as int);
            assert(ResizeHints::fitting_steps(ratio, w, h) == g);
            lemma_steps_reaching(g, ratio.0, mw);
            lemma_steps_reaching(g, ratio.1, mh);
            assert(hints.steps_from(ratio, g) == g);
        } else {
            assert(ResizeHints::fitting_scale(w, h, w, h) == (w, w));
            assert(mw * w <= w * w && mh * w <= w * h) by (nonlinear_arith)
                requires
                    mw <= w,
                    mh <= h,
            ;
            assert(hints.scale_from((w, w), w, h) == (w, w));
            lemma_round_whole(w, w, w * w);
            lemma_mul_is_commutative(h as int, w as int);
            lemma_round_whole(w, h, h * w);
        }
    }
}

/// Direct rescaling rounds each side to the nearest pixel (halves up), and
/// so keeps the current proportion to within half a pixel on each side: with
/// `v0` by `v1` the rounded sides of `cw` by `ch`, `|v0 * ch - v1 * cw|` is at
/// most `(cw + ch) / 2`.
pub proof fn law_direct_rescale_rounds_to_nearest(
    hints: ResizeHints,
    current: (u32, u32),
    requested: (u32, u32),
)
    requires
        hints.preserve_aspect_ratio,
        !ResizeHints::uses_grid(spec_aspect_ratio(current), requested.0 as nat, requested.1 as nat),
    ensures
        ({
            let w = requested.0 as nat;
            let h = requested.1 as nat;
            let cw = at_least_one(current.0);
            let ch = at_least_one(current.1);
            let s = hints.scale_from(ResizeHints::fitting_scale(cw, ch, w, h), cw, ch);
            let v0 = round_ratio(cw * s.0, s.1);
            let v1 = round_ratio(ch * s.0, s.1);
            &&& s.1 > 0
            &&& hints.spec_adjust_size(current, requested) == (clamp_side(v0, w), clamp_side(v1, h))
            &&& 2 * v0 * s.1 <= 2 * (cw * s.0) + s.1 && 2 * (cw * s.0) < 2 * v0 * s.1 + s.1
            &&& 2 * v1 * s.1 <= 2 * (ch * s.0) + s.1 && 2 * (ch * s.0) < 2 * v1 * s.1 + s.1
            &&& 2 * v0 * ch <= 2 * v1 * cw + cw + ch
            &&& 2 * v1 * cw <= 2 * v0 * ch + cw + ch
        }),
{
    let w = requested.0 as nat;
    let h = requested.1 as nat;
    let cw = at_least_one(current.0);
    let ch = at_least_one(current.1);
    let s = hints.scale_from(ResizeHints::fitting_scale(cw, ch, w, h), cw, ch);
    let d = s.1;
    assert(d > 0);
    let x0 = cw * s.0;
    let x1 = ch * s.0;
    let v0 = round_ratio(x0, d);
    let v1 = round_ratio(x1, d);
    lemma_fundamental_div_mod((2 * x0 + d) as int, (2 * d) as int);
    lemma_fundamental_div_mod((2 * x1 + d) as int, (2 * d) as int);
    lemma_mod_bound((2 * x0 + d) as int, (2 * d) as int);
    lemma_mod_bound((2 * x1 + d) as int, (2 * d) as int);
    let r0 = (2 * x0 + d) % (2 * d);
    let r1 = (2 * x1 + d) % (2 * d);
    assert(2 * v0 * d <= 2 * x0 + d && 2 * x0 < 2 * v0 * d + d) by (nonlinear_arith)
        requires
            2 * x0 + d == (2 * d) * v0 + r0,
            0 <= r0 < 2 * d,
    ;
    assert(2 * v1 * d <= 2 * x1 + d && 2 * x1 < 2 * v1 * d + d) by (nonlinear_arith)
        requires
            2 * x1 + d == (2 * d) * v1 + r1,
            0 <= r1 < 2 * d,
    ;
    assert(x0 * ch == x1 * cw) by (nonlinear_arith)
        requires
            x0 == cw * s.0,
            x1 == ch * s.0,
    ;
    assert(2 * v0 * ch <= 2 * v1 * cw + cw + ch && 2 * v1 * cw <= 2 * v0 * ch + cw + ch)
        by (nonlinear_arith)
        requires
            d > 0,
            cw > 0,
            ch > 0,
            2 * v0 * d <= 2 * x0 + d,
            2 * x0 < 2 * v0 * d + d,
            2 * v1 * d <= 2 * x1 + d,
            2 * x1 < 2 * v1 * d + d,
            x0 * ch == x1 * cw,
    ;
}


/// Free resizing clamps each side of the request to its own minimum and
/// nothing else: the width depends only on the requested width and the
/// minimum width, the height only on the requested height and the minimum
/// height, and neither on the current size. A request that meets the minimum
/// comes back unchanged.
pub proof fn law_free_resizing_clamps_each_side(
    hints: ResizeHints,
    current: (u32, u32),
    requested: (u32, u32),
)
    requires
        !hints.preserve_aspect_ratio,
    ensures
        hints.spec_adjust_size(current, requested).0 == if requested.0 >= hints.min_width {
            requested.0 as nat
        } else {
            hints.min_width as nat
        },
        hints.spec_adjust_size(current, requested).1 == if requested.1 >= hints.min_height {
            requested.1 as nat
        } else {
            hints.min_height as nat
        },
        requested.0 >= hints.min_width && requested.1 >= hints.min_height ==> hints.spec_adjust_size(
            current,
            requested,
        ) == (requested.0 as nat, requested.1 as nat),
{
}


/// With the aspect ratio preserved, a request with room for at least eight
/// steps of the current reduced ratio on both sides gets a whole multiple of
/// that ratio: at least every multiple that fits inside the request, at least
/// the minimum on both sides, and either itself inside the request or the
/// smallest multiple that meets the minimum.
pub proof fn law_roomy_requests_snap_to_the_ratio(
    hints: ResizeHints,
    current: (u32, u32),
    requested: (u32, u32),
)
    requires
        hints.preserve_aspect_ratio,
        8 * spec_aspect_ratio(current).0 <= requested.0,
        8 * spec_aspect_ratio(current).1 <= requested.1,
    ensures
        ({
            let ratio = spec_aspect_ratio(current);
            let r = hints.spec_adjust_size(current, requested);
            let w = requested.0 as nat;
            let h = requested.1 as nat;
            let mw = hints.min_width as nat;
            let mh = hints.min_height as nat;
            &&& r.0 * ratio.1 == r.1 * ratio.0
            &&& r.0 % ratio.0 == 0
            &&& r.0 >= ratio.0
            &&& r.0 >= mw
            &&& r.1 >= mh
            &&& forall|k: nat|
                #![trigger k * ratio.0, k * ratio.1]
                k * ratio.0 <= w && k * ratio.1 <= h ==> k * ratio.0 <= r.0
            &&& (r.0 <= w && r.1 <= h) || forall|k: nat|
                #![trigger k * ratio.0, k * ratio.1]
                k >= 1 && k * ratio.0 >= mw && k * ratio.1 >= mh ==> r.0 <= k * ratio.0
        }),
{
    let ratio = spec_aspect_ratio(current);
    let w = requested.0 as nat;
    let h = requested.1 as nat;
    let mw = hints.min_width as nat;
    let mh = hints.min_height as nat;
    law_aspect_ratio_is_reduced(current);
    lemma_fundamental_div_mod(w as int, 8);
    lemma_fundamental_div_mod(h as int, 8);
    assert(ResizeHints::uses_grid(ratio, w, h));
    law_grid_size_is_largest_fitting_multiple(hints, current, requested);
    let steps = hints.steps_from(ratio, ResizeHints::fitting_steps(ratio, w, h));
    let r = hints.spec_adjust_size(current, requested);
    assert(r.0 * ratio.1 == r.1 * ratio.0) by (nonlinear_arith)
        requires
            r.0 == steps * ratio.0,
            r.1 == steps * ratio.1,
    ;
    lemma_mod_multiples_basic(steps as int, ratio.0 as int);
    lemma_mul_inequality(1, steps as int, ratio.0 as int);
    assert forall|k: nat|
        #![trigger k * ratio.0, k * ratio.1]
        k * ratio.0 <= w && k * ratio.1 <= h implies k * ratio.0 <= r.0 by {
        lemma_mul_inequality(k as int, steps as int, ratio.0 as int);
    }
    if !(r.0 <= w && r.1 <= h) {
        assert forall|k: nat|
            #![trigger k * ratio.0, k * ratio.1]
            k >= 1 && k * ratio.0 >= mw && k * ratio.1 >= mh implies r.0 <= k * ratio.0 by {
            lemma_mul_inequality(steps as int, k as int, ratio.0 as int);
        }
    }
}


/// Whether the fraction `p / q` is the largest of `min(w / cw, h / ch)`,
/// `mw / cw` and `mh / ch`: the factor that scales `cw` by `ch` as large as
/// fits inside `w` by `h`, raised to what the minimum `mw` by `mh` needs.
pub open spec fn is_rescale_factor(
    cw: nat,
    ch: nat,
    w: nat,
    h: nat,
    mw: nat,
    mh: nat,
    p: nat,
    q: nat,
) -> bool {
    &&& q > 0
    &&& p * cw >= mw * q
    &&& p * ch >= mh * q
    &&& (p * cw >= w * q || p * ch >= h * q)
    &&& (p * cw == mw * q || p * ch == mh * q || (p * cw == w * q && p * ch <= h * q) || (p * ch
        == h * q && p * cw <= w * q))
}

/// Whether `r` is `side * p / q` rounded to the nearest pixel (halves up),
/// raised to one pixel where the request `req` has room for one, and kept at
/// most `u32::MAX`.
pub open spec fn is_rounded_side(r: nat, side: nat, p: nat, q: nat, req: nat) -> bool {
    &&& r <= u32::MAX
    &&& (r > 0 || req == 0)
    &&& (2 * (side * p) + q < 2 * (r + 1) * q || r == u32::MAX)
    &&& (2 * r * q <= 2 * (side * p) + q || (r == 1 && req > 0))
}

/// With the aspect ratio preserved, a request without room for eight steps of
/// the current reduced ratio on some side rescales the current size (zero
/// sides counting as one) directly: by the largest factor that fits it inside
/// the request, raised to what the minimum needs, each side rounded to the
/// nearest pixel.
pub proof fn law_narrow_requests_rescale_directly(
    hints: ResizeHints,
    current: (u32, u32),
    requested: (u32, u32),
)
    requires
        hints.preserve_aspect_ratio,
        !(8 * spec_aspect_ratio(current).0 <= requested.0 && 8 * spec_aspect_ratio(current).1
            <= requested.1),
    ensures
        exists|p: nat, q: nat|
            #[trigger] is_rescale_factor(
                at_least_one(current.0),
                at_least_one(current.1),
                requested.0 as nat,
                requested.1 as nat,
                hints.min_width as nat,
                hints.min_height as nat,
                p,
                q,
            ) && is_rounded_side(
                hints.spec_adjust_size(current, requested).0,
                at_least_one(current.0),
                p,
                q,
                requested.0 as nat,
            ) && is_rounded_side(
                hints.spec_adjust_size(current, requested).1,
                at_least_one(current.1),
                p,
                q,
                requested.1 as nat,
            ),
{
    let ratio = spec_aspect_ratio(current);
    let w = requested.0 as nat;
    let h = requested.1 as nat;
    let mw = hints.min_width as nat;
    let mh = hints.min_height as nat;
    let cw = at_least_one(current.0);
    let ch = at_least_one(current.1);
    law_aspect_ratio_is_reduced(current);
    lemma_fundamental_div_mod(w as int, 8);
    lemma_fundamental_div_mod(h as int, 8);
    assert(!ResizeHints::uses_grid(ratio, w, h));
    law_direct_rescale_rounds_to_nearest(hints, current, requested);
    let fit = ResizeHints::fitting_scale(cw, ch, w, h);
    let s1 = if mw * fit.1 > fit.0 * cw { (mw, cw) } else { fit };
    let sc = hints.scale_from(fit, cw, ch);
    let p = sc.0;
    let q = sc.1;
    // The factor is at least each of the three fractions, and equal to one.
    assert(s1.0 * cw >= mw * s1.1 && (s1.0 * cw >= w * s1.1 || s1.0 * ch >= h * s1.1)) by (nonlinear_arith)
        requires
            fit == (if w * ch <= h * cw { (w, cw) } else { (h, ch) }),
            s1 == (if mw * fit.1 > fit.0 * cw { (mw, cw) } else { fit }),
            cw > 0,
            ch > 0,
    ;
    assert(is_rescale_factor(cw, ch, w, h, mw, mh, p, q)) by (nonlinear_arith)
        requires
            fit == (if w * ch <= h * cw { (w, cw) } else { (h, ch) }),
            s1 == (if mw * fit.1 > fit.0 * cw { (mw, cw) } else { fit }),
            sc == (if mh * s1.1 > s1.0 * ch { (mh, ch) } else { s1 }),
            s1.0 * cw >= mw * s1.1,
            s1.0 * cw >= w * s1.1 || s1.0 * ch >= h * s1.1,
            p == sc.0,
            q == sc.1,
            cw > 0,
            ch > 0,
    ;
    let v0 = round_ratio(cw * p, q);
    let v1 = round_ratio(ch * p, q);
    let r = hints.spec_adjust_size(current, requested);
    assert(r == (clamp_side(v0, w), clamp_side(v1, h)));
    lemma_rounded_side(v0, cw, p, q, w);
    lemma_rounded_side(v1, ch, p, q, h);
}

/// A side rounded to the nearest pixel, then made a valid side for a request
/// of `req` pixels, meets `is_rounded_side`.
proof fn lemma_rounded_side(v: nat, side: nat, p: nat, q: nat, req: nat)
    requires
        q > 0,
        v == round_ratio(side * p, q),
        2 * v * q <= 2 * (side * p) + q,
        2 * (side * p) < 2 * v * q + q,
    ensures
        is_rounded_side(clamp_side(v, req), side, p, q, req),
{
    let x = side * p;
    let r = clamp_side(v, req);
    if v == 0 && req > 0 {
        assert(2 * x + q < 2 * (r + 1) * q) by (nonlinear_arith)
            requires
                2 * x < 2 * v * q + q,
                v == 0,
                r == 1,
        ;
    } else if v > u32::MAX {
        assert(2 * r * q <= 2 * x + q) by (nonlinear_arith)
            requires
                2 * v * q <= 2 * x + q,
                r < v,
                q > 0,
        ;
    } else {
        assert(2 * x + q < 2 * (r + 1) * q) by (nonlinear_arith)
            requires
                2 * x < 2 * v * q + q,
                r == v,
        ;
    }
}


/// A zero side counts as a side of one pixel in the aspect ratio.
pub proof fn law_zero_side_counts_as_one(w: u32, h: u32)
    ensures
        spec_aspect_ratio((0, h)) == spec_aspect_ratio((1, h)),
        spec_aspect_ratio((w, 0)) == spec_aspect_ratio((w, 1)),
{
}

} // verus!
