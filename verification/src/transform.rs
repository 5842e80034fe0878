//! The 2D view transform: a zoom scale and a pan offset.
//!
//! Scale is kept in thousandths (1000 = actual size) and clamped to
//! [100, 10000], i.e. 0.1x to 10x. A scroll of `d` units multiplies the scale
//! by `(1000 - d) / 1000`, the caller having already folded its sensitivity
//! constant into `d`; when a pointer position is known, the offset is shifted
//! so that the point under the pointer stays visually fixed.
use vstd::arithmetic::div_mod::lemma_div_is_ordered;
use vstd::arithmetic::div_mod::lemma_fundamental_div_mod;
use vstd::arithmetic::div_mod::lemma_fundamental_div_mod_converse;
use vstd::prelude::*;

verus! {

/// Smallest scale, in thousandths: 0.1x.
pub const SCALE_MIN_MILLI: u32 = 100;

/// Largest scale, in thousandths: 10x.
pub const SCALE_MAX_MILLI: u32 = 10000;

/// The identity scale, in thousandths: 1x.
pub const SCALE_ONE_MILLI: u32 = 1000;

/// Bound on pointer and viewport-center coordinates handed to `apply_zoom`.
pub const COORD_LIMIT: i64 = 0x4000_0000;

/// Bound on the zoom factor handed to `apply_zoom`, in thousandths.
pub const FACTOR_LIMIT: i64 = 0x10_0000;

/// Bound on the pan offset up to which `apply_zoom` accepts a transform.
pub const OFFSET_LIMIT: i64 = 0x2000_0000_0000;

pub struct Transform {
    /// Zoom scale in thousandths, always in [SCALE_MIN_MILLI, SCALE_MAX_MILLI].
    pub scale_milli: u32,
    /// Pan offset, horizontal component.
    pub offset_x: i64,
    /// Pan offset, vertical component.
    pub offset_y: i64,
}

/// Scale clamped to the permitted range.
pub open spec fn clamp_scale(s: int) -> int {
    if s < SCALE_MIN_MILLI as int {
        SCALE_MIN_MILLI as int
    } else if s > SCALE_MAX_MILLI as int {
        SCALE_MAX_MILLI as int
    } else {
        s
    }
}

/// One zoom step: multiply the scale by `factor` thousandths, then clamp.
/// A factor of zero or less can only mean an extreme zoom-out, which lands
/// on the smallest scale.
pub open spec fn zoom_step(scale: int, factor: int) -> int {
    if factor <= 0 {
        SCALE_MIN_MILLI as int
    } else {
        clamp_scale(scale * factor / 1000)
    }
}

/// Division by 1000 that rounds toward zero, as the executable code does.
pub open spec fn div_trunc_1000(n: int) -> int {
    if n >= 0 {
        n / 1000
    } else {
        -((-n) / 1000)
    }
}

/// How far the offset moves so that the point `zc` away from the viewport
/// center stays fixed while the scale changes by `factor` thousandths.
pub open spec fn zoom_offset_shift(zc: int, factor: int) -> int {
    div_trunc_1000(zc * (1000 - factor))
}

/// The scale after `n` zoom steps with the same factor.
pub open spec fn zoom_iter(scale: int, factor: int, n: nat) -> int
    decreases n,
{
    if n == 0 {
        scale
    } else {
        zoom_step(zoom_iter(scale, factor, (n - 1) as nat), factor)
    }
}

/// Powers of two, for the convergence arguments below.
pub open spec fn pow2(n: nat) -> int
    decreases n,
{
    if n == 0 {
        1
    } else {
        2 * pow2((n - 1) as nat)
    }
}

proof fn lemma_pow2_pos(n: nat)
    ensures
        pow2(n) >= 1,
    decreases n,
{
    if n > 0 {
        lemma_pow2_pos((n - 1) as nat);
    }
}

/// A zoom step never leaves the clamp range.
pub proof fn lemma_zoom_step_bounds(scale: int, factor: int)
    ensures
        SCALE_MIN_MILLI <= zoom_step(scale, factor) <= SCALE_MAX_MILLI,
{
}

/// From the first step on, the iterated scale sits in the clamp range.
proof fn lemma_zoom_iter_bounds(scale: int, factor: int, n: nat)
    requires
        n >= 1,
    ensures
        SCALE_MIN_MILLI <= zoom_iter(scale, factor, n) <= SCALE_MAX_MILLI,
    decreases n,
{
    if n > 1 {
        lemma_zoom_iter_bounds(scale, factor, (n - 1) as nat);
    }
}

/// A step with a factor of at most one half at least halves the scale,
/// unless it lands on the floor.
proof fn lemma_half_step(v: int, factor: int)
    requires
        100 <= v <= 10000,
        factor <= 500,
    ensures
        zoom_step(v, factor) == 100 || 2 * zoom_step(v, factor) <= v,
{
    if factor > 0 {
        assert(v * factor <= v * 500) by (nonlinear_arith)
            requires
                v >= 0,
                factor <= 500,
        ;
        lemma_div_is_ordered(v * factor, v * 500, 1000);
        lemma_fundamental_div_mod(v, 2);
        let q = v / 2;
        let r = v % 2;
        assert(v * 500 == q * 1000 + r * 500);
        lemma_fundamental_div_mod_converse(v * 500, 1000, q, r * 500);
        assert(v * 500 / 1000 == q);
        assert(0 <= v * factor) by (nonlinear_arith)
            requires
                v >= 0,
                factor >= 0,
        ;
        lemma_div_is_ordered(0, v * factor, 1000);
    }
}

/// A step with a factor of at least two at least doubles the scale, unless
/// it lands on the ceiling.
proof fn lemma_double_step(v: int, factor: int)
    requires
        100 <= v <= 10000,
        factor >= 2000,
    ensures
        zoom_step(v, factor) == 10000 || zoom_step(v, factor) >= 2 * v,
{
    assert(v * factor >= v * 2000) by (nonlinear_arith)
        requires
            v >= 0,
            factor >= 2000,
    ;
    assert(v * 2000 == (2 * v) * 1000 + 0);
    lemma_fundamental_div_mod_converse(v * 2000, 1000, 2 * v, 0);
    lemma_div_is_ordered(v * 2000, v * factor, 1000);
}

proof fn lemma_zoom_out_invariant(scale: int, factor: int, n: nat)
    requires
        100 <= scale <= 10000,
        factor <= 500,
    ensures
        zoom_iter(scale, factor, n) == 100 || zoom_iter(scale, factor, n) * pow2(n) <= scale,
    decreases n,
{
    if n > 0 {
        lemma_zoom_out_invariant(scale, factor, (n - 1) as nat);
        let v = zoom_iter(scale, factor, (n - 1) as nat);
        let w = zoom_iter(scale, factor, n);
        if n == 1 {
        } else {
            lemma_zoom_iter_bounds(scale, factor, (n - 1) as nat);
        }
        lemma_half_step(v, factor);
        lemma_zoom_step_bounds(v, factor);
        if v == 100 {
        } else if w != 100 {
            let p = pow2((n - 1) as nat);
            lemma_pow2_pos((n - 1) as nat);
            assert(w * (2 * p) == (2 * w) * p) by (nonlinear_arith);
            assert((2 * w) * p <= v * p) by (nonlinear_arith)
                requires
                    2 * w <= v,
                    p >= 0,
            ;
        }
    }
}

proof fn lemma_zoom_in_invariant(scale: int, factor: int, n: nat)
    requires
        100 <= scale <= 10000,
        factor >= 2000,
    ensures
        zoom_iter(scale, factor, n) == 10000 || zoom_iter(scale, factor, n) >= scale * pow2(n),
    decreases n,
{
    if n > 0 {
        lemma_zoom_in_invariant(scale, factor, (n - 1) as nat);
        let v = zoom_iter(scale, factor, (n - 1) as nat);
        let w = zoom_iter(scale, factor, n);
        if n == 1 {
        } else {
            lemma_zoom_iter_bounds(scale, factor, (n - 1) as nat);
        }
        lemma_double_step(v, factor);
        lemma_zoom_step_bounds(v, factor);
        if v == 10000 {
            assert(w == 10000 || w >= 2 * v);
        } else if w != 10000 {
            let p = pow2((n - 1) as nat);
            lemma_pow2_pos((n - 1) as nat);
            assert(scale * (2 * p) == 2 * (scale * p)) by (nonlinear_arith);
            assert(2 * (scale * p) <= 2 * v) by (nonlinear_arith)
                requires
                    scale * p <= v,
            ;
        }
    }
}

/// Law: repeatedly zooming out with one and the same factor of at most one
/// half — a large scroll delta away from the viewer — lands on exactly the
/// smallest scale within seven steps and stays there; it never goes below.
pub proof fn lemma_zoom_out_converges(scale: int, factor: int, n: nat)
    requires
        100 <= scale <= 10000,
        factor <= 500,
        n >= 7,
    ensures
        zoom_iter(scale, factor, n) == 100,
    decreases n,
{
    if n == 7 {
        lemma_zoom_out_invariant(scale, factor, 7);
        lemma_zoom_iter_bounds(scale, factor, 7);
        let v = zoom_iter(scale, factor, 7);
        if v != 100 {
            assert(pow2(7) == 128) by {
                reveal_with_fuel(pow2, 8);
            }
            assert(100 * 128 <= v * 128) by (nonlinear_arith)
                requires
                    v >= 100,
            ;
        }
    } else {
        lemma_zoom_out_converges(scale, factor, (n - 1) as nat);
        lemma_half_step(100, factor);
        lemma_zoom_step_bounds(100, factor);
    }
}

/// Law: repeatedly zooming in with one and the same factor of at least two
/// — a large scroll delta toward the viewer — lands on exactly the largest
/// scale within seven steps and stays there; it never goes beyond.
pub proof fn lemma_zoom_in_converges(scale: int, factor: int, n: nat)
    requires
        100 <= scale <= 10000,
        factor >= 2000,
        n >= 7,
    ensures
        zoom_iter(scale, factor, n) == 10000,
    decreases n,
{
    if n == 7 {
        lemma_zoom_in_invariant(scale, factor, 7);
        lemma_zoom_iter_bounds(scale, factor, 7);
        let v = zoom_iter(scale, factor, 7);
        if v != 10000 {
            assert(pow2(7) == 128) by {
                reveal_with_fuel(pow2, 8);
            }
            assert(scale * 128 >= 100 * 128) by (nonlinear_arith)
                requires
                    scale >= 100,
            ;
        }
    } else {
        lemma_zoom_in_converges(scale, factor, (n - 1) as nat);
        lemma_double_step(10000, factor);
        lemma_zoom_step_bounds(10000, factor);
    }
}

impl Transform {
    /// The scale is within its clamped range.
    pub open spec fn wf(self) -> bool {
        SCALE_MIN_MILLI <= self.scale_milli <= SCALE_MAX_MILLI
    }

    /// The transform every freshly loaded image starts from: actual size,
    /// centered.
    pub fn identity() -> (t: Transform)
        ensures
            t.wf(),
            t.scale_milli == SCALE_ONE_MILLI,
            t.offset_x == 0,
            t.offset_y == 0,
    {
        Transform { scale_milli: SCALE_ONE_MILLI, offset_x: 0, offset_y: 0 }
    }

    /// One scroll step of zooming. `factor_milli` is the multiplier in
    /// thousandths (1000 keeps the scale); with a pointer position the offset
    /// is compensated so the point under the pointer stays fixed, against the
    /// viewport center `(center_x, center_y)`.
    pub fn apply_zoom(
        &mut self,
        factor_milli: i64,
        pointer: Option<(i64, i64)>,
        center_x: i64,
        center_y: i64,
    )
        requires
            old(self).wf(),
            -FACTOR_LIMIT <= factor_milli <= FACTOR_LIMIT,
            -COORD_LIMIT <= center_x <= COORD_LIMIT,
            -COORD_LIMIT <= center_y <= COORD_LIMIT,
            pointer is Some ==> -COORD_LIMIT <= pointer->Some_0.0 <= COORD_LIMIT
                && -COORD_LIMIT <= pointer->Some_0.1 <= COORD_LIMIT,
            -OFFSET_LIMIT <= old(self).offset_x <= OFFSET_LIMIT,
            -OFFSET_LIMIT <= old(self).offset_y <= OFFSET_LIMIT,
        ensures
            final(self).wf(),
            final(self).scale_milli == zoom_step(
                old(self).scale_milli as int,
                factor_milli as int,
            ),
            match pointer {
                None => final(self).offset_x == old(self).offset_x && final(self).offset_y == old(
                    self,
                ).offset_y,
                Some(p) => final(self).offset_x == old(self).offset_x + zoom_offset_shift(
                    p.0 - center_x,
                    factor_milli as int,
                ) && final(self).offset_y == old(self).offset_y + zoom_offset_shift(
                    p.1 - center_y,
                    factor_milli as int,
                ),
            },
    {
        let new_scale: u32 = if factor_milli <= 0 {
            SCALE_MIN_MILLI
        } else {
            proof {
                assert((self.scale_milli as int) * (factor_milli as int)
                    <= 10000 * 0x10_0000) by (nonlinear_arith)
                    requires
                        0 <= self.scale_milli <= 10000,
                        0 < factor_milli <= 0x10_0000,
                ;
                assert(0 <= (self.scale_milli as int) * (factor_milli as int)) by (nonlinear_arith)
                    requires
                        0 <= self.scale_milli,
                        0 < factor_milli,
                ;
            }
            let prod: i64 = (self.scale_milli as i64) * factor_milli;
            let scaled: i64 = prod / 1000;
            if scaled < SCALE_MIN_MILLI as i64 {
                SCALE_MIN_MILLI
            } else if scaled > SCALE_MAX_MILLI as i64 {
                SCALE_MAX_MILLI
            } else {
                scaled as u32
            }
        };
        if let Some((px, py)) = pointer {
            let shift_x: i64 = Self::shift_for(px - center_x, factor_milli);
            let shift_y: i64 = Self::shift_for(py - center_y, factor_milli);
            self.offset_x = self.offset_x + shift_x;
            self.offset_y = self.offset_y + shift_y;
        }
        self.scale_milli = new_scale;
    }

    /// The offset compensation for one zoom step, computed with the
    /// round-toward-zero division the specification names.
    fn shift_for(zc: i64, factor_milli: i64) -> (r: i64)
        requires
            -2 * COORD_LIMIT <= zc <= 2 * COORD_LIMIT,
            -FACTOR_LIMIT <= factor_milli <= FACTOR_LIMIT,
        ensures
            r == zoom_offset_shift(zc as int, factor_milli as int),
            -4 * COORD_LIMIT * FACTOR_LIMIT <= r <= 4 * COORD_LIMIT * FACTOR_LIMIT,
    {
        let delta: i64 = 1000 - factor_milli;
        proof {
            assert(-(0x1_0000_0000 * 0x10_1000) <= (zc as int) * (delta as int)
                <= 0x1_0000_0000 * 0x10_1000) by (nonlinear_arith)
                requires
                    -0x1_0000_0000 <= zc <= 0x1_0000_0000,
                    -0x10_1000 <= delta <= 0x10_1000,
            ;
        }
        let num: i64 = zc * delta;
        if num >= 0 {
            ((num as u64) / 1000) as i64
        } else {
            let q: u64 = ((-num) as u64) / 1000;
            -(q as i64)
        }
    }

    /// One frame of an active drag gesture: the offset accumulates the
    /// gesture's incremental delta; the scale is untouched.
    pub fn apply_drag(&mut self, dx: i64, dy: i64)
        requires
            old(self).wf(),
            i64::MIN <= old(self).offset_x + dx <= i64::MAX,
            i64::MIN <= old(self).offset_y + dy <= i64::MAX,
        ensures
            final(self).wf(),
            final(self).scale_milli == old(self).scale_milli,
            final(self).offset_x == old(self).offset_x + dx,
            final(self).offset_y == old(self).offset_y + dy,
    {
        self.offset_x = self.offset_x + dx;
        self.offset_y = self.offset_y + dy;
    }
}

} // verus!
