//! Color handling: clamping to the displayable range and conversion to
//! 8-bit channel values (gamma 2).

use crate::fixed::{
    fmul, fsqrt, lemma_fmul_bound, lemma_quot_abs, lemma_sqrt_floor_char, lemma_sqrt_floor_unique,
    quot, sabs, Fixed, SCALE,
};
use crate::vec3::{Color, Vec3};
use vstd::arithmetic::div_mod::{lemma_div_is_ordered, lemma_div_pos_is_pos};
use vstd::prelude::*;

verus! {

/// The scale factor taking a clamped channel to an 8-bit value: just under
/// 256 units, so that a channel of one maps to 255.
pub const MAX_COLOR: i128 = 1099507332808;

/// One channel clamped to the unit interval.
pub open spec fn clamp1(x: int) -> int {
    if x < 0 {
        0
    } else if x > SCALE as int {
        SCALE as int
    } else {
        x
    }
}

/// All three channels clamped to the unit interval.
pub open spec fn cclamp(a: (int, int, int)) -> (int, int, int) {
    (clamp1(a.0), clamp1(a.1), clamp1(a.2))
}

/// The 8-bit value of one channel: gamma-corrected by a square root, scaled
/// to just under 256, and rounded down.
pub open spec fn gamma_byte(x: int) -> int {
    fmul(MAX_COLOR as int, fsqrt(clamp1(x))) / (SCALE as int)
}

/// Clamping is idempotent: clamping a clamped color changes nothing.
pub proof fn law_clamp_idempotent(c: Color)
    ensures
        cclamp(cclamp(c@)) == cclamp(c@),
{
}

/// Clamping a color already within the unit range is the identity.
pub proof fn law_clamp_in_range_noop(c: Color)
    requires
        0 <= c@.0 <= SCALE as int,
        0 <= c@.1 <= SCALE as int,
        0 <= c@.2 <= SCALE as int,
    ensures
        cclamp(c@) == c@,
{
}

/// One channel clamped to the unit interval.
fn clamp_channel(x: Fixed) -> (r: Fixed)
    ensures
        r@ == clamp1(x@),
{
    if x.lt(Fixed::zero()) {
        Fixed::zero()
    } else if Fixed::one().lt(x) {
        Fixed::one()
    } else {
        x
    }
}

/// The 8-bit value of one clamped channel.
fn encode_channel(x: Fixed) -> (r: u8)
    ensures
        r == gamma_byte(x@),
{
    let c = clamp_channel(x);
    let g = c.sqrt();
    proof {
        let s = SCALE as int;
        lemma_sqrt_floor_char(c@ * s);
        assert(g@ <= s) by (nonlinear_arith)
            requires
                g@ * g@ <= c@ * s,
                c@ <= s,
                g@ >= 0,
                s == SCALE as int,
        ;
        lemma_fmul_bound(MAX_COLOR as int, g@, MAX_COLOR as int, s);
        lemma_quot_abs(MAX_COLOR as int * g@, s);
        lemma_div_is_ordered(sabs(MAX_COLOR as int * g@), MAX_COLOR as int * s, s);
        lemma_div_pos_is_pos(sabs(MAX_COLOR as int * g@), s);
        assert(MAX_COLOR as int * s / s == MAX_COLOR as int) by {
            crate::fixed::lemma_quot_multiple(MAX_COLOR as int, s);
            assert(quot(MAX_COLOR as int * s, s) == MAX_COLOR as int * s / s);
        }
    }
    let v = Fixed::from_raw(MAX_COLOR).mul(g);
    let units = v.floor_units();
    proof {
        lemma_div_is_ordered(v@, MAX_COLOR as int, SCALE as int);
        lemma_div_pos_is_pos(v@, SCALE as int);
    }
    units as u8
}

impl Color {
    /// The color with each channel clamped to the unit interval.
    pub fn clamp(&self) -> (r: Color)
        ensures
            r@ == cclamp(self@),
    {
        Vec3(clamp_channel(self.0), clamp_channel(self.1), clamp_channel(self.2))
    }

    /// The three 8-bit channel values of this color, gamma-corrected
    /// (gamma 2) and clamped; what an image writer emits for one pixel.
    pub fn to_rgb8(&self) -> (r: (u8, u8, u8))
        ensures
            r.0 == gamma_byte(self@.0),
            r.1 == gamma_byte(self@.1),
            r.2 == gamma_byte(self@.2),
    {
        (encode_channel(self.0), encode_channel(self.1), encode_channel(self.2))
    }
}

} // verus!
