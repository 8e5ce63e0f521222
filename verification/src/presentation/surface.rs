//! The size of a drawing surface in pixels.

use crate::message::float::F64;
use crate::playback::clock::{self, nearest_number};
use vstd::arithmetic::power2::*;
use vstd::prelude::*;

verus! {

/// The largest side of a surface.
pub const MAX_PHYSICAL_SIZE: u32 = 4096;

/// The bits of a binary64 quarter.
pub const QUARTER: u64 = 0x3fd0_0000_0000_0000;

/// The bits of a binary64 four.
pub const FOUR: u64 = 0x4010_0000_0000_0000;

/// A size in pixels.
#[derive(Clone, Copy, Debug, Eq, PartialEq, Structural)]
pub struct PhysicalSize {
    pub width: u32,
    pub height: u32,
}

/// The scale within a quarter and four.
pub open spec fn clamped_scale(scale: F64) -> F64 {
    if scale.spec_lt(F64(QUARTER)) {
        F64(QUARTER)
    } else if F64(FOUR).spec_lt(scale) {
        F64(FOUR)
    } else {
        scale
    }
}

/// How often the unit of the last place of a scale, of which its significand counts so many, goes
/// into one.
pub open spec fn units_in_one(exponent: int) -> nat {
    if exponent == 1021 {
        0x40_0000_0000_0000
    } else if exponent == 1022 {
        0x20_0000_0000_0000
    } else if exponent == 1023 {
        0x10_0000_0000_0000
    } else if exponent == 1024 {
        0x8_0000_0000_0000
    } else {
        0x4_0000_0000_0000
    }
}

/// A length times a scale between a quarter and four: the product as the nearest binary64 number,
/// rounded to a whole number with halves away from zero, and brought within the limits.
pub open spec fn scaled(length: nat, scale: F64) -> u32 {
    let significand = 0x10_0000_0000_0000 + scale.spec_fraction();
    let product = clock::nearest_float((length * significand) as nat);
    let one = units_in_one(scale.spec_exponent());
    let whole = (product + one / 2) / one;
    if whole < 1 {
        1
    } else if whole > MAX_PHYSICAL_SIZE {
        MAX_PHYSICAL_SIZE
    } else {
        whole as u32
    }
}

fn scale_length(length: u32, scale: F64) -> (pixels: u32)
    requires
        length <= i32::MAX,
        1021 <= scale.spec_exponent() <= 1025,
    ensures
        pixels == scaled(length as nat, scale),
{
    let fraction: u128 = (scale.0 % 0x10_0000_0000_0000) as u128;
    let exponent: u64 = (scale.0 / 0x10_0000_0000_0000) % 0x800;
    let significand: u128 = 0x10_0000_0000_0000 + fraction;
    assert(length * significand <= 0x7fff_ffff * 0x20_0000_0000_0000) by (nonlinear_arith)
        requires
            length <= 0x7fff_ffff,
            significand <= 0x20_0000_0000_0000,
    ;
    let product: u128 = nearest_number(length as u128 * significand);
    let one: u128 = if exponent == 1021 {
        0x40_0000_0000_0000
    } else if exponent == 1022 {
        0x20_0000_0000_0000
    } else if exponent == 1023 {
        0x10_0000_0000_0000
    } else if exponent == 1024 {
        0x8_0000_0000_0000
    } else {
        0x4_0000_0000_0000
    };
    let whole: u128 = (product + one / 2) / one;
    if whole < 1 {
        1
    } else if whole > 4096 {
        MAX_PHYSICAL_SIZE
    } else {
        whole as u32
    }
}

proof fn lemma_scale_exponent(scale: F64)
    requires
        scale.spec_finite(),
    ensures
        1021 <= clamped_scale(scale).spec_exponent() <= 1025,
{
    assert(F64(QUARTER).spec_exponent() == 1021);
    assert(F64(FOUR).spec_exponent() == 1025);
    assert(!F64(QUARTER).spec_nan() && !F64(FOUR).spec_nan() && !scale.spec_nan());
    let bits = scale.0 as int;
    if !scale.spec_lt(F64(QUARTER)) && !F64(FOUR).spec_lt(scale) {
        assert(F64(QUARTER).rank() <= scale.rank() <= F64(FOUR).rank());
        assert(0x3fd0_0000_0000_0000 <= bits <= 0x4010_0000_0000_0000);
        assert(1021 <= bits / 0x10_0000_0000_0000 <= 1025);
    }
}

/// The size in pixels of a surface of a logical size. A surface without a size has none.
pub fn physical_size(logical_width: i32, logical_height: i32, device_pixel_ratio: F64) -> (size:
    Option<PhysicalSize>)
    ensures
        size == (if logical_width <= 0 || logical_height <= 0
            || !device_pixel_ratio.spec_finite() {
            None
        } else {
            let scale = clamped_scale(device_pixel_ratio);
            Some(
                PhysicalSize {
                    width: scaled(logical_width as nat, scale),
                    height: scaled(logical_height as nat, scale),
                },
            )
        }),
{
    if logical_width <= 0 || logical_height <= 0 || !device_pixel_ratio.is_finite() {
        return None;
    }
    let scale: F64 = if device_pixel_ratio.less_than(F64(QUARTER)) {
        F64(QUARTER)
    } else if F64(FOUR).less_than(device_pixel_ratio) {
        F64(FOUR)
    } else {
        device_pixel_ratio
    };
    proof {
        lemma_scale_exponent(device_pixel_ratio);
    }
    Some(
        PhysicalSize {
            width: scale_length(logical_width as u32, scale),
            height: scale_length(logical_height as u32, scale),
        },
    )
}

/// Every surface with a size has pixels, and no side is longer than the limit.
pub proof fn law_surfaces_are_bounded(length: nat, scale: F64)
    ensures
        1 <= scaled(length, scale) <= MAX_PHYSICAL_SIZE,
{
}

/// The scale of a surface is the one that is asked for, from a quarter up to four; a smaller one counts
/// as a quarter, a larger one as four.
pub proof fn law_scales_are_bounded(scale: F64)
    requires
        scale.spec_finite(),
    ensures
        0x3fd0_0000_0000_0000 <= clamped_scale(scale).rank() <= 0x4010_0000_0000_0000,
        0x3fd0_0000_0000_0000 <= scale.rank() <= 0x4010_0000_0000_0000 ==> clamped_scale(scale)
            == scale,
        scale.rank() < 0x3fd0_0000_0000_0000 ==> clamped_scale(scale).0 == 0x3fd0_0000_0000_0000,
        scale.rank() > 0x4010_0000_0000_0000 ==> clamped_scale(scale).0 == 0x4010_0000_0000_0000,
{
    assert(F64(QUARTER).spec_exponent() == 1021);
    assert(F64(FOUR).spec_exponent() == 1025);
}

/// A side is as many pixels long as its length times the scale, to within a pixel, unless that is none
/// or more than the longest. The scale is its significand over a power of two.
#[verifier::rlimit(60)]
pub proof fn law_sides_are_scaled(length: nat, scale: F64)
    requires
        length <= i32::MAX,
        1021 <= scale.spec_exponent() <= 1025,
        1 < scaled(length, scale) < 4096,
    ensures
        ({
            let one = 0x40_0000_0000_0000nat / pow2((scale.spec_exponent() - 1021) as nat);
            let product = length * (0x10_0000_0000_0000 + scale.spec_fraction());
            -one < scaled(length, scale) * one - product < one
        }),
{
    lemma2_to64();
    let exponent = scale.spec_exponent();
    let one = units_in_one(exponent);
    let shift = (exponent - 1021) as nat;
    assert(shift == 0 || shift == 1 || shift == 2 || shift == 3 || shift == 4);
    assert(pow2(0) == 1 && pow2(1) == 2 && pow2(2) == 4 && pow2(3) == 8 && pow2(4) == 16);
    if shift == 0 {
        assert(0x40_0000_0000_0000nat / pow2(0) == 0x40_0000_0000_0000);
    } else if shift == 1 {
        assert(0x40_0000_0000_0000nat / pow2(1) == 0x20_0000_0000_0000);
    } else if shift == 2 {
        assert(0x40_0000_0000_0000nat / pow2(2) == 0x10_0000_0000_0000);
    } else if shift == 3 {
        assert(0x40_0000_0000_0000nat / pow2(3) == 0x8_0000_0000_0000);
    } else {
        assert(0x40_0000_0000_0000nat / pow2(4) == 0x4_0000_0000_0000);
    }
    let significand = 0x10_0000_0000_0000 + scale.spec_fraction();
    assert(length * significand >= 0) by (nonlinear_arith)
        requires
            length >= 0,
            significand >= 0,
    ;
    let exact = (length * significand) as nat;
    let product = clock::nearest_float(exact);
    clock::law_long_times_are_rounded_to_the_nearest(exact);
    let unit = clock::float_unit(exact);
    let whole = (product + one / 2) / one;
    vstd::arithmetic::div_mod::lemma_fundamental_div_mod((product + one / 2) as int, one as int);
    vstd::arithmetic::div_mod::lemma_mod_bound((product + one / 2) as int, one as int);
    assert(one * whole == whole * one) by (nonlinear_arith);
    assert(whole * one < 4096 * one) by (nonlinear_arith)
        requires
            whole < 4096,
            one > 0,
    ;
    assert(product < 4096 * one);
    assert(exact <= product + unit);
    assert(unit * 0x1_0000 <= one) by {
        if unit > 1 {
            assert(0x10_0000_0000_0000 * unit <= exact);
            assert(0x10_0000_0000_0000 * unit <= 4096 * one + unit);
            assert(unit * 0x1_0000 <= one) by (nonlinear_arith)
                requires
                    0x10_0000_0000_0000 * unit <= 4096 * one + unit,
                    unit > 1,
            ;
        }
    }
}

} // verus!
