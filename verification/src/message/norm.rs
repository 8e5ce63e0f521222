//! The sum of squares of binary64 numbers, rounded step by step as IEEE 754 rounds it.
//!
//! A number is taken as a whole multiple of the smallest positive binary64 number, its quantum:
//! a significand below `2^53` times a power of two.

use crate::message::float::{self, F64};
use vstd::arithmetic::power2::*;
use vstd::prelude::*;

verus! {

/// The bits of positive infinity.
pub const INFINITY_BITS: u64 = 0x7ff0_0000_0000_0000;

/// The bits of the largest sum of squares whose square root rounds to `2^-52` or less.
pub const NEGLIGIBLE_BITS: u64 = 0x3970_0000_0000_0001;

/// The significand of a finite number, with its leading bit.
pub open spec fn significand(value: F64) -> nat {
    if value.spec_exponent() == 0 {
        value.spec_fraction() as nat
    } else {
        (0x10_0000_0000_0000 + value.spec_fraction()) as nat
    }
}

/// The power of two by which the significand counts quanta.
pub open spec fn scale(value: F64) -> nat {
    if value.spec_exponent() == 0 {
        0
    } else {
        (value.spec_exponent() - 1) as nat
    }
}

/// How many binary digits a number has.
pub open spec fn bit_length(value: nat) -> nat
    decreases value,
{
    if value == 0 {
        0
    } else {
        1 + bit_length(value / 2)
    }
}

/// `value * 2^power`, rounded to a whole number; of two equally near, to the even one.
pub open spec fn scaled(value: nat, power: int) -> nat {
    if power >= 0 {
        value * pow2(power as nat)
    } else {
        float::half_even(value, pow2((-power) as nat))
    }
}

/// The power of two that leaves 53 significant digits of `value * 2^power` quanta, or all of
/// them where there are fewer.
pub open spec fn spacing(value: nat, power: int) -> int {
    if value > 0 && bit_length(value) + power > 53 {
        bit_length(value) + power - 53
    } else {
        0
    }
}

/// The bits of the number nearest to `value * 2^power` quanta, or of infinity.
pub open spec fn packed(value: nat, power: int) -> int {
    let unit = spacing(value, power);
    let bits = unit * 0x10_0000_0000_0000 + scaled(value, power - unit);
    if bits >= INFINITY_BITS {
        INFINITY_BITS as int
    } else {
        bits
    }
}

/// The bits of the rounded square of a finite number.
pub open spec fn square_bits(value: F64) -> int {
    packed(significand(value) * significand(value), 2 * scale(value) - 1074)
}

/// The bits of the rounded sum of two numbers that are not negative.
pub open spec fn sum_bits(first: F64, second: F64) -> int {
    if !first.spec_finite() || !second.spec_finite() {
        INFINITY_BITS as int
    } else if scale(first) >= scale(second) {
        packed(
            significand(first) * pow2((scale(first) - scale(second)) as nat) + significand(second),
            scale(second) as int,
        )
    } else {
        packed(
            significand(second) * pow2((scale(second) - scale(first)) as nat) + significand(first),
            scale(first) as int,
        )
    }
}

/// The bits of the rounded sum of the squares of the first `count` numbers.
pub open spec fn square_sum_bits(values: Seq<F64>, count: int) -> int
    decreases count,
{
    if count <= 0 {
        0
    } else {
        sum_bits(
            F64(square_sum_bits(values, count - 1) as u64),
            F64(square_bits(values[count - 1]) as u64),
        )
    }
}

/// The norm of the numbers is finite and greater than `2^-52`.
pub open spec fn norm_usable(values: Seq<F64>) -> bool {
    NEGLIGIBLE_BITS < square_sum_bits(values, values.len() as int) < INFINITY_BITS
}

proof fn lemma_bit_length(value: nat)
    ensures
        value < pow2(bit_length(value)),
        value > 0 ==> bit_length(value) > 0 && pow2((bit_length(value) - 1) as nat) <= value,
    decreases value,
{
    if value == 0 {
        lemma2_to64();
    } else {
        lemma_bit_length(value / 2);
        lemma_pow2_unfold(bit_length(value));
        if value / 2 > 0 {
            lemma_pow2_unfold((bit_length(value) - 1) as nat);
        } else {
            lemma2_to64();
        }
    }
}

proof fn lemma_bit_length_is_unique(value: nat, length: nat)
    requires
        value < pow2(length),
        length > 0,
        pow2((length - 1) as nat) <= value,
    ensures
        bit_length(value) == length,
{
    lemma_pow2_pos((length - 1) as nat);
    lemma_bit_length(value);
    let found = bit_length(value);
    if found < length {
        if found < length - 1 {
            lemma_pow2_strictly_increases(found, (length - 1) as nat);
        }
    } else if length < found {
        if length < found - 1 {
            lemma_pow2_strictly_increases(length, (found - 1) as nat);
        }
    }
}

fn digits(value: u128) -> (count: u32)
    ensures
        count == bit_length(value as nat),
        count <= 128,
    decreases value,
{
    proof {
        lemma_bit_length(value as nat);
        if bit_length(value as nat) > 128 {
            lemma_pow2_strictly_increases(127, (bit_length(value as nat) - 1) as nat);
            lemma_pow2_adds(64, 64);
            lemma2_to64_rest();
            if bit_length(value as nat) - 1 > 128 {
                lemma_pow2_strictly_increases(128, (bit_length(value as nat) - 1) as nat);
            }
        }
    }
    if value == 0 {
        0
    } else {
        1 + digits(value / 2)
    }
}

/// A power of two up to `2^127`.
fn power_of_two(power: u32) -> (value: u128)
    requires
        power <= 127,
    ensures
        value == pow2(power as nat),
{
    let mut value: u128 = 1;
    let mut reached: u32 = 0;
    proof {
        lemma2_to64();
    }
    while reached < power
        invariant
            reached <= power <= 127,
            value == pow2(reached as nat),
        decreases power - reached,
    {
        proof {
            lemma_pow2_unfold((reached + 1) as nat);
            lemma_pow2_adds(64, 63);
            lemma2_to64_rest();
            if reached + 1 < 127 {
                lemma_pow2_strictly_increases((reached + 1) as nat, 127);
            }
        }
        value = 2 * value;
        reached = reached + 1;
    }
    value
}

/// The whole number nearest to `value / 2^power`.
fn shifted_down(value: u128, power: u32) -> (nearest: u128)
    requires
        power >= 1,
    ensures
        nearest == float::half_even(value as nat, pow2(power as nat)),
        nearest <= value / 2 + 1,
{
    proof {
        lemma_pow2_pos(power as nat);
        lemma2_to64();
        if power > 1 {
            lemma_pow2_strictly_increases(1, power as nat);
        }
    }
    if power > 127 {
        proof {
            lemma_pow2_unfold(power as nat);
            lemma_pow2_adds(64, 64);
            lemma2_to64_rest();
            if power > 128 {
                lemma_pow2_strictly_increases(128, power as nat);
            }
        }
        if power == 128 {
            // Only this power lets a value of 128 digits reach one half.
            let half: u128 = power_of_two(127);
            proof {
                lemma_pow2_unfold(128);
                vstd::arithmetic::div_mod::lemma_small_mod(value as nat, pow2(128));
                vstd::arithmetic::div_mod::lemma_basic_div(value as int, pow2(128) as int);
            }
            if value <= half {
                0
            } else {
                1
            }
        } else {
            proof {
                if power > 129 {
                    lemma_pow2_strictly_increases(129, power as nat);
                }
                lemma_pow2_unfold(129);
                vstd::arithmetic::div_mod::lemma_small_mod(value as nat, pow2(power as nat));
                vstd::arithmetic::div_mod::lemma_basic_div(
                    value as int,
                    pow2(power as nat) as int,
                );
            }
            0
        }
    } else {
        let unit: u128 = power_of_two(power);
        let below: u128 = value / unit;
        let rest: u128 = value % unit;
        let complement: u128 = unit - rest;
        assert(below <= value / 2) by (nonlinear_arith)
            requires
                below == value / unit,
                unit >= 2,
        ;
        if rest < complement || (rest == complement && below % 2 == 0) {
            below
        } else {
            below + 1
        }
    }
}

/// Fifty-three digits are left, or one more than that after rounding up.
proof fn lemma_scaled_bound(value: nat, power: int)
    ensures
        scaled(value, power - spacing(value, power)) <= 0x20_0000_0000_0000,
{
    lemma2_to64_rest();
    let left = power - spacing(value, power);
    let length = bit_length(value);
    lemma_bit_length(value);
    if value == 0 {
        if left >= 0 {
            assert(0 * pow2(left as nat) == 0) by (nonlinear_arith);
        } else {
            lemma_pow2_pos((-left) as nat);
        }
    } else if left >= 0 {
        lemma_pow2_adds(length, left as nat);
        lemma_pow2_pos(left as nat);
        assert(value * pow2(left as nat) <= pow2(length) * pow2(left as nat)) by (nonlinear_arith)
            requires
                value <= pow2(length),
        ;
        if length + left < 53 {
            lemma_pow2_strictly_increases((length + left) as nat, 53);
        }
    } else {
        let unit = pow2((-left) as nat);
        lemma_pow2_pos((-left) as nat);
        if length + left < 0 {
            lemma_pow2_strictly_increases(length, (-left) as nat);
            vstd::arithmetic::div_mod::lemma_basic_div(value as int, unit as int);
        } else {
            lemma_pow2_adds((length + left) as nat, (-left) as nat);
            if length + left < 53 {
                lemma_pow2_strictly_increases((length + left) as nat, 53);
            }
            let bound = pow2((length + left) as nat);
            assert(value / unit < bound) by (nonlinear_arith)
                requires
                    value < bound * unit,
                    unit > 0,
            ;
        }
    }
}

/// The bits of the number nearest to `value * 2^power` quanta, or of infinity.
fn pack(value: u128, power: i32) -> (bits: u64)
    requires
        -2000 <= power <= 3200,
    ensures
        bits == packed(value as nat, power as int),
        bits <= INFINITY_BITS,
{
    let count: i32 = digits(value) as i32;
    let unit: i32 = if value > 0 && count + power > 53 {
        count + power - 53
    } else {
        0
    };
    let left: i32 = power - unit;
    proof {
        lemma_scaled_bound(value as nat, power as int);
        lemma_bit_length(value as nat);
        lemma2_to64_rest();
    }
    let rest: u128 = if value == 0 {
        proof {
            if left >= 0 {
                assert(0 * pow2(left as nat) == 0) by (nonlinear_arith);
            } else {
                lemma_pow2_pos((-left) as nat);
            }
        }
        0
    } else if left >= 0 {
        value * power_of_two(left as u32)
    } else {
        shifted_down(value, (-left) as u32)
    };
    let bits: u64 = unit as u64 * 0x10_0000_0000_0000 + rest as u64;
    if bits >= INFINITY_BITS {
        INFINITY_BITS
    } else {
        bits
    }
}

fn significand_of(value: F64) -> (significand: u64)
    ensures
        significand == self::significand(value),
        significand < 0x20_0000_0000_0000,
{
    let exponent: u64 = (value.0 / 0x10_0000_0000_0000) % 0x800;
    if exponent == 0 {
        value.0 % 0x10_0000_0000_0000
    } else {
        0x10_0000_0000_0000 + value.0 % 0x10_0000_0000_0000
    }
}

fn scale_of(value: F64) -> (scale: u64)
    ensures
        scale == self::scale(value),
        scale < 0x7ff,
        value.spec_finite() ==> scale <= 2045,
{
    let exponent: u64 = (value.0 / 0x10_0000_0000_0000) % 0x800;
    if exponent == 0 {
        0
    } else {
        exponent - 1
    }
}

/// The rounded square of a finite number.
fn square(value: F64) -> (square: F64)
    requires
        value.spec_finite(),
    ensures
        square.0 == square_bits(value),
        square.0 <= INFINITY_BITS,
{
    let factor: u128 = significand_of(value) as u128;
    let power: i32 = 2 * scale_of(value) as i32 - 1074;
    assert(factor * factor <= 0x20_0000_0000_0000 * 0x20_0000_0000_0000) by (nonlinear_arith)
        requires
            factor <= 0x20_0000_0000_0000,
    ;
    F64(pack(factor * factor, power))
}

/// A number that is far smaller does not change a sum.
proof fn lemma_far_sum(large: nat, small: nat, distance: nat, power: nat)
    requires
        0x10_0000_0000_0000 <= large < 0x20_0000_0000_0000,
        small < 0x20_0000_0000_0000,
        distance >= 55,
        power + distance <= 2045,
    ensures
        packed(large * pow2(distance) + small, power as int) == (power + distance)
            * 0x10_0000_0000_0000 + large,
{
    let unit = pow2(distance);
    let total = large * unit + small;
    lemma2_to64_rest();
    lemma_pow2_unfold(distance);
    if distance > 55 {
        lemma_pow2_strictly_increases(55, distance);
    }
    assert(2 * small < unit);
    lemma_pow2_adds(53, distance);
    lemma_pow2_adds(52, distance);
    let length = 53 + distance;
    assert(total < pow2(length)) by (nonlinear_arith)
        requires
            total == large * unit + small,
            large + 1 <= 0x20_0000_0000_0000,
            small < unit,
            pow2(length) == 0x20_0000_0000_0000 * unit,
    ;
    assert(pow2((length - 1) as nat) <= total) by (nonlinear_arith)
        requires
            total == large * unit + small,
            0x10_0000_0000_0000 <= large,
            pow2((length - 1) as nat) == 0x10_0000_0000_0000 * unit,
    ;
    lemma_bit_length_is_unique(total, length);
    assert(spacing(total, power as int) == power + distance);
    assert(total / unit == large && total % unit == small) by {
        vstd::arithmetic::div_mod::lemma_fundamental_div_mod_converse(
            total as int,
            unit as int,
            large as int,
            small as int,
        );
        assert(unit * large == large * unit) by (nonlinear_arith);
    }
}

/// The rounded sum of two numbers that are not negative.
fn sum(first: F64, second: F64) -> (sum: F64)
    requires
        first.0 <= INFINITY_BITS,
        second.0 <= INFINITY_BITS,
    ensures
        sum.0 == sum_bits(first, second),
        sum.0 <= INFINITY_BITS,
{
    if !first.is_finite() || !second.is_finite() {
        return F64(INFINITY_BITS);
    }
    if scale_of(first) >= scale_of(second) {
        larger_first(first, second)
    } else {
        larger_first(second, first)
    }
}

fn larger_first(large: F64, small: F64) -> (sum: F64)
    requires
        large.0 <= INFINITY_BITS,
        small.0 <= INFINITY_BITS,
        large.spec_finite(),
        small.spec_finite(),
        scale(large) >= scale(small),
    ensures
        sum.0 == packed(
            significand(large) * pow2((scale(large) - scale(small)) as nat) + significand(small),
            scale(small) as int,
        ),
        sum.0 <= INFINITY_BITS,
{
    let power: u64 = scale_of(small);
    let distance: u64 = scale_of(large) - power;
    let first: u64 = significand_of(large);
    let second: u64 = significand_of(small);
    if distance >= 60 {
        proof {
            lemma_far_sum(first as nat, second as nat, distance as nat, power as nat);
        }
        large
    } else {
        let unit: u128 = power_of_two(distance as u32);
        proof {
            lemma2_to64_rest();
            lemma_pow2_strictly_increases(distance as nat, 60);
            assert(first * unit <= 0x20_0000_0000_0000 * 0x1000_0000_0000_0000) by (nonlinear_arith)
                requires
                    first <= 0x20_0000_0000_0000,
                    unit <= 0x1000_0000_0000_0000,
            ;
        }
        F64(pack(first as u128 * unit + second as u128, power as i32))
    }
}

/// Whether the norm of finite numbers is finite and greater than `2^-52`.
pub fn is_norm_usable(values: &[F64]) -> (usable: bool)
    requires
        forall|i: int| 0 <= i < values@.len() ==> (#[trigger] values@[i]).spec_finite(),
    ensures
        usable == norm_usable(values@),
{
    let mut total: F64 = F64(0);
    let mut index: usize = 0;
    while index < values.len()
        invariant
            index <= values@.len(),
            forall|i: int| 0 <= i < values@.len() ==> (#[trigger] values@[i]).spec_finite(),
            total.0 == square_sum_bits(values@, index as int),
            total.0 <= INFINITY_BITS,
        decreases values@.len() - index,
    {
        total = sum(total, square(values[index]));
        index = index + 1;
    }
    NEGLIGIBLE_BITS < total.0 && total.0 < INFINITY_BITS
}

/// The exponent of a packed number is that of the number, or one more.
#[verifier::rlimit(60)]
proof fn lemma_packed_exponent(value: nat, power: int)
    requires
        value > 0,
        bit_length(value) + power >= 54,
        bit_length(value) + power <= 2000,
    ensures
        ({
            let unit = bit_length(value) + power - 53;
            (unit + 1) * 0x10_0000_0000_0000 <= packed(value, power) <= (unit + 2)
                * 0x10_0000_0000_0000
        }),
{
    let length = bit_length(value);
    let left = 53 - length;
    lemma_bit_length(value);
    lemma_scaled_bound(value, power);
    lemma2_to64_rest();
    assert(spacing(value, power) == length + power - 53);
    assert(scaled(value, left) >= 0x10_0000_0000_0000) by {
        if left >= 0 {
            lemma_pow2_adds((length - 1) as nat, left as nat);
            assert(value * pow2(left as nat) >= pow2((length - 1) as nat) * pow2(left as nat))
                by (nonlinear_arith)
                requires
                    value >= pow2((length - 1) as nat),
            ;
        } else {
            let unit = pow2((-left) as nat);
            lemma_pow2_pos((-left) as nat);
            lemma_pow2_adds(52, (-left) as nat);
            assert(value / unit >= 0x10_0000_0000_0000) by (nonlinear_arith)
                requires
                    value >= 0x10_0000_0000_0000 * unit,
                    unit > 0,
            ;
        }
    }
}

/// A packed number is no larger than its digits allow.
proof fn lemma_packed_bound(value: nat, power: int, most: int)
    requires
        bit_length(value) + power <= most + 53,
        0 <= most <= 2000,
    ensures
        0 <= packed(value, power) <= (most + 2) * 0x10_0000_0000_0000,
{
    lemma_scaled_bound(value, power);
}

#[verifier::rlimit(60)]
proof fn lemma_square_exponent(value: F64)
    requires
        value.spec_exponent() <= 1023,
    ensures
        0 <= square_bits(value) <= 1025 * 0x10_0000_0000_0000,
        value.spec_exponent() >= 1013 ==> square_bits(value) >= 1003 * 0x10_0000_0000_0000,
{
    let factor = significand(value);
    let product = factor * factor;
    let power = 2 * scale(value) - 1074;
    assert(product < 0x20_0000_0000_0000 * 0x20_0000_0000_0000) by (nonlinear_arith)
        requires
            product == factor * factor,
            factor < 0x20_0000_0000_0000,
    ;
    lemma2_to64_rest();
    lemma_pow2_adds(53, 53);
    lemma_pow2_adds(52, 52);
    lemma_bit_length(product);
    let length = bit_length(product);
    if length > 106 {
        if length > 107 {
            lemma_pow2_strictly_increases(106, (length - 1) as nat);
        }
    }
    lemma_packed_bound(product, power, 1023);
    if value.spec_exponent() >= 1013 {
        assert(product >= 0x10_0000_0000_0000 * 0x10_0000_0000_0000) by (nonlinear_arith)
            requires
                product == factor * factor,
                factor >= 0x10_0000_0000_0000,
        ;
        if length < 105 {
            if length < 104 {
                lemma_pow2_strictly_increases(length, 104);
            }
        }
        lemma_packed_exponent(product, power);
    }
}

#[verifier::rlimit(60)]
proof fn lemma_sum_exponent(large: F64, small: F64)
    requires
        large.0 <= 1100 * 0x10_0000_0000_0000,
        small.0 <= 1100 * 0x10_0000_0000_0000,
        scale(large) >= scale(small),
    ensures
        ({
            let bits = packed(
                significand(large) * pow2((scale(large) - scale(small)) as nat) + significand(
                    small,
                ),
                scale(small) as int,
            );
            &&& 0 <= bits <= (scale(large) + 3) * 0x10_0000_0000_0000
            &&& scale(large) >= 1002 ==> bits >= (scale(large) + 1) * 0x10_0000_0000_0000
        }),
{
    let distance = (scale(large) - scale(small)) as nat;
    let unit = pow2(distance);
    let total = significand(large) * unit + significand(small);
    lemma2_to64_rest();
    lemma_pow2_pos(distance);
    lemma_pow2_adds(54, distance);
    lemma_pow2_adds(52, distance);
    assert(pow2(54) == 0x40_0000_0000_0000);
    assert(total < pow2(54 + distance)) by (nonlinear_arith)
        requires
            total == significand(large) * unit + significand(small),
            significand(large) < 0x20_0000_0000_0000,
            significand(small) < 0x20_0000_0000_0000,
            unit >= 1,
            pow2(54 + distance) == 0x40_0000_0000_0000 * unit,
    ;
    lemma_bit_length(total);
    let length = bit_length(total);
    if length > 54 + distance {
        if length - 1 > 54 + distance {
            lemma_pow2_strictly_increases(54 + distance, (length - 1) as nat);
        }
    }
    lemma_packed_bound(total, scale(small) as int, scale(large) as int + 1);
    if scale(large) >= 1002 {
        assert(total >= 0x10_0000_0000_0000 * unit) by (nonlinear_arith)
            requires
                total == significand(large) * unit + significand(small),
                significand(large) >= 0x10_0000_0000_0000,
        ;
        if length < 53 + distance {
            if length < 52 + distance {
                lemma_pow2_strictly_increases(length, 52 + distance);
            }
        }
        lemma_packed_exponent(total, scale(small) as int);
    }
}

proof fn lemma_fields(value: F64, most: int)
    requires
        value.0 <= most * 0x10_0000_0000_0000,
        1 <= most <= 1100,
    ensures
        value.spec_finite(),
        scale(value) + 1 <= most,
        value.0 >= 1003 * 0x10_0000_0000_0000 ==> scale(value) >= 1002,
{
}

#[verifier::rlimit(60)]
proof fn lemma_sum(first: F64, second: F64, most: int)
    requires
        first.0 <= most * 0x10_0000_0000_0000,
        second.0 <= most * 0x10_0000_0000_0000,
        1 <= most <= 1100,
    ensures
        0 <= sum_bits(first, second) <= (most + 2) * 0x10_0000_0000_0000,
        first.0 >= 1003 * 0x10_0000_0000_0000 || second.0 >= 1003 * 0x10_0000_0000_0000
            ==> sum_bits(first, second) >= 1003 * 0x10_0000_0000_0000,
{
    lemma_fields(first, most);
    lemma_fields(second, most);
    if scale(first) >= scale(second) {
        lemma_sum_exponent(first, second);
    } else {
        lemma_sum_exponent(second, first);
    }
}

#[verifier::rlimit(60)]
proof fn lemma_square_sums(values: Seq<F64>, count: int, index: int)
    requires
        0 <= count <= values.len() <= 4,
        forall|i: int| 0 <= i < values.len() ==> (#[trigger] values[i]).spec_exponent() <= 1023,
        0 <= index < values.len(),
        values[index].spec_exponent() >= 1013,
    ensures
        0 <= square_sum_bits(values, count) <= (1025 + 3 * count) * 0x10_0000_0000_0000,
        index < count ==> square_sum_bits(values, count) >= 1003 * 0x10_0000_0000_0000,
    decreases count,
{
    if count > 0 {
        lemma_square_sums(values, count - 1, index);
        assert(values[count - 1].spec_exponent() <= 1023);
        lemma_square_exponent(values[count - 1]);
        lemma_sum(
            F64(square_sum_bits(values, count - 1) as u64),
            F64(square_bits(values[count - 1]) as u64),
            1025 + 3 * (count - 1),
        );
    }
}

/// Four numbers below two, of which one is not below `2^-10`, have a norm that can be divided by.
pub proof fn law_ordinary_numbers_have_a_norm(values: Seq<F64>, index: int)
    requires
        values.len() == 4,
        forall|i: int| 0 <= i < 4 ==> (#[trigger] values[i]).spec_exponent() <= 1023,
        0 <= index < 4,
        values[index].spec_exponent() >= 1013,
    ensures
        norm_usable(values),
{
    lemma_square_sums(values, 4, index);
}

/// Zeros have no norm that could be divided by.
pub proof fn law_zeros_have_no_norm(values: Seq<F64>)
    requires
        forall|i: int| 0 <= i < values.len() ==> (#[trigger] values[i]).rank() == 0,
    ensures
        !norm_usable(values),
{
    lemma_zero_sums(values, values.len() as int);
}

proof fn lemma_zero_sums(values: Seq<F64>, count: int)
    requires
        0 <= count <= values.len(),
        forall|i: int| 0 <= i < values.len() ==> (#[trigger] values[i]).rank() == 0,
    ensures
        square_sum_bits(values, count) == 0,
    decreases count,
{
    if count > 0 {
        lemma_zero_sums(values, count - 1);
        let value = values[count - 1];
        assert(value.0 == 0 || value.0 == 0x8000_0000_0000_0000);
        assert(significand(value) == 0 && scale(value) == 0);
        lemma_packed_zero(-1074);
        lemma_packed_zero(0);
        assert(square_bits(value) == 0);
        let none = F64(0);
        assert(significand(none) == 0 && scale(none) == 0 && none.spec_finite());
        assert(0 * pow2(0) + 0 == 0) by (nonlinear_arith);
    }
}

proof fn lemma_packed_zero(power: int)
    ensures
        packed(0, power) == 0,
{
    if power >= 0 {
        assert(0 * pow2(power as nat) == 0) by (nonlinear_arith);
    } else {
        lemma_pow2_pos((-power) as nat);
        vstd::arithmetic::div_mod::lemma_basic_div(0, pow2((-power) as nat) as int);
        vstd::arithmetic::div_mod::lemma_small_mod(0, pow2((-power) as nat));
    }
}

} // verus!
