//! IEEE 754 numbers held as their bit patterns, with the tests that the codecs make on them.

use vstd::arithmetic::power2::*;
use vstd::prelude::*;

verus! {

/// A binary64 number, held as its bit pattern.
#[derive(Clone, Copy, Debug, PartialEq, Eq, Hash, Structural)]
pub struct F64(pub u64);

/// A binary32 number, held as its bit pattern.
#[derive(Clone, Copy, Debug, PartialEq, Eq, Hash, Structural)]
pub struct F32(pub u32);

/// `value / unit` rounded to the nearest whole number; of two equally near, to the even one.
pub open spec fn half_even(value: nat, unit: nat) -> nat {
    let below = value / unit;
    let rest = value % unit;
    if 2 * rest < unit || (2 * rest == unit && below % 2 == 0) {
        below
    } else {
        below + 1
    }
}

/// `value / unit` rounded to the nearest whole number; of two equally near, to the even one.
fn rounded(value: u64, unit: u64) -> (nearest: u64)
    requires
        1 < unit <= 0x4000_0000_0000_0000,
    ensures
        nearest == half_even(value as nat, unit as nat),
        nearest <= value / unit + 1,
{
    let below: u64 = value / unit;
    let rest: u64 = value % unit;
    assert(below < u64::MAX) by (nonlinear_arith)
        requires
            below == value / unit,
            1 < unit,
            value <= u64::MAX,
    ;
    if 2 * rest < unit || (2 * rest == unit && below % 2 == 0) {
        below
    } else {
        below + 1
    }
}

/// The bits, but for the sign, of the binary32 number nearest to a finite binary64 number with
/// the given exponent and fraction fields.
pub open spec fn narrowed_magnitude(exponent: int, fraction: int) -> int {
    let significand = (0x10_0000_0000_0000 + fraction) as nat;
    if exponent > 1150 {
        0x7f80_0000
    } else if exponent >= 897 {
        (exponent - 897) * 0x80_0000 + half_even(significand, 0x2000_0000)
    } else if exponent >= 873 {
        half_even(significand, pow2((926 - exponent) as nat)) as int
    } else {
        0
    }
}

impl F64 {
    /// The nearest binary32 number. Too large a number becomes an infinity.
    pub open spec fn spec_narrowed(self) -> F32 {
        let sign: int = if self.0 >= 0x8000_0000_0000_0000 {
            0x8000_0000
        } else {
            0
        };
        F32((sign + narrowed_magnitude(self.spec_exponent(), self.spec_fraction())) as u32)
    }

    /// The nearest binary32 number to any number: infinities stay, and every NaN becomes the plain
    /// one.
    pub open spec fn spec_single(self) -> F32 {
        if self.spec_finite() {
            self.spec_narrowed()
        } else if self.spec_nan() {
            F32(0x7fc0_0000)
        } else if self.0 >= 0x8000_0000_0000_0000 {
            F32(0xff80_0000)
        } else {
            F32(0x7f80_0000)
        }
    }

    /// The nearest binary32 number to any number.
    pub fn single(self) -> (narrow: F32)
        ensures
            narrow == self.spec_single(),
    {
        if self.is_finite() {
            self.narrowed()
        } else if self.is_nan() {
            F32(0x7fc0_0000)
        } else if self.0 >= 0x8000_0000_0000_0000 {
            F32(0xff80_0000)
        } else {
            F32(0x7f80_0000)
        }
    }

    /// The number with the opposite sign.
    pub open spec fn spec_negated(self) -> Self {
        if self.0 < 0x8000_0000_0000_0000 {
            F64((self.0 + 0x8000_0000_0000_0000) as u64)
        } else {
            F64((self.0 - 0x8000_0000_0000_0000) as u64)
        }
    }

    /// The number with the opposite sign.
    pub fn negated(self) -> (negated: Self)
        ensures
            negated == self.spec_negated(),
    {
        if self.0 < 0x8000_0000_0000_0000 {
            F64(self.0 + 0x8000_0000_0000_0000)
        } else {
            F64(self.0 - 0x8000_0000_0000_0000)
        }
    }

    /// The nearest binary32 number. Too large a number becomes an infinity.
    pub fn narrowed(self) -> (narrow: F32)
        requires
            self.spec_finite(),
        ensures
            narrow == self.spec_narrowed(),
    {
        let exponent: u64 = (self.0 / 0x10_0000_0000_0000) % 0x800;
        let significand: u64 = 0x10_0000_0000_0000 + self.0 % 0x10_0000_0000_0000;
        let magnitude: u64 = if exponent > 1150 {
            0x7f80_0000
        } else if exponent >= 897 {
            (exponent - 897) * 0x80_0000 + rounded(significand, 0x2000_0000)
        } else if exponent >= 873 {
            let mut unit: u64 = 0x2000_0000;
            let mut reached: u64 = 897;
            proof {
                lemma2_to64();
            }
            while reached > exponent
                invariant
                    873 <= exponent <= reached <= 897,
                    unit == pow2((926 - reached) as nat),
                    0x2000_0000 <= unit <= 0x20_0000_0000_0000,
                decreases reached - exponent,
            {
                proof {
                    lemma_pow2_unfold((927 - reached) as nat);
                    lemma2_to64_rest();
                    if reached > 874 {
                        lemma_pow2_strictly_increases(
                            (927 - reached) as nat,
                            53,
                        );
                    }
                }
                unit = 2 * unit;
                reached = reached - 1;
            }
            assert(significand / unit <= 0x100_0000) by (nonlinear_arith)
                requires
                    significand < 0x20_0000_0000_0000,
                    unit >= 0x2000_0000,
            ;
            rounded(significand, unit)
        } else {
            0
        };
        assert(magnitude <= 0x7f80_0000);
        let sign: u64 = if self.0 >= 0x8000_0000_0000_0000 {
            0x8000_0000
        } else {
            0
        };
        F32((sign + magnitude) as u32)
    }

    /// The biased exponent field.
    pub open spec fn spec_exponent(self) -> int {
        (self.0 as int / 0x10_0000_0000_0000) % 0x800
    }

    /// The fraction field.
    pub open spec fn spec_fraction(self) -> int {
        self.0 as int % 0x10_0000_0000_0000
    }

    /// Neither an infinity nor a NaN: the exponent field is not all ones.
    pub open spec fn spec_finite(self) -> bool {
        self.spec_exponent() != 0x7ff
    }

    pub open spec fn spec_nan(self) -> bool {
        self.spec_exponent() == 0x7ff && self.spec_fraction() != 0
    }

    /// A number that orders as the represented value does; the two zeros share one rank.
    pub open spec fn rank(self) -> int {
        if self.0 < 0x8000_0000_0000_0000 {
            self.0 as int
        } else {
            0x8000_0000_0000_0000 - self.0 as int
        }
    }

    /// The IEEE comparison `self < other`, false where either side is a NaN.
    pub open spec fn spec_lt(self, other: Self) -> bool {
        !self.spec_nan() && !other.spec_nan() && self.rank() < other.rank()
    }

    /// The IEEE comparison `self == other`, under which the two zeros are equal.
    pub open spec fn spec_same(self, other: Self) -> bool {
        !self.spec_nan() && !other.spec_nan() && self.rank() == other.rank()
    }

    pub fn is_finite(self) -> (finite: bool)
        ensures
            finite == self.spec_finite(),
    {
        (self.0 / 0x10_0000_0000_0000) % 0x800 != 0x7ff
    }

    pub fn is_nan(self) -> (nan: bool)
        ensures
            nan == self.spec_nan(),
    {
        (self.0 / 0x10_0000_0000_0000) % 0x800 == 0x7ff && self.0 % 0x10_0000_0000_0000 != 0
    }

    fn signed_rank(self) -> (rank: i64)
        ensures
            rank == self.rank(),
    {
        if self.0 < 0x8000_0000_0000_0000 {
            self.0 as i64
        } else {
            -((self.0 - 0x8000_0000_0000_0000) as i64)
        }
    }

    /// Whether this number is less than the other.
    pub fn less_than(self, other: Self) -> (less: bool)
        ensures
            less == self.spec_lt(other),
    {
        !self.is_nan() && !other.is_nan() && self.signed_rank() < other.signed_rank()
    }

    /// Whether the two numbers compare equal.
    pub fn same_value(self, other: Self) -> (same: bool)
        ensures
            same == self.spec_same(other),
    {
        !self.is_nan() && !other.is_nan() && self.signed_rank() == other.signed_rank()
    }
}

impl F32 {
    /// The biased exponent field.
    pub open spec fn spec_exponent(self) -> int {
        (self.0 as int / 0x80_0000) % 0x100
    }

    /// The fraction field.
    pub open spec fn spec_fraction(self) -> int {
        self.0 as int % 0x80_0000
    }

    /// Neither an infinity nor a NaN: the exponent field is not all ones.
    pub open spec fn spec_finite(self) -> bool {
        self.spec_exponent() != 0xff
    }

    pub open spec fn spec_nan(self) -> bool {
        self.spec_exponent() == 0xff && self.spec_fraction() != 0
    }

    /// A number that orders as the represented value does; the two zeros share one rank.
    pub open spec fn rank(self) -> int {
        if self.0 < 0x8000_0000 {
            self.0 as int
        } else {
            0x8000_0000 - self.0 as int
        }
    }

    /// The IEEE comparison `self < other`, false where either side is a NaN.
    pub open spec fn spec_lt(self, other: Self) -> bool {
        !self.spec_nan() && !other.spec_nan() && self.rank() < other.rank()
    }

    /// The number with the opposite sign.
    pub open spec fn spec_negated(self) -> Self {
        if self.0 < 0x8000_0000 {
            F32((self.0 + 0x8000_0000) as u32)
        } else {
            F32((self.0 - 0x8000_0000) as u32)
        }
    }

    pub fn is_finite(self) -> (finite: bool)
        ensures
            finite == self.spec_finite(),
    {
        (self.0 / 0x80_0000) % 0x100 != 0xff
    }

    pub fn is_nan(self) -> (nan: bool)
        ensures
            nan == self.spec_nan(),
    {
        (self.0 / 0x80_0000) % 0x100 == 0xff && self.0 % 0x80_0000 != 0
    }

    /// Whether this number is zero, of either sign.
    pub fn is_zero(self) -> (zero: bool)
        ensures
            zero == (self.rank() == 0),
    {
        self.0 == 0 || self.0 == 0x8000_0000
    }

    fn signed_rank(self) -> (rank: i64)
        ensures
            rank == self.rank(),
    {
        if self.0 < 0x8000_0000 {
            self.0 as i64
        } else {
            0x8000_0000 - self.0 as i64
        }
    }

    /// Whether this number is less than the other.
    pub fn less_than(self, other: Self) -> (less: bool)
        ensures
            less == self.spec_lt(other),
    {
        !self.is_nan() && !other.is_nan() && self.signed_rank() < other.signed_rank()
    }

    /// The number with the opposite sign.
    pub fn negated(self) -> (negated: Self)
        ensures
            negated == self.spec_negated(),
    {
        if self.0 < 0x8000_0000 {
            F32(self.0 + 0x8000_0000)
        } else {
            F32(self.0 - 0x8000_0000)
        }
    }
}

/// Negating twice gives the number back, and reverses its rank once.
pub proof fn law_negation_undoes_itself(value: F32)
    ensures
        value.spec_negated().spec_negated() == value,
        value.spec_negated().rank() == -value.rank(),
{
}

/// Rounding goes to a nearest whole number, and half way between two of them to the even one.
pub proof fn law_rounding_is_to_the_nearest(value: nat, unit: nat)
    requires
        unit > 0,
    ensures
        2 * (half_even(value, unit) * unit - value) <= unit,
        2 * (value - half_even(value, unit) * unit) <= unit,
        2 * (half_even(value, unit) * unit - value) == unit || 2 * (value - half_even(value, unit)
            * unit) == unit ==> half_even(value, unit) % 2 == 0,
{
    let below = value / unit;
    let rest = value % unit;
    vstd::arithmetic::div_mod::lemma_fundamental_div_mod(value as int, unit as int);
    vstd::arithmetic::div_mod::lemma_mod_bound(value as int, unit as int);
    assert(unit * below == below * unit) by (nonlinear_arith);
    assert((below + 1) * unit == below * unit + unit) by (nonlinear_arith);
}

/// The bits of a narrowed number, but for the sign: never more than those of infinity, and, from the
/// least number of full precision up to the greatest exponent, within half a step of the number.
#[verifier::rlimit(60)]
proof fn lemma_narrowed_magnitude(exponent: int, fraction: int)
    requires
        0 <= exponent < 0x7ff,
        0 <= fraction < 0x10_0000_0000_0000,
    ensures
        0 <= narrowed_magnitude(exponent, fraction) <= 0x7f80_0000,
        874 <= exponent ==> narrowed_magnitude(exponent, fraction) > 0,
        897 <= exponent <= 1150 ==> ({
            let exact = exponent * 0x10_0000_0000_0000 + fraction;
            let near = narrowed_magnitude(exponent, fraction) * 0x2000_0000 + 896
                * 0x10_0000_0000_0000;
            2 * (exact - near) <= 0x2000_0000 && 2 * (near - exact) <= 0x2000_0000
        }),
{
    let significand = (0x10_0000_0000_0000 + fraction) as nat;
    if 897 <= exponent <= 1150 {
        law_rounding_is_to_the_nearest(significand, 0x2000_0000);
        let near = half_even(significand, 0x2000_0000);
        assert(near * 0x2000_0000 <= significand + 0x1000_0000);
        assert(near <= 0x100_0000);
    } else if 873 <= exponent < 897 {
        let power = (926 - exponent) as nat;
        lemma2_to64();
        lemma2_to64_rest();
        if power > 29 {
            lemma_pow2_strictly_increases(29, power);
        }
        let unit = pow2(power);
        law_rounding_is_to_the_nearest(significand, unit);
        let near = half_even(significand, unit);
        assert(near * unit <= 2 * significand + unit);
        assert(near <= 0x7f80_0000) by (nonlinear_arith)
            requires
                unit >= 0x2000_0000,
                near * unit <= 2 * significand + unit,
                significand < 0x20_0000_0000_0000,
        ;
        if exponent >= 874 {
            if power < 52 {
                lemma_pow2_strictly_increases(power, 52);
            }
            assert(unit <= 0x10_0000_0000_0000);
            if near == 0 {
                assert(near * unit == 0) by (nonlinear_arith)
                    requires
                        near == 0,
                ;
                assert(2 * significand <= unit);
            }
        }
    }
}

/// Narrowing keeps the sign and turns around with it; a number that is not smaller than the smallest
/// one of single precision does not vanish, and one of full precision is off by half a step at most.
#[verifier::rlimit(60)]
pub proof fn law_narrowing_keeps_the_number(value: F64)
    requires
        value.spec_finite(),
    ensures
        value.rank() >= 0 ==> value.spec_narrowed().rank() >= 0,
        value.rank() <= 0 ==> value.spec_narrowed().rank() <= 0,
        value.spec_exponent() >= 874 && value.rank() > 0 ==> value.spec_narrowed().rank() > 0,
        value.spec_exponent() >= 874 && value.rank() < 0 ==> value.spec_narrowed().rank() < 0,
        value.spec_negated().spec_narrowed().rank() == -value.spec_narrowed().rank(),
        !value.spec_narrowed().spec_nan(),
        897 <= value.spec_exponent() <= 1150 ==> ({
            let narrow = value.spec_narrowed().rank();
            let exact = value.rank();
            let near = if narrow >= 0 {
                narrow * 0x2000_0000 + 896 * 0x10_0000_0000_0000
            } else {
                narrow * 0x2000_0000 - 896 * 0x10_0000_0000_0000
            };
            -0x2000_0000 <= 2 * (exact - near) <= 0x2000_0000
        }),
{
    let exponent = value.spec_exponent();
    let fraction = value.spec_fraction();
    lemma_narrowed_magnitude(exponent, fraction);
    lemma_parts(value);
    lemma_parts(value.spec_negated());
}

proof fn lemma_parts(value: F64)
    ensures
        ({
            let magnitude = if value.0 < 0x8000_0000_0000_0000 {
                value.0 as int
            } else {
                value.0 - 0x8000_0000_0000_0000
            };
            &&& magnitude == value.spec_exponent() * 0x10_0000_0000_0000 + value.spec_fraction()
            &&& value.spec_exponent() == magnitude / 0x10_0000_0000_0000
            &&& value.spec_fraction() == magnitude % 0x10_0000_0000_0000
        }),
{
}

/// A number of single precision in double precision, where it has its full precision.
pub open spec fn widened(value: F32) -> F64 {
    let magnitude = value.0 as int % 0x8000_0000;
    let sign: int = if value.0 < 0x8000_0000 {
        0
    } else {
        0x8000_0000_0000_0000
    };
    F64((sign + magnitude * 0x2000_0000 + 896 * 0x10_0000_0000_0000) as u64)
}

/// Narrowing gives every number of single precision back that has its full precision.
#[verifier::rlimit(60)]
pub proof fn law_narrowing_undoes_widening(value: F32)
    requires
        1 <= value.spec_exponent() < 0xff,
    ensures
        widened(value).spec_finite(),
        widened(value).spec_narrowed() == value,
{
    let wide = widened(value);
    let magnitude = value.0 as int % 0x8000_0000;
    lemma_parts(wide);
    assert(wide.spec_exponent() == value.spec_exponent() + 896);
    assert(wide.spec_fraction() == value.spec_fraction() * 0x2000_0000);
    let significand = (0x10_0000_0000_0000 + wide.spec_fraction()) as nat;
    assert(significand == (0x80_0000 + value.spec_fraction()) * 0x2000_0000);
    assert(half_even(significand, 0x2000_0000) == 0x80_0000 + value.spec_fraction());
}

/// The IEEE fields: a number is finite if the bits of its exponent are not all set, and a NaN if they
/// are and one of its fraction is.
pub proof fn law_numbers_have_their_fields(short: F32, long: F64)
    ensures
        short.spec_finite() <==> short.0 % 0x8000_0000 < 0x7f80_0000,
        short.spec_nan() <==> short.0 % 0x8000_0000 > 0x7f80_0000,
        long.spec_finite() <==> long.0 % 0x8000_0000_0000_0000 < 0x7ff0_0000_0000_0000,
        long.spec_nan() <==> long.0 % 0x8000_0000_0000_0000 > 0x7ff0_0000_0000_0000,
        short.rank() == if short.0 < 0x8000_0000 {
            short.0 as int % 0x8000_0000
        } else {
            -(short.0 as int % 0x8000_0000)
        },
        long.rank() == if long.0 < 0x8000_0000_0000_0000 {
            long.0 as int % 0x8000_0000_0000_0000
        } else {
            -(long.0 as int % 0x8000_0000_0000_0000)
        },
        long.spec_negated().spec_negated() == long,
        long.spec_negated().rank() == -long.rank(),
{
}

} // verus!
