//! Signed fixed-point numbers in two precisions.
//!
//! [`Fixed32`] has 32 integer and 32 fractional bits, [`Fixed64`] has 64 of
//! each. A number is held as its raw bits: the value of a `Fixed32` is
//! `bits / 2^32`, that of a `Fixed64` is `bits / 2^64`. Sums, differences,
//! products and quotients are computed by `substrate_fixed`; conversions from
//! and to integers are plain shifts of the bits.
use substrate_fixed::types::{I32F32, I64F64};
use vstd::prelude::*;

verus! {

/// `2^32`, the weight of the unit in a [`Fixed32`].
pub open spec fn unit32() -> int {
    0x1_0000_0000
}

/// `2^64`, the weight of the unit in a [`Fixed64`].
pub open spec fn unit64() -> int {
    0x1_0000_0000_0000_0000
}

/// `x` brought into the range of `i64`.
pub open spec fn clamp_i64(x: int) -> int {
    if x < i64::MIN {
        i64::MIN as int
    } else if x > i64::MAX {
        i64::MAX as int
    } else {
        x
    }
}

/// `x` brought into the range of `i128`.
pub open spec fn clamp_i128(x: int) -> int {
    if x < i128::MIN {
        i128::MIN as int
    } else if x > i128::MAX {
        i128::MAX as int
    } else {
        x
    }
}

/// The quotient of `n` by `d`, rounded towards zero.
pub open spec fn trunc_div(n: int, d: int) -> int
    recommends
        d != 0,
{
    if n >= 0 {
        if d > 0 {
            n / d
        } else {
            -(n / (-d))
        }
    } else {
        if d > 0 {
            -((-n) / d)
        } else {
            (-n) / (-d)
        }
    }
}

/// A fixed-point number with 32 integer and 32 fractional bits.
#[derive(Clone, Copy, Debug, PartialEq, Eq, Structural)]
pub struct Fixed32 {
    pub bits: i64,
}

/// A fixed-point number with 64 integer and 64 fractional bits.
#[derive(Clone, Copy, Debug, PartialEq, Eq, Structural)]
pub struct Fixed64 {
    pub bits: i128,
}

/// `I32F32::saturating_add`: the sum of the two numbers, which is the sum of
/// their bits, held to the range of the type.
#[verifier::external_body]
fn i32f32_saturating_add(a: i64, b: i64) -> (r: i64)
    ensures
        r == clamp_i64(a + b),
{
    I32F32::from_bits(a).saturating_add(I32F32::from_bits(b)).to_bits()
}

/// `I32F32::saturating_sub`: the difference of the two numbers, held to the
/// range of the type.
#[verifier::external_body]
fn i32f32_saturating_sub(a: i64, b: i64) -> (r: i64)
    ensures
        r == clamp_i64(a - b),
{
    I32F32::from_bits(a).saturating_sub(I32F32::from_bits(b)).to_bits()
}

/// `I32F32::saturating_mul`: the product of the two numbers with the
/// fractional bits beyond the 32nd dropped (rounding towards minus infinity),
/// held to the range of the type.
#[verifier::external_body]
fn i32f32_saturating_mul(a: i64, b: i64) -> (r: i64)
    ensures
        r == clamp_i64((a * b) / unit32()),
{
    I32F32::from_bits(a).saturating_mul(I32F32::from_bits(b)).to_bits()
}

/// `I32F32::checked_div`: nothing for a zero divisor or a quotient outside the
/// type's range, else the quotient rounded towards zero.
#[verifier::external_body]
fn i32f32_checked_div(a: i64, b: i64) -> (r: Option<i64>)
    ensures
        r == (if b != 0 && i64::MIN <= trunc_div(a * unit32(), b as int) <= i64::MAX {
            Some(trunc_div(a * unit32(), b as int) as i64)
        } else {
            None
        }),
{
    match I32F32::from_bits(a).checked_div(I32F32::from_bits(b)) {
        Some(q) => Some(q.to_bits()),
        None => None,
    }
}

/// `I64F64::saturating_add`: the sum of the two numbers, held to the range of
/// the type.
#[verifier::external_body]
fn i64f64_saturating_add(a: i128, b: i128) -> (r: i128)
    ensures
        r == clamp_i128(a + b),
{
    I64F64::from_bits(a).saturating_add(I64F64::from_bits(b)).to_bits()
}

/// `I64F64::saturating_sub`: the difference of the two numbers, held to the
/// range of the type.
#[verifier::external_body]
fn i64f64_saturating_sub(a: i128, b: i128) -> (r: i128)
    ensures
        r == clamp_i128(a - b),
{
    I64F64::from_bits(a).saturating_sub(I64F64::from_bits(b)).to_bits()
}

/// `I64F64::saturating_mul`: the product of the two numbers with the
/// fractional bits beyond the 64th dropped (rounding towards minus infinity),
/// held to the range of the type. Two negative numbers are left out: on such
/// the outside function may stop at an assertion of its own.
#[verifier::external_body]
fn i64f64_saturating_mul(a: i128, b: i128) -> (r: i128)
    requires
        a >= 0 || b >= 0,
    ensures
        r == clamp_i128((a * b) / unit64()),
{
    I64F64::from_bits(a).saturating_mul(I64F64::from_bits(b)).to_bits()
}

/// `I64F64::checked_div`: nothing for a zero divisor or a quotient outside the
/// type's range, else the quotient rounded towards zero.
#[verifier::external_body]
fn i64f64_checked_div(a: i128, b: i128) -> (r: Option<i128>)
    ensures
        r == (if b != 0 && i128::MIN <= trunc_div(a * unit64(), b as int) <= i128::MAX {
            Some(trunc_div(a * unit64(), b as int) as i128)
        } else {
            None
        }),
{
    match I64F64::from_bits(a).checked_div(I64F64::from_bits(b)) {
        Some(q) => Some(q.to_bits()),
        None => None,
    }
}

impl Fixed32 {
    /// Zero.
    pub open spec fn zero() -> Fixed32 {
        Fixed32 { bits: 0 }
    }

    /// One.
    pub open spec fn one() -> Fixed32 {
        Fixed32 { bits: 0x1_0000_0000 }
    }

    /// The sum, held to the range of the type.
    pub open spec fn add_spec(self, rhs: Fixed32) -> Fixed32 {
        Fixed32 { bits: clamp_i64(self.bits + rhs.bits) as i64 }
    }

    /// The difference, held to the range of the type.
    pub open spec fn sub_spec(self, rhs: Fixed32) -> Fixed32 {
        Fixed32 { bits: clamp_i64(self.bits - rhs.bits) as i64 }
    }

    /// The product, rounded down to a multiple of `2^-32` and held to the
    /// range of the type.
    pub open spec fn mul_spec(self, rhs: Fixed32) -> Fixed32 {
        Fixed32 { bits: clamp_i64((self.bits * rhs.bits) / unit32()) as i64 }
    }

    /// The quotient rounded towards zero, where the divisor is not zero and
    /// the quotient is in the range of the type.
    pub open spec fn div_spec(self, rhs: Fixed32) -> Option<Fixed32> {
        let q = trunc_div(self.bits * unit32(), rhs.bits as int);
        if rhs.bits != 0 && i64::MIN <= q <= i64::MAX {
            Some(Fixed32 { bits: q as i64 })
        } else {
            None
        }
    }

    /// The quotient, or zero where there is none.
    pub open spec fn div_or_zero(self, rhs: Fixed32) -> Fixed32 {
        match self.div_spec(rhs) {
            Some(q) => q,
            None => Fixed32::zero(),
        }
    }

    /// The smaller of the two numbers.
    pub open spec fn min_spec(self, rhs: Fixed32) -> Fixed32 {
        if rhs.bits < self.bits {
            rhs
        } else {
            self
        }
    }

    /// The larger of the two numbers.
    pub open spec fn max_spec(self, rhs: Fixed32) -> Fixed32 {
        if rhs.bits > self.bits {
            rhs
        } else {
            self
        }
    }

    /// The number that stands for the integer `v`.
    pub open spec fn of_u16(v: u16) -> Fixed32 {
        Fixed32 { bits: (v * unit32()) as i64 }
    }

    /// The number nearest below `x` that this type holds, held to its range.
    pub open spec fn of_fixed64(x: Fixed64) -> Fixed32 {
        Fixed32 { bits: clamp_i64((x.bits as int) / unit32()) as i64 }
    }

    /// The number as a share of 65535, rounded down and held to `0..=65535`.
    pub open spec fn proportion_spec(self) -> u16 {
        let scaled = (self.mul_spec(Fixed32::of_u16(u16::MAX)).bits as int) / unit32();
        if scaled < 0 {
            0
        } else if scaled > u16::MAX {
            u16::MAX
        } else {
            scaled as u16
        }
    }

    /// The nearest integer, with a half rounded up, held to `0..=65535`.
    pub open spec fn rounded_spec(self) -> u16 {
        let r = (self.bits + 0x8000_0000) / unit32();
        if r < 0 {
            0
        } else if r > u16::MAX {
            u16::MAX
        } else {
            r as u16
        }
    }

    pub fn from_bits(bits: i64) -> (r: Fixed32)
        ensures
            r.bits == bits,
    {
        Fixed32 { bits }
    }

    pub fn to_bits(self) -> (r: i64)
        ensures
            r == self.bits,
    {
        self.bits
    }

    pub fn from_u16(v: u16) -> (r: Fixed32)
        ensures
            r == Fixed32::of_u16(v),
    {
        Fixed32 { bits: (v as i64) * 0x1_0000_0000 }
    }

    pub fn saturating_add(self, rhs: Fixed32) -> (r: Fixed32)
        ensures
            r == self.add_spec(rhs),
    {
        Fixed32 { bits: i32f32_saturating_add(self.bits, rhs.bits) }
    }

    pub fn saturating_sub(self, rhs: Fixed32) -> (r: Fixed32)
        ensures
            r == self.sub_spec(rhs),
    {
        Fixed32 { bits: i32f32_saturating_sub(self.bits, rhs.bits) }
    }

    pub fn saturating_mul(self, rhs: Fixed32) -> (r: Fixed32)
        ensures
            r == self.mul_spec(rhs),
    {
        Fixed32 { bits: i32f32_saturating_mul(self.bits, rhs.bits) }
    }

    pub fn checked_div(self, rhs: Fixed32) -> (r: Option<Fixed32>)
        ensures
            r == self.div_spec(rhs),
    {
        match i32f32_checked_div(self.bits, rhs.bits) {
            Some(q) => Some(Fixed32 { bits: q }),
            None => None,
        }
    }

    /// The quotient, or zero where the divisor is zero or the quotient does
    /// not fit.
    pub fn div_or_default(self, rhs: Fixed32) -> (r: Fixed32)
        ensures
            r == self.div_or_zero(rhs),
    {
        match self.checked_div(rhs) {
            Some(q) => q,
            None => Fixed32 { bits: 0 },
        }
    }

    /// The nearest integer, with a half rounded up, held to `0..=65535`.
    pub fn round_to_u16(self) -> (r: u16)
        ensures
            r == self.rounded_spec(),
    {
        let shifted: i128 = self.bits as i128 + 0x8000_0000;
        let q: i128 = shifted / 0x1_0000_0000;
        let m: i128 = shifted % 0x1_0000_0000;
        let f: i128 = if m < 0 { q - 1 } else { q };
        if f < 0 {
            0
        } else if f > 65535 {
            u16::MAX
        } else {
            f as u16
        }
    }

    /// The number as a share of 65535: `floor(x * 65535)`, held to
    /// `0..=65535`.
    pub fn to_proportion(self) -> (r: u16)
        ensures
            r == self.proportion_spec(),
    {
        let scaled: i64 = self.saturating_mul(Fixed32::from_u16(u16::MAX)).bits;
        let q: i64 = scaled / 0x1_0000_0000;
        let m: i64 = scaled % 0x1_0000_0000;
        let f: i64 = if m < 0 { q - 1 } else { q };
        if f < 0 {
            0
        } else if f > 65535 {
            u16::MAX
        } else {
            f as u16
        }
    }

    /// Drops the lower 32 fractional bits of `x`; a number outside the range
    /// of the narrower type becomes the nearest end of that range.
    pub fn saturating_from_fixed64(x: Fixed64) -> (r: Fixed32)
        ensures
            r == Fixed32::of_fixed64(x),
    {
        let q: i128 = x.bits / 0x1_0000_0000;
        let m: i128 = x.bits % 0x1_0000_0000;
        let f: i128 = if m < 0 { q - 1 } else { q };
        if f < i64::MIN as i128 {
            Fixed32 { bits: i64::MIN }
        } else if f > i64::MAX as i128 {
            Fixed32 { bits: i64::MAX }
        } else {
            Fixed32 { bits: f as i64 }
        }
    }
}

proof fn lemma_least_times_negative(other: int)
    requires
        i128::MIN <= other < 0,
    ensures
        (i128::MIN * other) / unit64() == (-other) * 0x8000_0000_0000_0000,
        other > -0x1_0000_0000_0000_0000 ==> 0 < (-other) * 0x8000_0000_0000_0000 <= i128::MAX,
        other <= -0x1_0000_0000_0000_0000 ==> (-other) * 0x8000_0000_0000_0000 > i128::MAX,
{
    let q = (-other) * 0x8000_0000_0000_0000;
    assert(i128::MIN * other == q * unit64()) by (nonlinear_arith)
        requires
            q == (-other) * 0x8000_0000_0000_0000,
            unit64() == 0x1_0000_0000_0000_0000,
    ;
    vstd::arithmetic::div_mod::lemma_div_multiples_vanish(q, unit64());
    assert(q * unit64() == unit64() * q) by (nonlinear_arith);
    assert(other > -0x1_0000_0000_0000_0000 ==> 0 < q <= i128::MAX) by (nonlinear_arith)
        requires
            q == (-other) * 0x8000_0000_0000_0000,
            other < 0,
    ;
    assert(other <= -0x1_0000_0000_0000_0000 ==> q > i128::MAX) by (nonlinear_arith)
        requires
            q == (-other) * 0x8000_0000_0000_0000,
    ;
}

impl Fixed64 {
    /// Zero.
    pub open spec fn zero() -> Fixed64 {
        Fixed64 { bits: 0 }
    }

    /// One.
    pub open spec fn one() -> Fixed64 {
        Fixed64 { bits: 0x1_0000_0000_0000_0000 }
    }

    /// The sum, held to the range of the type.
    pub open spec fn add_spec(self, rhs: Fixed64) -> Fixed64 {
        Fixed64 { bits: clamp_i128(self.bits + rhs.bits) as i128 }
    }

    /// The difference, held to the range of the type.
    pub open spec fn sub_spec(self, rhs: Fixed64) -> Fixed64 {
        Fixed64 { bits: clamp_i128(self.bits - rhs.bits) as i128 }
    }

    /// The product, rounded down to a multiple of `2^-64` and held to the
    /// range of the type.
    pub open spec fn mul_spec(self, rhs: Fixed64) -> Fixed64 {
        Fixed64 { bits: clamp_i128((self.bits * rhs.bits) / unit64()) as i128 }
    }

    /// The quotient rounded towards zero, where the divisor is not zero and
    /// the quotient is in the range of the type.
    pub open spec fn div_spec(self, rhs: Fixed64) -> Option<Fixed64> {
        let q = trunc_div(self.bits * unit64(), rhs.bits as int);
        if rhs.bits != 0 && i128::MIN <= q <= i128::MAX {
            Some(Fixed64 { bits: q as i128 })
        } else {
            None
        }
    }

    /// The quotient, or zero where there is none.
    pub open spec fn div_or_zero(self, rhs: Fixed64) -> Fixed64 {
        match self.div_spec(rhs) {
            Some(q) => q,
            None => Fixed64::zero(),
        }
    }

    /// The number that stands for the integer `v`, or the largest number of
    /// the type where `v` is beyond it.
    pub open spec fn of_u64(v: u64) -> Fixed64 {
        Fixed64 { bits: clamp_i128(v * unit64()) as i128 }
    }

    /// The same number in the wider type.
    pub open spec fn of_fixed32(x: Fixed32) -> Fixed64 {
        Fixed64 { bits: (x.bits * unit32()) as i128 }
    }

    /// The integer part of a number that is not negative, and zero for one
    /// that is.
    pub open spec fn floor_u64(self) -> u64 {
        if self.bits < 0 {
            0
        } else {
            ((self.bits as int) / unit64()) as u64
        }
    }

    pub fn from_bits(bits: i128) -> (r: Fixed64)
        ensures
            r.bits == bits,
    {
        Fixed64 { bits }
    }

    pub fn to_bits(self) -> (r: i128)
        ensures
            r == self.bits,
    {
        self.bits
    }

    /// The number that stands for `v`; an integer of `2^63` or more becomes
    /// the largest number of the type.
    pub fn saturating_from_u64(v: u64) -> (r: Fixed64)
        ensures
            r == Fixed64::of_u64(v),
    {
        if v > 0x7fff_ffff_ffff_ffff {
            Fixed64 { bits: i128::MAX }
        } else {
            Fixed64 { bits: (v as i128) * 0x1_0000_0000_0000_0000 }
        }
    }

    pub fn from_fixed32(x: Fixed32) -> (r: Fixed64)
        ensures
            r == Fixed64::of_fixed32(x),
    {
        Fixed64 { bits: (x.bits as i128) * 0x1_0000_0000 }
    }

    /// The integer part, with a negative number counted as zero.
    pub fn saturating_to_u64(self) -> (r: u64)
        ensures
            r == self.floor_u64(),
    {
        if self.bits < 0 {
            0
        } else {
            (self.bits / 0x1_0000_0000_0000_0000) as u64
        }
    }

    /// The distance from zero, held to the range of the type.
    pub open spec fn abs_spec(self) -> Fixed64 {
        if self.bits < 0 {
            Fixed64 { bits: clamp_i128(-self.bits) as i128 }
        } else {
            self
        }
    }

    /// The distance from zero. That of the least number of the type is the
    /// greatest number of the type.
    pub fn saturating_abs(self) -> (r: Fixed64)
        ensures
            r == self.abs_spec(),
    {
        if self.bits == i128::MIN {
            Fixed64 { bits: i128::MAX }
        } else if self.bits < 0 {
            Fixed64 { bits: -self.bits }
        } else {
            self
        }
    }

    pub fn is_negative(self) -> (r: bool)
        ensures
            r == (self.bits < 0),
    {
        self.bits < 0
    }

    pub fn saturating_add(self, rhs: Fixed64) -> (r: Fixed64)
        ensures
            r == self.add_spec(rhs),
    {
        Fixed64 { bits: i64f64_saturating_add(self.bits, rhs.bits) }
    }

    pub fn saturating_sub(self, rhs: Fixed64) -> (r: Fixed64)
        ensures
            r == self.sub_spec(rhs),
    {
        Fixed64 { bits: i64f64_saturating_sub(self.bits, rhs.bits) }
    }

    /// The product, rounded down and held to the range of the type. The
    /// product of two negative numbers is worked out as that of their
    /// opposites; the least number of the type, which has no opposite, is
    /// `-2^63`, and its product with a negative number is that number's
    /// opposite times `2^63`.
    pub fn saturating_mul(self, rhs: Fixed64) -> (r: Fixed64)
        ensures
            r == self.mul_spec(rhs),
    {
        let a = self.bits;
        let b = rhs.bits;
        if a >= 0 || b >= 0 {
            Fixed64 { bits: i64f64_saturating_mul(a, b) }
        } else if a == i128::MIN || b == i128::MIN {
            let other: i128 = if a == i128::MIN {
                b
            } else {
                a
            };
            proof {
                lemma_least_times_negative(other as int);
                assert(a * b == i128::MIN * other) by (nonlinear_arith)
                    requires
                        (a == i128::MIN && other == b) || (b == i128::MIN && other == a),
                ;
            }
            if other > -0x1_0000_0000_0000_0000 {
                Fixed64 { bits: (-other) * 0x8000_0000_0000_0000 }
            } else {
                Fixed64 { bits: i128::MAX }
            }
        } else {
            assert((-a) * (-b) == a * b) by (nonlinear_arith);
            Fixed64 { bits: i64f64_saturating_mul(-a, -b) }
        }
    }

    pub fn checked_div(self, rhs: Fixed64) -> (r: Option<Fixed64>)
        ensures
            r == self.div_spec(rhs),
    {
        match i64f64_checked_div(self.bits, rhs.bits) {
            Some(q) => Some(Fixed64 { bits: q }),
            None => None,
        }
    }

    /// The quotient, or zero where the divisor is zero or the quotient does
    /// not fit.
    pub fn div_or_default(self, rhs: Fixed64) -> (r: Fixed64)
        ensures
            r == self.div_or_zero(rhs),
    {
        match self.checked_div(rhs) {
            Some(q) => q,
            None => Fixed64 { bits: 0 },
        }
    }
}

} // verus!
