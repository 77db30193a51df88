use subnet_consensus::fixed::{Fixed32, Fixed64};

const ONE32: i64 = 1 << 32;
const ONE64: i128 = 1 << 64;

#[test]
fn add_and_sub_saturate() {
    let max = Fixed32::from_bits(i64::MAX);
    let min = Fixed32::from_bits(i64::MIN);
    let one = Fixed32::from_bits(ONE32);
    assert_eq!(max.saturating_add(one), max);
    assert_eq!(min.saturating_sub(one), min);
    assert_eq!(one.saturating_add(one).to_bits(), 2 * ONE32);
    assert_eq!(one.saturating_sub(one.saturating_add(one)).to_bits(), -ONE32);
    let max64 = Fixed64::from_bits(i128::MAX);
    let min64 = Fixed64::from_bits(i128::MIN);
    let one64 = Fixed64::from_bits(ONE64);
    assert_eq!(max64.saturating_add(one64), max64);
    assert_eq!(min64.saturating_sub(one64), min64);
    assert_eq!(one64.saturating_sub(one64.saturating_add(one64)).to_bits(), -ONE64);
}

#[test]
fn product_rounds_towards_minus_infinity() {
    let tiny = Fixed32::from_bits(1);
    let minus_tiny = Fixed32::from_bits(-1);
    assert_eq!(tiny.saturating_mul(tiny).to_bits(), 0);
    assert_eq!(minus_tiny.saturating_mul(tiny).to_bits(), -1);
    assert_eq!(minus_tiny.saturating_mul(minus_tiny).to_bits(), 0);
    let three_halves = Fixed32::from_bits(3 * ONE32 / 2);
    assert_eq!(three_halves.saturating_mul(three_halves).to_bits(), 9 * ONE32 / 4);
    let tiny64 = Fixed64::from_bits(1);
    let minus_tiny64 = Fixed64::from_bits(-1);
    assert_eq!(tiny64.saturating_mul(tiny64).to_bits(), 0);
    assert_eq!(minus_tiny64.saturating_mul(tiny64).to_bits(), -1);
    let three_halves64 = Fixed64::from_bits(3 * ONE64 / 2);
    assert_eq!(three_halves64.saturating_mul(three_halves64).to_bits(), 9 * ONE64 / 4);
    let minus_three_halves64 = Fixed64::from_bits(-3 * ONE64 / 2);
    assert_eq!(
        minus_three_halves64.saturating_mul(Fixed64::from_bits(ONE64 + 1)).to_bits(),
        -3 * ONE64 / 2 - 2
    );
}

#[test]
fn product_saturates() {
    let max = Fixed32::from_bits(i64::MAX);
    let min = Fixed32::from_bits(i64::MIN);
    let two = Fixed32::from_bits(2 * ONE32);
    let minus_two = Fixed32::from_bits(-2 * ONE32);
    assert_eq!(max.saturating_mul(two), max);
    assert_eq!(max.saturating_mul(minus_two), min);
    assert_eq!(min.saturating_mul(minus_two), max);
    assert_eq!(min.saturating_mul(two), min);
    let max64 = Fixed64::from_bits(i128::MAX);
    let min64 = Fixed64::from_bits(i128::MIN);
    let two64 = Fixed64::from_bits(2 * ONE64);
    let minus_two64 = Fixed64::from_bits(-2 * ONE64);
    assert_eq!(max64.saturating_mul(two64), max64);
    assert_eq!(max64.saturating_mul(minus_two64), min64);
    assert_eq!(min64.saturating_mul(minus_two64), max64);
    assert_eq!(min64.saturating_mul(two64), min64);
}

#[test]
fn quotient_rounds_towards_zero() {
    let three = Fixed32::from_bits(3 * ONE32);
    let two = Fixed32::from_bits(2 * ONE32);
    assert_eq!(Fixed32::from_bits(-1).checked_div(three), Some(Fixed32::from_bits(0)));
    assert_eq!(Fixed32::from_bits(-5).checked_div(two), Some(Fixed32::from_bits(-2)));
    assert_eq!(Fixed32::from_bits(5).checked_div(two), Some(Fixed32::from_bits(2)));
    assert_eq!(
        Fixed32::from_bits(ONE32).checked_div(three),
        Some(Fixed32::from_bits(ONE32 / 3))
    );
    assert_eq!(
        Fixed32::from_bits(-ONE32).checked_div(three),
        Some(Fixed32::from_bits(-(ONE32 / 3)))
    );
    let three64 = Fixed64::from_bits(3 * ONE64);
    let two64 = Fixed64::from_bits(2 * ONE64);
    assert_eq!(Fixed64::from_bits(-1).checked_div(three64), Some(Fixed64::from_bits(0)));
    assert_eq!(Fixed64::from_bits(-5).checked_div(two64), Some(Fixed64::from_bits(-2)));
    assert_eq!(
        Fixed64::from_bits(ONE64).checked_div(three64),
        Some(Fixed64::from_bits(ONE64 / 3))
    );
    assert_eq!(
        Fixed64::from_bits(-ONE64).checked_div(Fixed64::from_bits(-3 * ONE64)),
        Some(Fixed64::from_bits(ONE64 / 3))
    );
}

#[test]
fn quotient_fails_on_zero_and_overflow() {
    let one = Fixed32::from_bits(ONE32);
    let half = Fixed32::from_bits(ONE32 / 2);
    let max = Fixed32::from_bits(i64::MAX);
    assert_eq!(one.checked_div(Fixed32::from_bits(0)), None);
    assert_eq!(max.checked_div(half), None);
    assert_eq!(max.checked_div(one), Some(max));
    assert_eq!(one.div_or_default(Fixed32::from_bits(0)).to_bits(), 0);
    let min = Fixed32::from_bits(i64::MIN);
    assert_eq!(min.checked_div(Fixed32::from_bits(-ONE32)), None);
    let one64 = Fixed64::from_bits(ONE64);
    let max64 = Fixed64::from_bits(i128::MAX);
    assert_eq!(one64.checked_div(Fixed64::from_bits(0)), None);
    assert_eq!(max64.checked_div(Fixed64::from_bits(ONE64 / 2)), None);
    assert_eq!(max64.checked_div(one64), Some(max64));
    let min64 = Fixed64::from_bits(i128::MIN);
    assert_eq!(min64.checked_div(Fixed64::from_bits(-ONE64)), None);
    assert_eq!(min64.checked_div(one64), Some(min64));
}

#[test]
fn conversions() {
    assert_eq!(Fixed32::from_u16(3).to_bits(), 3 * ONE32);
    assert_eq!(Fixed64::saturating_from_u64(7).to_bits(), 7 * ONE64);
    assert_eq!(Fixed64::saturating_from_u64(u64::MAX).to_bits(), i128::MAX);
    assert_eq!(Fixed64::from_bits(7 * ONE64 + 5).saturating_to_u64(), 7);
    assert_eq!(Fixed64::from_bits(-1).saturating_to_u64(), 0);
    assert_eq!(
        Fixed32::saturating_from_fixed64(Fixed64::from_bits(ONE64 / 2 + 1)).to_bits(),
        ONE32 / 2
    );
    assert_eq!(Fixed32::saturating_from_fixed64(Fixed64::from_bits(-1)).to_bits(), -1);
    assert_eq!(
        Fixed32::saturating_from_fixed64(Fixed64::from_bits(i128::MAX)).to_bits(),
        i64::MAX
    );
    assert_eq!(Fixed64::from_fixed32(Fixed32::from_bits(-3)).to_bits(), -3 * ONE32 as i128);
    assert_eq!(Fixed32::from_bits(ONE32).to_proportion(), 65535);
    assert_eq!(Fixed32::from_bits(ONE32 / 2).to_proportion(), 32767);
    assert_eq!(Fixed32::from_bits(-5).to_proportion(), 0);
    assert_eq!(Fixed32::from_bits(2 * ONE32).to_proportion(), 65535);
    assert_eq!(Fixed32::from_bits(ONE32 / 2).round_to_u16(), 1);
    assert_eq!(Fixed32::from_bits(ONE32 / 2 - 1).round_to_u16(), 0);
    assert_eq!(Fixed32::from_bits(-ONE32).round_to_u16(), 0);
}

fn floor_div(n: i128, d: i128) -> i128 {
    n.div_euclid(d)
}

fn clamp(x: i128) -> i64 {
    if x > i64::MAX as i128 {
        i64::MAX
    } else if x < i64::MIN as i128 {
        i64::MIN
    } else {
        x as i64
    }
}

#[test]
fn operations_agree_with_their_formulas() {
    let mut state: u64 = 0x9e37_79b9_7f4a_7c15;
    let mut next = move || {
        state ^= state << 13;
        state ^= state >> 7;
        state ^= state << 17;
        // Numbers of every size, of both signs.
        let shift = (state >> 58) as u32;
        (state as i64) >> shift
    };
    for _ in 0..20000 {
        let a = next();
        let b = next();
        let x = Fixed32::from_bits(a);
        let y = Fixed32::from_bits(b);
        assert_eq!(x.saturating_add(y).to_bits(), clamp(a as i128 + b as i128));
        assert_eq!(x.saturating_sub(y).to_bits(), clamp(a as i128 - b as i128));
        assert_eq!(
            x.saturating_mul(y).to_bits(),
            clamp(floor_div(a as i128 * b as i128, 1 << 32))
        );
        let quotient = if b == 0 {
            None
        } else {
            let q = ((a as i128) << 32) / (b as i128);
            if q > i64::MAX as i128 || q < i64::MIN as i128 {
                None
            } else {
                Some(Fixed32::from_bits(q as i64))
            }
        };
        assert_eq!(x.checked_div(y), quotient);
    }
}

#[test]
fn wide_operations_agree_with_the_narrow_ones() {
    let mut state: u64 = 0x1234_5678_9abc_def1;
    let mut next = move || {
        state ^= state << 13;
        state ^= state >> 7;
        state ^= state << 17;
        let shift = 16 + (state >> 59) as u32;
        (state as i64) >> shift
    };
    // A number of the narrow type is the same number in the wide type, and
    // products and quotients of small numbers are the same in both.
    for _ in 0..20000 {
        let a = next();
        let b = next();
        let x = Fixed64::from_fixed32(Fixed32::from_bits(a));
        let y = Fixed64::from_fixed32(Fixed32::from_bits(b));
        assert_eq!(x.saturating_add(y).to_bits(), (a as i128 + b as i128) << 32);
        assert_eq!(x.saturating_sub(y).to_bits(), (a as i128 - b as i128) << 32);
        assert_eq!(x.saturating_mul(y).to_bits(), a as i128 * b as i128);
        if b != 0 {
            assert_eq!(
                x.checked_div(y),
                Some(Fixed64::from_bits(((a as i128) << 64) / (b as i128)))
            );
        }
    }
}

/// The product of two numbers of 128 bits as a number of 256 bits: the upper
/// and the lower half.
fn wide_product(a: u128, b: u128) -> (u128, u128) {
    let mask: u128 = (1 << 64) - 1;
    let (a1, a0) = (a >> 64, a & mask);
    let (b1, b0) = (b >> 64, b & mask);
    let low = a0 * b0;
    let mid1 = a1 * b0;
    let mid2 = a0 * b1;
    let high = a1 * b1;
    let carry = ((low >> 64) + (mid1 & mask) + (mid2 & mask)) >> 64;
    let lower = low.wrapping_add(mid1 << 64).wrapping_add(mid2 << 64);
    let upper = high + (mid1 >> 64) + (mid2 >> 64) + carry;
    (upper, lower)
}

fn expected_product(a: i128, b: i128) -> i128 {
    let negative = (a < 0) != (b < 0);
    let (upper, lower) = wide_product(a.unsigned_abs(), b.unsigned_abs());
    // The magnitude of the product, shifted down by 64 bits.
    if upper >> 64 != 0 {
        return if negative { i128::MIN } else { i128::MAX };
    }
    let mut magnitude = (upper << 64) | (lower >> 64);
    let inexact = lower & ((1 << 64) - 1) != 0;
    if negative {
        // Rounding towards minus infinity takes a negative product away from zero.
        if inexact {
            magnitude += 1;
        }
        if magnitude > 1 << 127 {
            i128::MIN
        } else {
            (magnitude as i128).wrapping_neg()
        }
    } else if magnitude > i128::MAX as u128 {
        i128::MAX
    } else {
        magnitude as i128
    }
}

fn not_above(a: (u128, u128), b: (u128, u128)) -> bool {
    a.0 < b.0 || (a.0 == b.0 && a.1 <= b.1)
}

#[test]
fn wide_operations_agree_with_their_formulas() {
    let mut state: u64 = 0x0dd_ba11_5eed_cafe;
    let mut word = move || {
        state ^= state << 13;
        state ^= state >> 7;
        state ^= state << 17;
        state
    };
    let mut next = move || {
        let bits = ((word() as u128) << 64 | word() as u128) as i128;
        bits >> (word() % 127) as u32
    };
    for _ in 0..20000 {
        let a = next();
        let b = next();
        let x = Fixed64::from_bits(a);
        let y = Fixed64::from_bits(b);
        assert_eq!(x.saturating_mul(y).to_bits(), expected_product(a, b), "{a} * {b}");
        assert_eq!(x.saturating_add(y).to_bits(), a.saturating_add(b));
        assert_eq!(x.saturating_sub(y).to_bits(), a.saturating_sub(b));
        if b == 0 {
            assert_eq!(x.checked_div(y), None);
            continue;
        }
        let negative = (a < 0) != (b < 0);
        // The dividend shifted up by 64 bits, as a number of 256 bits.
        let dividend = (a.unsigned_abs() >> 64, a.unsigned_abs() << 64);
        match x.checked_div(y) {
            Some(q) => {
                let q = q.to_bits();
                assert!(q == 0 || (q < 0) == negative, "{a} / {b}");
                let magnitude = q.unsigned_abs();
                let below = wide_product(magnitude, b.unsigned_abs());
                assert!(not_above(below, dividend), "{a} / {b}");
                if magnitude < u128::MAX {
                    let above = wide_product(magnitude + 1, b.unsigned_abs());
                    assert!(!not_above(above, dividend), "{a} / {b}");
                }
            }
            None => {
                // The quotient is beyond the largest number, or below the least.
                let limit: u128 = if negative { (1 << 127) + 1 } else { 1 << 127 };
                let least = wide_product(limit, b.unsigned_abs());
                assert!(not_above(least, dividend), "{a} / {b}");
            }
        }
    }
}

#[test]
fn products_of_two_negative_numbers() {
    let least = i128::MIN;
    let large = least + (1 << 64) - 1;
    let cases = [
        (large, large),
        (least, least),
        (least, -1),
        (-1, least),
        (least, -(1 << 64) + 1),
        (least, -(1 << 64)),
        (least + 1, -1),
        (least + 1, least + 1),
        (-ONE64, -ONE64),
        (-3 * ONE64 / 2, -3 * ONE64 / 2),
        (-1, -1),
        (-(1 << 100), -(1 << 90)),
        (-(1 << 95) - 12345, -(1 << 96) - 7),
    ];
    for (a, b) in cases {
        assert_eq!(
            Fixed64::from_bits(a).saturating_mul(Fixed64::from_bits(b)).to_bits(),
            expected_product(a, b),
            "{a} * {b}"
        );
    }
    assert_eq!(
        Fixed64::from_bits(least).saturating_mul(Fixed64::from_bits(-1)).to_bits(),
        1 << 63
    );
    assert_eq!(
        Fixed64::from_bits(-ONE64).saturating_mul(Fixed64::from_bits(-ONE64)).to_bits(),
        ONE64
    );
    assert_eq!(
        Fixed64::from_bits(large).saturating_mul(Fixed64::from_bits(large)).to_bits(),
        i128::MAX
    );
}
