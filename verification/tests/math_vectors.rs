use subnet_consensus::fixed::{Fixed32, Fixed64};
use subnet_consensus::math::{
    fixed_proportion_to_u16, inplace_mask_vector, inplace_normalize, inplace_normalize_64,
    inplace_normalize_using_sum, is_topk, is_zero, vec_fixed64_to_fixed32, vec_max,
    vec_max_upscale_to_u16, vec_sum, vec_sum_64, vecdiv,
};
use subnet_consensus::median::weighted_median_col_sparse;
use subnet_consensus::yuma::{compute_alpha, vec_add, vec_to_proportions};

const ONE: i64 = 1 << 32;

fn fx(bits: &[i64]) -> Vec<Fixed32> {
    bits.iter().map(|b| Fixed32::from_bits(*b)).collect()
}

fn bits(v: &[Fixed32]) -> Vec<i64> {
    v.iter().map(|x| x.to_bits()).collect()
}

#[test]
fn sum_saturates() {
    assert_eq!(vec_sum(&fx(&[ONE, 2 * ONE, -ONE])).to_bits(), 2 * ONE);
    assert_eq!(vec_sum(&fx(&[i64::MAX, ONE, -ONE])).to_bits(), i64::MAX - ONE);
    assert_eq!(vec_sum(&fx(&[])).to_bits(), 0);
    let wide = vec![Fixed64::from_bits(i128::MAX), Fixed64::from_bits(5)];
    assert_eq!(vec_sum_64(&wide).to_bits(), i128::MAX);
}

#[test]
fn normalized_vector_sums_to_one() {
    let mut v = fx(&[ONE, 2 * ONE, 5 * ONE]);
    inplace_normalize(&mut v);
    assert_eq!(bits(&v), vec![536870912, 1073741824, 2684354560]);
    assert_eq!(vec_sum(&v).to_bits(), ONE);
    let mut thirds = fx(&[7, 7, 7]);
    inplace_normalize(&mut thirds);
    assert_eq!(bits(&thirds), vec![ONE / 3, ONE / 3, ONE / 3]);
    let sum = vec_sum(&thirds).to_bits();
    assert!(sum <= ONE && sum > ONE - 3);
}

#[test]
fn vector_of_zeros_stays_as_it_is() {
    let mut v = fx(&[0, 0]);
    inplace_normalize(&mut v);
    assert_eq!(bits(&v), vec![0, 0]);
    let mut cancelling = fx(&[ONE, -ONE]);
    inplace_normalize(&mut cancelling);
    assert_eq!(bits(&cancelling), vec![ONE, -ONE]);
    let mut w = fx(&[ONE, 3 * ONE]);
    inplace_normalize_using_sum(&mut w, Fixed32::from_bits(0));
    assert_eq!(bits(&w), vec![ONE, 3 * ONE]);
    inplace_normalize_using_sum(&mut w, Fixed32::from_bits(2 * ONE));
    assert_eq!(bits(&w), vec![ONE / 2, 3 * ONE / 2]);
}

#[test]
fn wide_vector_is_normalized_and_narrowed() {
    let one: i128 = 1 << 64;
    let mut v = vec![Fixed64::from_bits(one), Fixed64::from_bits(3 * one)];
    inplace_normalize_64(&mut v);
    assert_eq!(v[0].to_bits(), one / 4);
    assert_eq!(v[1].to_bits(), 3 * (one / 4));
    let narrow = vec_fixed64_to_fixed32(v);
    assert_eq!(bits(&narrow), vec![ONE / 4, 3 * (ONE / 4)]);
}

#[test]
fn mask_sets_flagged_positions_to_zero() {
    let mut v = fx(&[1, 2, 3, 4]);
    inplace_mask_vector(&vec![true, false, true], &mut v);
    assert_eq!(bits(&v), vec![0, 2, 0, 4]);
    inplace_mask_vector(&Vec::new(), &mut v);
    assert_eq!(bits(&v), vec![0, 2, 0, 4]);
}

#[test]
fn quotient_by_zero_is_zero() {
    let q = vecdiv(&fx(&[ONE, ONE, ONE]), &fx(&[2 * ONE, 0]));
    assert_eq!(bits(&q), vec![ONE / 2, 0, 0]);
}

#[test]
fn zero_vector_is_recognised() {
    assert!(is_zero(&fx(&[0, 0, 0])));
    assert!(is_zero(&fx(&[])));
    assert!(!is_zero(&fx(&[0, 1])));
}

#[test]
fn topk_flags_the_largest() {
    let v = fx(&[5, 1, 4, 2, 3]);
    assert_eq!(is_topk(&v, 2), vec![true, false, true, false, false]);
    assert_eq!(is_topk(&v, 0), vec![false; 5]);
    assert_eq!(is_topk(&v, 5), vec![true; 5]);
    assert_eq!(is_topk(&v, 9), vec![true; 5]);
    assert_eq!(is_topk(&fx(&[3, 3, 3, 3]), 2), vec![true, true, false, false]);
    assert_eq!(is_topk(&fx(&[7, 7]), 1), vec![true, false]);
}

#[test]
fn proportions_are_rounded_down() {
    assert_eq!(fixed_proportion_to_u16(Fixed32::from_bits(ONE / 3)), 21844);
    assert_eq!(fixed_proportion_to_u16(Fixed32::from_bits(ONE)), 65535);
    assert_eq!(vec_to_proportions(&fx(&[0, ONE / 2, ONE])), vec![0, 32767, 65535]);
}

#[test]
fn upscale_makes_the_largest_all() {
    assert_eq!(vec_max(&fx(&[ONE / 4, ONE / 2, ONE / 8])).to_bits(), ONE / 2);
    assert_eq!(vec_max(&fx(&[-5, -2, -9])).to_bits(), -2);
    assert_eq!(vec_max(&fx(&[])).to_bits(), 0);
    assert_eq!(
        vec_max_upscale_to_u16(&fx(&[ONE / 4, ONE / 2, ONE / 8])),
        vec![32768, 65535, 16384]
    );
    assert_eq!(vec_max_upscale_to_u16(&fx(&[0, 0])), vec![0, 0]);
    assert_eq!(vec_max_upscale_to_u16(&fx(&[])), Vec::<u16>::new());
    // Above 32768 the factor is worked out first.
    assert_eq!(
        vec_max_upscale_to_u16(&fx(&[40000 * ONE, 20000 * ONE])),
        vec![65535, 32767]
    );
}

#[test]
fn vectors_are_added() {
    assert_eq!(bits(&vec_add(&fx(&[1, 2, 3]), &fx(&[10, 20]))), vec![11, 22, 3]);
}

#[test]
fn alpha_is_one_minus_the_moving_average() {
    assert_eq!(compute_alpha(900_000).to_bits(), 429496730);
    assert_eq!(compute_alpha(0).to_bits(), ONE);
    assert_eq!(compute_alpha(1_000_000).to_bits(), 0);
}

#[test]
fn median_follows_the_majority() {
    // Three validators with half, a third and a sixth of the stake.
    let stake = fx(&[3 * ONE, 2 * ONE, ONE]);
    let score = vec![
        vec![(0u16, Fixed32::from_bits(ONE)), (1, Fixed32::from_bits(30))],
        vec![(0, Fixed32::from_bits(ONE / 2)), (1, Fixed32::from_bits(10))],
        vec![(1, Fixed32::from_bits(20))],
    ];
    let majority = Fixed32::from_bits(6 * (ONE / 10));
    let median = weighted_median_col_sparse(&stake, &score, 3, majority);
    // Column 0: scores 1, 1/2, 0 with weights 1/2, 1/3, 1/6: more than four
    // tenths of the weight lie at or below 1/2. Column 2 is empty.
    assert_eq!(bits(&median), vec![ONE / 2, 20, 0]);
    // At a majority of exactly one half the weight at or below 1/2 falls
    // short of the minority by rounding: the median is the next score.
    let half = Fixed32::from_bits(ONE / 2);
    assert_eq!(bits(&weighted_median_col_sparse(&stake, &score, 1, half)), vec![ONE]);
    let all = Fixed32::from_bits(ONE);
    assert_eq!(bits(&weighted_median_col_sparse(&stake, &score, 2, all)), vec![0, 10]);
    let none = Fixed32::from_bits(0);
    assert_eq!(bits(&weighted_median_col_sparse(&stake, &score, 2, none)), vec![ONE, 30]);
}

#[test]
fn median_leaves_out_rows_without_stake() {
    let stake = fx(&[0, ONE, -ONE]);
    let score = vec![
        vec![(0u16, Fixed32::from_bits(7))],
        vec![(0, Fixed32::from_bits(3))],
        vec![(0, Fixed32::from_bits(9))],
    ];
    let half = Fixed32::from_bits(ONE / 2);
    assert_eq!(bits(&weighted_median_col_sparse(&stake, &score, 1, half)), vec![3]);
    let nobody = fx(&[0, 0, 0]);
    assert_eq!(bits(&weighted_median_col_sparse(&nobody, &score, 1, half)), vec![0]);
}
