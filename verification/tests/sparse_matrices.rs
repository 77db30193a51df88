use subnet_consensus::fixed::Fixed32;
use subnet_consensus::sparse::{
    col_clip_sparse, col_max_sparse, col_sum_sparse, inplace_col_max_upscale_sparse,
    inplace_col_normalize_sparse, inplace_row_normalize_sparse, mask_diag_sparse,
    mask_rows_sparse, mat_ema_sparse, matmul_sparse, matmul_transpose_sparse,
    row_hadamard_sparse, row_sum_sparse, vec_mask_sparse_matrix,
};

const ONE: i64 = 1 << 32;

fn f(bits: i64) -> Fixed32 {
    Fixed32::from_bits(bits)
}

fn fx(bits: &[i64]) -> Vec<Fixed32> {
    bits.iter().map(|b| Fixed32::from_bits(*b)).collect()
}

fn matrix() -> Vec<Vec<(u16, Fixed32)>> {
    vec![
        vec![(0, f(ONE)), (1, f(3 * ONE))],
        vec![(1, f(ONE)), (2, f(ONE))],
        vec![],
    ]
}

#[test]
fn rows_and_columns_are_summed() {
    let m = matrix();
    assert_eq!(row_sum_sparse(&m), fx(&[4 * ONE, 2 * ONE, 0]));
    assert_eq!(col_sum_sparse(&m, 3), fx(&[ONE, 4 * ONE, ONE]));
    assert_eq!(col_sum_sparse(&m, 2), fx(&[ONE, 4 * ONE]));
    assert_eq!(col_max_sparse(&m, 4), fx(&[ONE, 3 * ONE, ONE, 0]));
}

#[test]
fn rows_are_normalized() {
    let mut m = matrix();
    inplace_row_normalize_sparse(&mut m);
    assert_eq!(
        m,
        vec![
            vec![(0, f(ONE / 4)), (1, f(3 * (ONE / 4)))],
            vec![(1, f(ONE / 2)), (2, f(ONE / 2))],
            vec![],
        ]
    );
    let sums = row_sum_sparse(&m);
    assert_eq!(sums, fx(&[ONE, ONE, 0]));
}

#[test]
fn columns_are_normalized_and_upscaled() {
    let mut m = matrix();
    inplace_col_normalize_sparse(&mut m, 3);
    assert_eq!(
        m,
        vec![
            vec![(0, f(ONE)), (1, f(3 * (ONE / 4)))],
            vec![(1, f(ONE / 4)), (2, f(ONE))],
            vec![],
        ]
    );
    inplace_col_max_upscale_sparse(&mut m, 3);
    assert_eq!(
        m,
        vec![
            vec![(0, f(ONE)), (1, f(ONE))],
            vec![(1, f(ONE / 3)), (2, f(ONE))],
            vec![],
        ]
    );
    // A column beyond those named is left as it is.
    let mut m = matrix();
    inplace_col_normalize_sparse(&mut m, 1);
    assert_eq!(m, matrix());
}

#[test]
fn masks_drop_entries() {
    let m = matrix();
    assert_eq!(
        mask_rows_sparse(&vec![true, false], &m),
        vec![vec![], vec![(1, f(ONE)), (2, f(ONE))], vec![]]
    );
    assert_eq!(
        mask_diag_sparse(&m),
        vec![vec![(1, f(3 * ONE))], vec![(2, f(ONE))], vec![]]
    );
    // Row 0 was updated at block 5, row 1 at block 9; targets registered at 1, 5, 9.
    assert_eq!(
        vec_mask_sparse_matrix(&m, &vec![5, 9, 0], &vec![1, 5, 9]),
        vec![vec![(0, f(ONE))], vec![(1, f(ONE))], vec![]]
    );
    // An entry whose target has no block of registration is dropped.
    assert_eq!(
        vec_mask_sparse_matrix(&m, &vec![5, 9, 0], &vec![1]),
        vec![vec![(0, f(ONE))], vec![], vec![]]
    );
}

#[test]
fn products_follow_rows_and_columns() {
    let m = matrix();
    let half_and_two = fx(&[ONE / 2, 2 * ONE, ONE]);
    assert_eq!(matmul_sparse(&m, &half_and_two, 3), fx(&[ONE / 2, 7 * ONE / 2, 2 * ONE]));
    assert_eq!(matmul_transpose_sparse(&m, &half_and_two), fx(&[13 * ONE / 2, 3 * ONE, 0]));
    assert_eq!(
        row_hadamard_sparse(&m, &half_and_two),
        vec![
            vec![(0, f(ONE / 2)), (1, f(3 * ONE / 2))],
            vec![(1, f(2 * ONE)), (2, f(2 * ONE))],
            vec![],
        ]
    );
}

#[test]
fn clip_holds_values_down() {
    let m = matrix();
    assert_eq!(
        col_clip_sparse(&m, &fx(&[ONE / 2, 2 * ONE, 0])),
        vec![vec![(0, f(ONE / 2)), (1, f(2 * ONE))], vec![(1, f(ONE))], vec![]]
    );
}

#[test]
fn moving_average_mixes_new_and_old() {
    let new = vec![vec![(1u16, f(ONE))], vec![(0, f(ONE))], vec![]];
    let old = vec![vec![(1u16, f(ONE / 2)), (2, f(ONE))], vec![], vec![(0, f(0))]];
    let ema = mat_ema_sparse(&new, &old, f(ONE / 4));
    assert_eq!(
        ema,
        vec![
            vec![(1, f(ONE / 4 + 3 * (ONE / 8))), (2, f(3 * (ONE / 4)))],
            vec![(0, f(ONE / 4))],
            vec![],
        ]
    );
}
