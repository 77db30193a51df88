use subnet_consensus::fixed::Fixed32;
use subnet_consensus::math::vec_sum;
use subnet_consensus::params::{
    copy_vec, lookup_row, to_fixed_row, AccountKey, FlattenedModules, ModuleKey, SubnetLedger,
    YumaParams,
};
use subnet_consensus::sparse::row_sum_sparse;
use subnet_consensus::yuma::{
    compute_active_stake, compute_bonds_and_dividends, compute_consensus_and_trust,
    compute_incentive_and_trust, compute_permits, compute_weights, modules_at_uids,
    prepare_weights, split_modules_by_activity, sum_amounts, to_proportion_row, vec_to_tokens,
};

const ONE: i64 = 1 << 32;

fn f(bits: i64) -> Fixed32 {
    Fixed32::from_bits(bits)
}

fn ledger() -> SubnetLedger {
    SubnetLedger {
        keys: (0..4).map(|i| ModuleKey([i as u8 + 1; 32])).collect(),
        stake: vec![1, 1, 2, 4],
        bonds: vec![(0, vec![(1, 65535)]), (2, vec![(1, 65535), (9, 1)])],
        weights: Vec::new(),
        last_update: vec![950, 950, 100, 950],
        block_at_registration: vec![1, 1, 1, 960],
        validator_permits: vec![true, true, true, false],
        founder: AccountKey([200; 32]),
        kappa: 32767,
        current_block: 1000,
        max_weight_age: 100,
        max_allowed_validators: Some(3),
        bonds_moving_average: 500_000,
    }
}

fn snapshot() -> (YumaParams, FlattenedModules) {
    let params = YumaParams::new(7, 1000, 0, &ledger()).unwrap();
    let modules = FlattenedModules::from(&params.modules);
    (params, modules)
}

#[test]
fn participants_are_taken_apart() {
    let (params, modules) = snapshot();
    assert!(modules_at_uids(&params));
    assert_eq!(modules.keys.len(), 4);
    assert_eq!(modules.keys[2], ModuleKey([3; 32]));
    assert_eq!(modules.last_update, vec![950, 950, 100, 950]);
    assert_eq!(modules.block_at_registration, vec![1, 1, 1, 960]);
    assert_eq!(modules.validator_permit, vec![true, true, true, false]);
    assert_eq!(modules.validator_forbid, vec![false, false, false, true]);
    assert_eq!(
        modules.stake_normalized,
        vec![f(ONE / 8), f(ONE / 8), f(ONE / 4), f(ONE / 2)]
    );
    assert_eq!(modules.bonds[0], vec![(1, f(65535 * ONE))]);
    assert_eq!(modules.bonds[2], vec![(1, f(65535 * ONE)), (9, f(ONE))]);
    assert_eq!(modules.bonds[1], vec![]);
    let copy = params.duplicate();
    assert_eq!(copy.modules.len(), 4);
    assert_eq!(copy.modules[2].1.bonds, params.modules[2].1.bonds);
    assert_eq!(copy.modules[3].1.stake_normalized, f(ONE / 2));
    assert_eq!(copy.kappa, params.kappa);
    assert_eq!(copy_vec(&vec![1u8, 2, 3]), vec![1, 2, 3]);
    assert_eq!(to_fixed_row(&vec![(3, 2)]), vec![(3, f(2 * ONE))]);
    let table = vec![(1u16, vec![(0u16, 1u16)]), (2, vec![(0, 2)]), (1, vec![(0, 3)])];
    assert_eq!(lookup_row(&table, 1), vec![(0, 3)]);
    assert_eq!(lookup_row(&table, 2), vec![(0, 2)]);
    assert_eq!(lookup_row(&table, 0), vec![]);
}

#[test]
fn activity_follows_the_last_update() {
    let (inactive, active) = split_modules_by_activity(&vec![950, 900, 899, u64::MAX], 100, 1000);
    assert_eq!(inactive, vec![false, false, true, false]);
    assert_eq!(active, vec![true, true, false, true]);
}

#[test]
fn weights_that_count_sum_to_one() {
    let (params, modules) = snapshot();
    let input = vec![
        (0u16, vec![(0u16, 5u16), (1, 1), (2, 3), (3, 9), (7, 9)]),
        (3, vec![(0, 1)]),
        (2, vec![(0, 1), (1, 1)]),
    ];
    let raw = prepare_weights(&input, 4);
    assert_eq!(raw[0].len(), 5);
    assert_eq!(raw[1], vec![]);
    assert_eq!(raw[3], vec![(0, f(ONE))]);
    let weights = compute_weights(&modules, &params, raw);
    // Row 0 loses its self-weight, the weight on a uid that nobody has, and
    // the weight on uid 3, which registered after row 0 was last updated.
    assert_eq!(weights[0], vec![(1, f(ONE / 4)), (2, f(3 * (ONE / 4)))]);
    // Row 2 keeps what it has; row 3 is not a validator.
    assert_eq!(weights[2], vec![(0, f(ONE / 2)), (1, f(ONE / 2))]);
    assert_eq!(weights[3], vec![]);
    assert_eq!(row_sum_sparse(&weights), vec![f(ONE), f(0), f(ONE), f(0)]);
}

#[test]
fn active_stake_sums_to_one() {
    let (params, modules) = snapshot();
    let stake = copy_vec(&modules.stake_normalized);
    let (inactive, _) =
        split_modules_by_activity(&modules.last_update, params.activity_cutoff, 1000);
    assert_eq!(inactive, vec![false, false, true, false]);
    let active = compute_active_stake(&modules, &params, &inactive, &stake);
    // Uid 2 is inactive and uid 3 is no validator.
    assert_eq!(active, vec![f(ONE / 2), f(ONE / 2), f(0), f(0)]);
    assert_eq!(vec_sum(&active), f(ONE));
    let nobody = compute_active_stake(&modules, &params, &vec![true; 4], &stake);
    assert_eq!(nobody, vec![f(0); 4]);
    assert_eq!(compute_permits(&stake, Some(3)), vec![true, false, true, true]);
    assert_eq!(compute_permits(&stake, None), vec![true; 4]);
}

#[test]
fn weights_are_clipped_to_the_consensus() {
    let active = vec![f(ONE / 2), f(ONE / 4), f(ONE / 4)];
    let mut weights = vec![
        vec![(2u16, f(ONE))],
        vec![(2u16, f(ONE / 2)), (0, f(ONE / 2))],
        vec![(0u16, f(ONE))],
    ];
    let trust = compute_consensus_and_trust(f(ONE / 2 + 1), 3, &mut weights, &active);
    assert_eq!(trust.preranks, vec![f(3 * (ONE / 8)), f(0), f(5 * (ONE / 8))]);
    // Column 2 is scored 1, 1/2 and 0: a half of the weight lies at or below 1/2.
    assert_eq!(trust.consensus, vec![f(0), f(0), f(ONE / 2)]);
    assert_eq!(weights, vec![vec![(2, f(ONE / 2))], vec![(2, f(ONE / 2))], vec![]]);
    assert_eq!(trust.validator_trust, vec![f(ONE / 2), f(ONE / 2), f(0)]);
    let incentive = compute_incentive_and_trust(3, &weights, &active, &trust.preranks);
    assert_eq!(incentive.ranks, vec![f(0), f(0), f(3 * (ONE / 8))]);
    assert_eq!(incentive.trust, vec![f(0), f(0), f(3 * (ONE / 5))]);
    assert_eq!(incentive.incentives, vec![f(0), f(0), f(ONE)]);
}

#[test]
fn bonds_pay_dividends() {
    let (params, modules) = snapshot();
    let active = vec![f(ONE / 2), f(ONE / 2), f(0), f(0)];
    let weights = vec![vec![(1u16, f(ONE))], vec![(0u16, f(ONE))], vec![], vec![]];
    let incentives = vec![f(ONE / 2), f(ONE / 2), f(0), f(0)];
    let out = compute_bonds_and_dividends(&params, &modules, 4, &weights, &active, &incentives);
    // Uid 0 and the inactive uid 2 each held half of the bonds on uid 1; the
    // new weights are all uid 0's. Uid 1 holds all bonds on uid 0.
    assert_eq!(
        out.ema_bonds,
        vec![vec![(1, f(ONE))], vec![(0, f(ONE))], vec![(1, f(ONE / 3))], vec![]]
    );
    assert_eq!(
        out.dividends,
        vec![f(3 * (ONE / 8)), f(ONE / 2), f(ONE / 8), f(0)]
    );
    assert_eq!(to_proportion_row(&out.ema_bonds[2]), vec![(1, 21844)]);
}

#[test]
fn amounts_are_summed() {
    assert_eq!(sum_amounts(&vec![u64::MAX, u64::MAX, 2]), 2 * (u64::MAX as u128) + 2);
    assert_eq!(sum_amounts(&Vec::new()), 0);
    assert_eq!(vec_to_tokens(&vec![f(ONE / 2), f(ONE / 3)], 10), vec![5, 3]);
}
