use subnet_consensus::fixed::{Fixed32, Fixed64};
use subnet_consensus::params::{
    get_float_kappa, AccountKey, ModuleKey, ParamsError, SubnetLedger, YumaParams,
};
use subnet_consensus::yuma::{compute_emissions, to_tokens, EmissionError, YumaEpoch};

const ONE: i64 = 1 << 32;

fn key(tag: u8) -> ModuleKey {
    ModuleKey([tag; 32])
}

fn ledger(stake: Vec<u64>, last_update: Vec<u64>) -> SubnetLedger {
    let n = stake.len();
    SubnetLedger {
        keys: (0..n).map(|i| key(i as u8 + 1)).collect(),
        stake,
        bonds: Vec::new(),
        weights: Vec::new(),
        last_update,
        block_at_registration: vec![1; n],
        validator_permits: vec![true; n],
        founder: AccountKey([200; 32]),
        kappa: 32767,
        current_block: 1000,
        max_weight_age: 100,
        max_allowed_validators: None,
        bonds_moving_average: 900_000,
    }
}

fn fractions(bits: &[i64]) -> Vec<Fixed32> {
    bits.iter().map(|b| Fixed32::from_bits(*b)).collect()
}

#[test]
fn two_validators_that_score_each_other_share_the_emission() {
    // A and B score each other; C never set weights and is inactive.
    let l = ledger(vec![1, 1, 1], vec![950, 950, 1]);
    let params = YumaParams::new(7, 1000, 0, &l).unwrap();
    let weights = vec![(0u16, vec![(1u16, 65535u16)]), (1u16, vec![(0u16, 65535u16)])];
    let out = YumaEpoch::new(7, params).run(weights).unwrap();
    assert_eq!(out.subnet_id, 7);
    assert_eq!(out.active, vec![true, true, false]);
    assert_eq!(out.ranks[2], 0);
    assert_eq!(out.incentives[2], 0);
    assert_eq!(out.trust[2], 0);
    assert!(out.incentives[0] > 0);
    assert_eq!(out.incentives[0], out.incentives[1]);
    assert_eq!(out.ranks[0], out.ranks[1]);
    assert_eq!(out.trust[0], out.trust[1]);
    assert_eq!(out.consensus[0], out.consensus[1]);
    assert_eq!(out.pruning_scores[0], out.pruning_scores[1]);
    assert_eq!(out.incentives[0], 32767);
    assert_eq!(out.consensus, vec![65535, 65535, 0]);
    assert_eq!(out.dividends[0], out.dividends[1]);
    assert!(out.dividends[0] > 0);
    assert_eq!(out.dividends[2], 0);
    assert_eq!(out.validator_trust, vec![65535, 65535, 0]);
    assert_eq!(out.server_emissions[0], out.server_emissions[1]);
    assert_eq!(out.validator_emissions[0], out.validator_emissions[1]);
    assert_eq!(out.server_emissions[2] + out.validator_emissions[2], 0);
    let total: u64 = out.server_emissions.iter().sum::<u64>()
        + out.validator_emissions.iter().sum::<u64>();
    assert!(total <= 1000);
    assert!(total >= 996);
    // A's bond is on B and B's on A, each the whole of its column.
    assert_eq!(out.bonds[0], Some(vec![(1, 65535)]));
    assert_eq!(out.bonds[1], Some(vec![(0, 65535)]));
    assert_eq!(out.bonds[2], Some(vec![]));
}

#[test]
fn a_minority_cannot_lift_a_score_above_the_consensus() {
    // Three active validators of equal stake; only A scores B.
    let l = ledger(vec![1, 1, 1], vec![950, 950, 950]);
    let params = YumaParams::new(7, 900, 0, &l).unwrap();
    let weights = vec![(0u16, vec![(1u16, 65535u16)])];
    let out = YumaEpoch::new(7, params).run(weights).unwrap();
    assert_eq!(out.consensus, vec![0, 0, 0]);
    assert_eq!(out.incentives, vec![0, 0, 0]);
    // Nobody earned anything: the emission goes by stake, to validators.
    assert_eq!(out.server_emissions, vec![0, 0, 0]);
    assert_eq!(out.validator_emissions, vec![299, 299, 299]);
}

#[test]
fn emission_goes_to_the_server_with_all_incentive() {
    let stake = fractions(&[ONE / 2, ONE / 2]);
    let incentives = fractions(&[ONE, 0]);
    let dividends = fractions(&[0, 0]);
    let e = compute_emissions(1000, &stake, &stake, &incentives, &dividends);
    assert_eq!(e.server_emissions, vec![1000, 0]);
    assert_eq!(e.validator_emissions, vec![0, 0]);
    assert_eq!(e.combined_emissions, vec![1000, 0]);
}

#[test]
fn emission_is_split_between_incentive_and_dividends() {
    let stake = fractions(&[ONE / 2, ONE / 2]);
    let incentives = fractions(&[ONE, 0]);
    let dividends = fractions(&[0, ONE]);
    let e = compute_emissions(1000, &stake, &stake, &incentives, &dividends);
    assert_eq!(e.server_emissions, vec![500, 0]);
    assert_eq!(e.validator_emissions, vec![0, 500]);
    assert_eq!(e.combined_emissions, vec![500, 500]);
}

#[test]
fn emission_falls_back_to_stake() {
    let stake = fractions(&[ONE / 4, 3 * (ONE / 4)]);
    let active = fractions(&[ONE, 0]);
    let none = fractions(&[0, 0]);
    let e = compute_emissions(1000, &stake, &active, &none, &none);
    assert_eq!(e.server_emissions, vec![0, 0]);
    assert_eq!(e.validator_emissions, vec![1000, 0]);
    let e = compute_emissions(1000, &stake, &none, &none, &none);
    assert_eq!(e.validator_emissions, vec![250, 750]);
}

#[test]
fn tokens_are_rounded_down() {
    assert_eq!(to_tokens(Fixed32::from_bits(ONE / 3), 1000), 333);
    assert_eq!(to_tokens(Fixed32::from_bits(ONE), u64::MAX), u64::MAX);
    assert_eq!(to_tokens(Fixed32::from_bits(2 * ONE), u64::MAX), u64::MAX);
    assert_eq!(to_tokens(Fixed32::from_bits(-ONE), 1000), 0);
    assert_eq!(to_tokens(Fixed32::from_bits(1), 1 << 32), 1);
}

#[test]
fn snapshot_is_taken_from_the_ledger() {
    let mut l = ledger(vec![1, 3], vec![950, 960]);
    l.bonds = vec![(1, vec![(0, 7)])];
    l.weights = vec![(0, vec![(1, 5)]), (0, vec![(1, 6)])];
    let p = YumaParams::new(3, 10, 2, &l).unwrap();
    assert_eq!(p.subnet_id, 3);
    assert_eq!(p.token_emission, 10);
    assert_eq!(p.founder_emission, 2);
    assert_eq!(p.modules.len(), 2);
    assert_eq!(p.modules[0].1.uid, 0);
    assert_eq!(p.modules[1].1.uid, 1);
    assert_eq!(p.modules[0].1.stake_normalized, Fixed32::from_bits(ONE / 4));
    assert_eq!(p.modules[1].1.stake_normalized, Fixed32::from_bits(3 * (ONE / 4)));
    assert_eq!(p.modules[1].1.stake_original, Fixed64::from_bits(3 << 64));
    assert_eq!(p.modules[1].1.bonds, vec![(0, 7)]);
    assert_eq!(p.modules[0].1.bonds, vec![]);
    assert_eq!(p.modules[0].1.weight_unencrypted, vec![(1, 6)]);
    assert_eq!(p.modules[1].1.last_update, 960);
    assert_eq!(p.kappa, get_float_kappa(32767));
    assert_eq!(p.kappa, Fixed32::from_bits(2147450879));
}

#[test]
fn broken_ledger_is_refused() {
    let mut l = ledger(vec![1, 3], vec![950]);
    assert_eq!(YumaParams::new(3, 10, 2, &l).err(), Some(ParamsError::LastUpdateBroken));
    l.last_update = vec![1, 2];
    l.validator_permits = vec![true];
    assert_eq!(YumaParams::new(3, 10, 2, &l).err(), Some(ParamsError::ValidatorPermitsBroken));
    l.block_at_registration = vec![];
    assert_eq!(YumaParams::new(3, 10, 2, &l).err(), Some(ParamsError::RegistrationBlockBroken));
    l.stake = vec![1];
    assert_eq!(YumaParams::new(3, 10, 2, &l).err(), Some(ParamsError::StakeBroken));
    let mut twice = ledger(vec![1, 3, 5], vec![950, 950, 950]);
    twice.keys[2] = twice.keys[0];
    assert_eq!(YumaParams::new(3, 10, 2, &twice).err(), Some(ParamsError::DuplicateKeys));
    assert_eq!(ParamsError::DuplicateKeys.message(), "Keys storage holds a key twice");
    assert_eq!(ParamsError::LastUpdateBroken.message(), "LastUpdate storage is broken");
}

#[test]
fn participants_off_their_uids_are_refused() {
    let l = ledger(vec![1, 1], vec![950, 950]);
    let mut p = YumaParams::new(3, 10, 2, &l).unwrap();
    p.modules[1].1.uid = 5;
    assert_eq!(YumaEpoch::new(3, p).run(Vec::new()).err(), Some(EmissionError::ModulesBroken));
    let mut p = YumaParams::new(3, 10, 2, &l).unwrap();
    p.modules[1].0 = p.modules[0].0;
    assert_eq!(YumaEpoch::new(3, p).run(Vec::new()).err(), Some(EmissionError::ModulesBroken));
}

#[test]
fn validators_are_limited_to_the_largest_stakes() {
    let mut l = ledger(vec![5, 1, 3, 1], vec![950, 950, 950, 950]);
    l.max_allowed_validators = Some(2);
    let params = YumaParams::new(7, 1000, 0, &l).unwrap();
    let out = YumaEpoch::new(7, params).run(Vec::new()).unwrap();
    assert_eq!(out.validator_permits, vec![true, false, true, false]);
    // Of equal stakes at the boundary the lower uid gets the permit.
    let mut l = ledger(vec![1, 1, 1], vec![950, 950, 950]);
    l.max_allowed_validators = Some(1);
    let params = YumaParams::new(7, 1000, 0, &l).unwrap();
    let out = YumaEpoch::new(7, params).run(Vec::new()).unwrap();
    assert_eq!(out.validator_permits, vec![true, false, false]);
}
