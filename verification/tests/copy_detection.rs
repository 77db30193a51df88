use parity_scale_codec::Encode;
use sp_core::Hasher;
use subnet_consensus::distribute::Percent;
use subnet_consensus::fixed::{Fixed32, Fixed64};
use subnet_consensus::params::{AccountKey, ModuleKey, SubnetLedger, YumaParams};
use subnet_consensus::process::{
    collect_decrypted, get_subnet_state, process_consensus_params, process_subnet,
    reason_to_skip, weights_to_decrypt, SubnetAction, SubnetState,
};
use subnet_consensus::profitability::{
    calculate_avg_delegate_divs, get_copier_stake, get_params_uid_deleg_stake,
    is_copying_irrational, ConsensusSimulationResult, ShouldDecryptResult,
};
use subnet_consensus::simulation::{
    add_copier_to_yuma_params, compute_simulation_yuma_params, copier_key,
    should_decrypt_weights, SimulationLedger,
};
use subnet_consensus::yuma::YumaEpoch;

const ONE: i128 = 1 << 64;

fn whole(n: i128) -> Fixed64 {
    Fixed64::from_bits(n * ONE)
}

fn sums(
    copier: i128,
    delegate: i128,
    margin: Fixed64,
    age: u64,
    period: u64,
) -> ConsensusSimulationResult {
    ConsensusSimulationResult {
        cumulative_copier_divs: whole(copier),
        cumulative_avg_delegate_divs: whole(delegate),
        copier_margin: margin,
        black_box_age: age,
        max_encryption_period: period,
    }
}

fn ledger(stake: Vec<u64>, last_update: Vec<u64>) -> SubnetLedger {
    let n = stake.len();
    SubnetLedger {
        keys: (0..n).map(|i| ModuleKey([i as u8 + 1; 32])).collect(),
        stake,
        bonds: Vec::new(),
        weights: Vec::new(),
        last_update,
        block_at_registration: vec![1; n],
        validator_permits: vec![true; n],
        founder: AccountKey([200; 32]),
        kappa: 32767,
        current_block: 1000,
        max_weight_age: 100,
        max_allowed_validators: None,
        bonds_moving_average: 900_000,
    }
}

fn snapshot() -> YumaParams {
    YumaParams::new(7, 1000, 0, &ledger(vec![100, 300], vec![950, 950])).unwrap()
}

fn simulation_ledger(consensus: Vec<u16>) -> SimulationLedger {
    SimulationLedger {
        consensus,
        weights: vec![(0, vec![(1, 65535)]), (1, vec![(0, 65535)])],
        active: vec![true, true],
        copier_bonds: Vec::new(),
        tempo: 100,
        delegation_fee: Percent::from_percent(20),
        max_encryption_period: 1000,
        copier_margin: Fixed64::from_bits(ONE / 10),
    }
}

#[test]
fn copier_below_the_margin_is_irrational() {
    let tenth = Fixed64::from_bits(ONE / 10);
    let (irrational, delta) = is_copying_irrational(sums(105, 100, tenth, 10, 100));
    assert!(irrational);
    assert_eq!(delta.to_bits(), -92233720368547758020);
    let (irrational, delta) = is_copying_irrational(sums(111, 100, tenth, 10, 100));
    assert!(!irrational);
    assert!(delta.to_bits() > 0);
}

#[test]
fn copier_at_the_threshold_is_irrational() {
    let half = Fixed64::from_bits(ONE / 2);
    assert_eq!(is_copying_irrational(sums(150, 100, half, 10, 100)), (true, whole(0)));
    assert_eq!(is_copying_irrational(sums(151, 100, half, 10, 100)), (false, whole(1)));
}

#[test]
fn expired_window_forces_decryption() {
    let tenth = Fixed64::from_bits(ONE / 10);
    assert_eq!(is_copying_irrational(sums(1000, 1, tenth, 100, 100)), (true, whole(0)));
    assert_eq!(is_copying_irrational(sums(1000, 1, tenth, 101, 100)), (true, whole(0)));
    assert_eq!(is_copying_irrational(sums(1000, 1, tenth, 0, 0)), (true, whole(0)));
    assert!(!is_copying_irrational(sums(1000, 1, tenth, 99, 100)).0);
}

#[test]
fn copier_key_is_the_hash_of_its_seed() {
    let seed = (b"copier", 5u16, 259u16).encode();
    assert_eq!(seed, vec![0x63, 0x6f, 0x70, 0x69, 0x65, 0x72, 5, 0, 3, 1]);
    let expected = sp_core::Blake2Hasher::hash(&seed);
    assert_eq!(copier_key(5, 259).0, expected.0);
    assert_ne!(copier_key(5, 259).0, copier_key(5, 3).0);
    assert_ne!(copier_key(5, 259).0, [0u8; 32]);
}

#[test]
fn copier_joins_with_the_stake_of_all_validators() {
    let params = snapshot();
    assert_eq!(get_copier_stake(&params, &vec![true, true]), 400);
    assert_eq!(get_copier_stake(&params, &vec![false, true, true]), 300);
    assert_eq!(get_copier_stake(&params, &vec![true]), 100);
    assert_eq!(get_copier_stake(&params, &Vec::new()), 0);
    assert_eq!(get_params_uid_deleg_stake(&params, 1), 300);
    assert_eq!(get_params_uid_deleg_stake(&params, 2), 0);
    let with = add_copier_to_yuma_params(2, params, 7, 400, vec![(0, 9)]);
    assert_eq!(with.modules.len(), 3);
    let (key, copier) = &with.modules[2];
    assert_eq!(*key, copier_key(7, 2));
    assert_eq!(copier.uid, 2);
    assert_eq!(copier.last_update, 1000);
    assert_eq!(copier.block_at_registration, 999);
    assert!(copier.validator_permit);
    assert_eq!(copier.stake_original, whole(400));
    assert_eq!(copier.stake_normalized, Fixed32::from_bits(1 << 31));
    assert_eq!(copier.bonds, vec![(0, 9)]);
    assert_eq!(with.modules[0].1.stake_normalized, Fixed32::from_bits(1 << 29));
    assert_eq!(with.modules[1].1.stake_normalized, Fixed32::from_bits(3 << 29));
    assert_eq!(with.modules[1].1.stake_original, whole(300));
    assert_eq!(with.modules[0].0, ModuleKey([1; 32]));
    assert_eq!(with.token_emission, 1000);
}

#[test]
fn nothing_is_simulated_without_a_consensus() {
    let decrypted = vec![(0u16, vec![(1u16, 5u16)])];
    assert!(compute_simulation_yuma_params(&decrypted, snapshot(), 7, &simulation_ledger(vec![]))
        .is_none());
    assert!(compute_simulation_yuma_params(
        &decrypted,
        snapshot(),
        7,
        &simulation_ledger(vec![0, 0])
    )
    .is_none());
    let sim =
        compute_simulation_yuma_params(&decrypted, snapshot(), 7, &simulation_ledger(vec![0, 4]))
            .unwrap();
    assert_eq!(sim.uid, 2);
    assert_eq!(sim.params.modules.len(), 3);
    assert_eq!(
        sim.decrypted_weights_map,
        vec![
            (0, vec![(1, 65535)]),
            (1, vec![(0, 65535)]),
            (0, vec![(1, 5)]),
            (2, vec![(0, 0), (1, 4)]),
        ]
    );
    let default = ConsensusSimulationResult::default();
    let given = sums(3, 4, whole(0), 5, 1000);
    let simulated =
        should_decrypt_weights(&decrypted, snapshot(), 7, given, &simulation_ledger(vec![]));
    assert!(simulated.answer.should_decrypt);
    assert_eq!(simulated.answer.simulation_result, default);
    assert_eq!(simulated.answer.delta, whole(0));
    assert_eq!(simulated.copier_bonds, None);
    assert_eq!(simulated.sums, given);
}

#[test]
fn nothing_is_decided_without_decrypted_weights() {
    let l = simulation_ledger(vec![65535, 65535]);
    let before = sums(5, 6, whole(0), 10, 1000);
    let simulated = should_decrypt_weights(&Vec::new(), snapshot(), 7, before, &l);
    assert_eq!(simulated.answer, ShouldDecryptResult::default());
    assert_eq!(simulated.copier_bonds, None);
    assert_eq!(simulated.sums, before);
}

#[test]
fn average_delegate_dividends_follow_the_formula() {
    let l = ledger(vec![100, 300, 400], vec![950, 950, 950]);
    let params = YumaParams::new(7, 1000, 0, &l).unwrap();
    let mut out = YumaEpoch::new(7, params).run(Vec::new()).unwrap();
    out.dividends = vec![10, 30, 50];
    // 40 dividends on 400 tokens of stake, less a fifth, on the copier's 400 tokens.
    let avg = calculate_avg_delegate_divs(&out, 2, Percent::from_percent(20)).unwrap();
    assert_eq!(avg.to_bits(), 590295810358705651200);
    assert_eq!(avg.saturating_to_u64(), 31);
    out.dividends = vec![0, 0, 50];
    assert_eq!(calculate_avg_delegate_divs(&out, 2, Percent::from_percent(20)), None);
    let mut s = sums(1, 2, whole(0), 10, 0);
    out.dividends = vec![10, 30, 50];
    s.update(&out, 100, 2, Percent::from_percent(20), 777, whole(3));
    assert_eq!(s.cumulative_copier_divs, whole(51));
    assert_eq!(
        s.cumulative_avg_delegate_divs.to_bits(),
        2 * ONE + 590295810358705651200
    );
    assert_eq!(s.black_box_age, 110);
    assert_eq!(s.max_encryption_period, 777);
    assert_eq!(s.copier_margin, whole(3));
    s.black_box_age = u64::MAX - 5;
    s.update(&out, 100, 9, Percent::from_percent(20), 777, whole(3));
    assert_eq!(s.black_box_age, u64::MAX);
    assert_eq!(s.cumulative_copier_divs, whole(51));
}

#[test]
fn simulation_adds_the_dividends_up() {
    let l = simulation_ledger(vec![65535, 65535]);
    let decrypted = vec![(0u16, vec![(1u16, 65535u16)])];
    let before = sums(0, 0, Fixed64::from_bits(ONE / 10), 0, 1000);
    let simulated = should_decrypt_weights(&decrypted, snapshot(), 7, before, &l);
    let answer = simulated.answer;
    let bonds = simulated.copier_bonds;
    let after = answer.simulation_result;
    assert_eq!(simulated.sums, after);
    assert_eq!(after.black_box_age, 100);
    assert_eq!(after.max_encryption_period, 1000);
    assert!(after.cumulative_copier_divs.to_bits() > 0);
    assert!(after.cumulative_avg_delegate_divs.to_bits() > 0);
    assert_eq!(is_copying_irrational(after).0, answer.should_decrypt);
    assert_eq!(answer.delta, is_copying_irrational(after).1.saturating_abs());
    // The copier holds a permit and leaves the epoch with bonds on both.
    let bonds = bonds.unwrap();
    assert_eq!(bonds.len(), 2);
    assert_eq!((bonds[0].0, bonds[1].0), (0, 1));
}

#[test]
fn a_second_pass_changes_nothing() {
    let l = simulation_ledger(vec![65535, 65535]);
    let params = vec![(10u64, snapshot()), (20u64, snapshot())];
    let decrypted =
        vec![vec![(0u16, vec![(1u16, 65535u16)])], vec![(1u16, vec![(0u16, 65535u16)])]];
    let start = get_subnet_state(None, whole(0), Fixed64::from_bits(ONE / 10), 1000);
    assert_eq!(start.last_processed_block, 0);
    let (once, action, _) = process_subnet(start, 7, &params, &decrypted, 1, 50, false, &l);
    let (twice, again, bonds) = process_subnet(once, 7, &params, &decrypted, 1, 50, false, &l);
    assert_eq!(twice, once);
    match action {
        SubnetAction::SaveState => {
            assert_eq!(once.last_processed_block, 20);
            assert_eq!(again, SubnetAction::AlreadyProcessed);
            assert_eq!(bonds, None);
        }
        SubnetAction::SendWeights { .. } => {
            assert_eq!(once, start);
            assert_eq!(again, action);
        }
        _ => panic!("the subnet is registered and has snapshots"),
    }
}

#[test]
fn a_pass_skips_what_is_stale_or_done() {
    let l = simulation_ledger(vec![65535, 65535]);
    let params = vec![(10u64, snapshot())];
    let state =
        SubnetState { last_processed_block: 10, simulation_result: sums(1, 2, whole(0), 3, 4) };
    let (after, action, _) = process_subnet(state, 7, &params, &Vec::new(), 1, 50, true, &l);
    assert_eq!((after, action), (state, SubnetAction::AlreadyProcessed));
    let earlier = SubnetState { last_processed_block: 0, ..state };
    let (after, action, _) = process_subnet(earlier, 7, &params, &Vec::new(), 51, 50, true, &l);
    assert_eq!((after, action), (earlier, SubnetAction::Deregistered));
    let stored = get_subnet_state(Some(state), whole(9), whole(9), 9);
    assert_eq!(stored, state);
}

#[test]
fn rotation_forces_the_weights_out() {
    let l = simulation_ledger(vec![65535, 65535]);
    let params = vec![(10u64, snapshot())];
    let before = sums(0, 0, whole(0), 0, 1000);
    // Nothing was decrypted: there is nothing to decide, but it is this worker's turn.
    let done = process_consensus_params(7, &params, &Vec::new(), before, true, &l);
    assert!(done.should_send);
    assert!(done.forced_send);
    assert_eq!(done.result, ShouldDecryptResult::default());
    let done = process_consensus_params(7, &params, &Vec::new(), before, false, &l);
    assert!(!done.should_send);
    assert!(!done.forced_send);
    assert_eq!(done.result.simulation_result, before);
    let state = SubnetState { last_processed_block: 0, simulation_result: before };
    let (after, action, _) = process_subnet(state, 7, &params, &Vec::new(), 1, 50, true, &l);
    assert_eq!(after, state);
    assert_eq!(action, SubnetAction::SendWeights { delta: whole(0), forced_send: true });
    let (after, action, _) = process_subnet(state, 7, &params, &Vec::new(), 1, 50, false, &l);
    assert_eq!(action, SubnetAction::SaveState);
    assert_eq!(after, SubnetState { last_processed_block: 10, simulation_result: before });
}

#[test]
fn decrypted_weights_are_collected() {
    let mut first = snapshot();
    first.modules[1].1.weight_encrypted = vec![1, 2, 3];
    let mut second = snapshot();
    second.modules[0].1.uid = 4;
    second.modules[0].1.weight_encrypted = vec![9];
    let params = vec![(10u64, first), (20u64, second)];
    // The uid is the one that the first snapshot has for the key.
    let requests = weights_to_decrypt(&params, 1);
    assert_eq!(requests, vec![(0, vec![9]), (1, vec![])]);
    assert_eq!(weights_to_decrypt(&params, 0), vec![(0, vec![]), (1, vec![1, 2, 3])]);
    assert_eq!(weights_to_decrypt(&params, 2), Vec::new());
    let decrypted = collect_decrypted(&requests, &vec![Some(vec![(1, 7)]), Some(vec![(0, 8)])]);
    assert_eq!(decrypted, vec![(0, vec![(1, 7)]), (1, vec![])]);
    let failed = collect_decrypted(&requests, &vec![None]);
    assert_eq!(failed, vec![(1, vec![])]);
}

#[test]
fn the_sums_grow_with_every_snapshot() {
    let l = simulation_ledger(vec![65535, 65535]);
    let params = vec![(10u64, snapshot()), (20u64, snapshot()), (30u64, snapshot())];
    let weights = vec![(0u16, vec![(1u16, 65535u16)])];
    let decrypted = vec![weights.clone(), weights.clone(), weights.clone()];
    // A margin so wide that copying stays rational and nothing is sent.
    let before = sums(0, 0, whole(-2), 0, 1000);
    let one = should_decrypt_weights(&weights, snapshot(), 7, before, &l);
    assert!(!one.answer.should_decrypt);
    let two = should_decrypt_weights(&weights, snapshot(), 7, one.sums, &l);
    let three = should_decrypt_weights(&weights, snapshot(), 7, two.sums, &l);
    assert!(!two.answer.should_decrypt && !three.answer.should_decrypt);
    let done = process_consensus_params(7, &params, &decrypted, before, false, &l);
    assert!(!done.should_send);
    assert!(!done.forced_send);
    assert!(!done.result.should_decrypt);
    assert_eq!(done.result.delta, whole(0));
    assert_eq!(done.result.simulation_result, three.sums);
    assert_eq!(done.result.simulation_result.black_box_age, 300);
    assert_eq!(
        done.result.simulation_result.cumulative_copier_divs.to_bits(),
        3 * one.sums.cumulative_copier_divs.to_bits()
    );
    assert!(one.sums.cumulative_copier_divs.to_bits() > 0);
    assert_eq!(done.copier_bonds, three.copier_bonds);
    // The state that is kept holds the sums after all three snapshots.
    let state = SubnetState { last_processed_block: 0, simulation_result: before };
    let (kept, action, _) = process_subnet(state, 7, &params, &decrypted, 1, 50, false, &l);
    assert_eq!(action, SubnetAction::SaveState);
    assert_eq!(kept, SubnetState { last_processed_block: 30, simulation_result: three.sums });
    // A later pass goes on from there.
    let more = vec![(10u64, snapshot()), (40u64, snapshot())];
    let (later, _, _) = process_subnet(kept, 7, &more, &vec![weights], 1, 50, false, &l);
    assert_eq!(later.last_processed_block, 40);
    assert_eq!(later.simulation_result.black_box_age, 400);
}

#[test]
fn a_pass_says_first_whether_it_is_due() {
    let params = vec![(10u64, snapshot())];
    let state =
        SubnetState { last_processed_block: 10, simulation_result: sums(1, 2, whole(0), 3, 4) };
    assert_eq!(reason_to_skip(state, &params, 1, 50), Some(SubnetAction::AlreadyProcessed));
    assert_eq!(reason_to_skip(state, &params, 51, 50), Some(SubnetAction::Deregistered));
    let earlier = SubnetState { last_processed_block: 9, ..state };
    assert_eq!(reason_to_skip(earlier, &params, 50, 50), None);
    assert_eq!(reason_to_skip(earlier, &Vec::new(), 50, 50), Some(SubnetAction::AlreadyProcessed));
}
