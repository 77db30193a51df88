use subnet_consensus::bonds::{bond_averaging, sum_weighted_bonds, BondAveraging};
use subnet_consensus::distribute::{ModuleStakeInfo, Percent, StakeIncrease};
use subnet_consensus::emission::{
    apply_emissions, can_remove_subnet, finalize_epoch, get_consensus_netuid,
    get_lowest_emission_netuid, is_mineable_subnet, output_tuples, replay_block, replay_order,
    run_epoch,
    update_pending_emission, yuma_mode, EpochStep, SubnetConsensus, SubnetEmissionInfo,
    TreasuryEpoch, YumaMode,
};
use subnet_consensus::fixed::Fixed64;
use subnet_consensus::governance::{RuntimeDbWeight, SubstrateWeight, Weight, WeightInfo};
use subnet_consensus::modes::{LinearEpoch, YumaCalc};
use subnet_consensus::network::{
    remove_module, NetworkError, Removal, SubnetDistributionParameters,
};
use subnet_consensus::params::{AccountKey, ModuleKey, ParamsError, SubnetLedger, YumaParams};
use subnet_consensus::registration::{
    check_burned_stake, check_deregistered, do_deregister, do_register,
    enough_stake_to_register, get_lowest_uid, get_min_stake_to_register,
    get_pruning_score_for_uid, random_idx, subnet_to_replace, RegistrationContext,
    RegistrationError, RegistrationPlan, Replacement,
};
use subnet_consensus::voting::{
    check_proposal, check_proposal_approval, get_proposal_vote_threshold, get_voting_power,
    has_max_proposals, is_proposal_owner, is_vote_available, next_proposal_id,
    proposal_to_remove, register_voter, unregister_voter, Proposal, ProposalMode,
    ProposalStanding, VotingError,
};
use subnet_consensus::weights::{
    check_len_uids_within_allowed, contains_invalid_uids, do_set_weights, has_duplicate_uids,
    is_self_weight, normalize_weights, uids_match_len, WeightsContext, WeightsError,
};
use subnet_consensus::yuma::EmissionError;

fn ledger(stake: Vec<u64>, last_update: Vec<u64>) -> SubnetLedger {
    let n = stake.len();
    SubnetLedger {
        keys: (0..n).map(|i| ModuleKey([i as u8 + 1; 32])).collect(),
        stake,
        bonds: Vec::new(),
        weights: Vec::new(),
        last_update,
        block_at_registration: vec![1; n],
        validator_permits: vec![true; n],
        founder: AccountKey([1; 32]),
        kappa: 32767,
        current_block: 1000,
        max_weight_age: 100,
        max_allowed_validators: None,
        bonds_moving_average: 900_000,
    }
}

fn context() -> WeightsContext {
    WeightsContext {
        stake: 100,
        min_weight_stake: 10,
        subnet_exists: true,
        uid: Some(0),
        n: 5,
        min_allowed_weights: 1,
        max_allowed_weights: 3,
        current_block: 77,
    }
}

#[test]
fn weights_are_normalized_to_all() {
    assert_eq!(normalize_weights(vec![1, 1, 2]), vec![16383, 16383, 32767]);
    assert_eq!(normalize_weights(vec![0, 0]), vec![0, 0]);
    assert_eq!(normalize_weights(vec![65535, 65535]), vec![32767, 32767]);
    assert_eq!(normalize_weights(vec![5]), vec![65535]);
    assert_eq!(normalize_weights(vec![]), Vec::<u16>::new());
}

#[test]
fn uids_are_checked() {
    assert!(has_duplicate_uids(&vec![1, 2, 1]));
    assert!(!has_duplicate_uids(&vec![1, 2, 3]));
    assert!(!has_duplicate_uids(&vec![]));
    assert!(contains_invalid_uids(3, &vec![0, 3]));
    assert!(!contains_invalid_uids(3, &vec![0, 2]));
    assert!(is_self_weight(2, &vec![0, 2]));
    assert!(!is_self_weight(1, &vec![0, 2]));
    assert!(uids_match_len(&vec![1], &vec![9]));
    assert!(!uids_match_len(&vec![1], &vec![]));
    assert!(check_len_uids_within_allowed(1, 2, &vec![5, 6]));
    assert!(!check_len_uids_within_allowed(1, 2, &vec![5, 6, 7]));
    assert!(!check_len_uids_within_allowed(1, 2, &vec![]));
}

#[test]
fn weights_are_taken_in() {
    let set = do_set_weights(&context(), vec![1, 3], vec![10, 30]).unwrap();
    assert_eq!(set.uid, 0);
    assert_eq!(set.weights, vec![(1, 16383), (3, 49151)]);
    assert_eq!(set.last_update, 77);
}

#[test]
fn weights_that_break_a_rule_are_refused() {
    let c = context();
    let refuse = |ctx: &WeightsContext, uids: Vec<u16>, values: Vec<u16>| {
        do_set_weights(ctx, uids, values).err()
    };
    assert_eq!(refuse(&c, vec![1], vec![]), Some(WeightsError::WeightVecNotEqualSize));
    let poor = WeightsContext { stake: 19, ..c };
    assert_eq!(refuse(&poor, vec![1, 2], vec![1, 1]), Some(WeightsError::NotEnoughtStakePerWeight));
    let broke = WeightsContext { stake: 0, min_weight_stake: 0, ..c };
    assert_eq!(refuse(&broke, vec![1], vec![1]), Some(WeightsError::NotEnoughStaketoSetWeights));
    let nowhere = WeightsContext { subnet_exists: false, ..c };
    assert_eq!(refuse(&nowhere, vec![1], vec![1]), Some(WeightsError::NetworkDoesNotExist));
    let stranger = WeightsContext { uid: None, ..c };
    assert_eq!(refuse(&stranger, vec![1], vec![1]), Some(WeightsError::NotRegistered));
    assert_eq!(refuse(&c, vec![1, 1], vec![1, 1]), Some(WeightsError::DuplicateUids));
    assert_eq!(refuse(&c, vec![1, 5], vec![1, 1]), Some(WeightsError::InvalidUid));
    assert_eq!(refuse(&c, vec![1, 0], vec![1, 1]), Some(WeightsError::NoSelfWeight));
    assert_eq!(refuse(&c, vec![], vec![]), Some(WeightsError::NotSettingEnoughWeights));
    assert_eq!(refuse(&c, vec![1, 2, 3, 4], vec![1; 4]), Some(WeightsError::TooManyUids));
}

#[test]
fn registration_takes_stake() {
    assert!(enough_stake_to_register(10, 5, 15));
    assert!(!enough_stake_to_register(10, 5, 14));
    assert!(!enough_stake_to_register(u64::MAX, 1, u64::MAX));
    assert_eq!(get_min_stake_to_register(100, 0, 10), 100);
    assert_eq!(get_min_stake_to_register(100, 9, 10), 100);
    assert_eq!(get_min_stake_to_register(100, 10, 10), 200);
    assert_eq!(get_min_stake_to_register(100, 35, 10), 800);
    assert_eq!(get_min_stake_to_register(100, 5, 0), 100);
    assert_eq!(get_min_stake_to_register(1 << 62, 30, 10), u64::MAX);
}

#[test]
fn the_lowest_emission_out_of_immunity_is_pruned() {
    let emissions = vec![5, 1, 3, 2];
    assert_eq!(get_pruning_score_for_uid(&emissions, 2), 3);
    assert_eq!(get_pruning_score_for_uid(&emissions, 9), 0);
    let blocks = vec![10, 95, 10, 10];
    // Uid 1 registered five blocks ago and is still immune.
    assert_eq!(get_lowest_uid(4, &vec![], &emissions, &blocks, 100, 10), (3, false));
    assert_eq!(get_lowest_uid(4, &vec![], &emissions, &blocks, 100, 5), (1, false));
    assert_eq!(get_lowest_uid(4, &vec![2, 1], &emissions, &blocks, 100, 5), (2, true));
    assert_eq!(get_lowest_uid(4, &vec![7], &emissions, &blocks, 100, 5), (1, false));
    assert_eq!(get_lowest_uid(4, &vec![], &emissions, &vec![99; 4], 100, 10), (0, false));
    assert_eq!(get_lowest_uid(0, &vec![], &emissions, &blocks, 100, 10), (0, false));
    assert_eq!(get_lowest_uid(3, &vec![], &vec![4, 4, 4], &vec![0; 3], 100, 10), (0, false));
}

#[test]
fn a_full_network_replaces_its_least_staked_subnet() {
    let subnets = vec![(0u16, 50u64), (1, 20), (2, 20), (3, 70)];
    assert_eq!(subnet_to_replace(4, 5, &subnets, 1), Ok(None));
    assert_eq!(subnet_to_replace(4, 4, &subnets, 21), Ok(Some(2)));
    assert_eq!(
        subnet_to_replace(4, 4, &subnets, 20),
        Err(RegistrationError::NotEnoughStakeToStartNetwork)
    );
    assert_eq!(
        subnet_to_replace(0, 0, &vec![], u64::MAX),
        Err(RegistrationError::NotEnoughStakeToStartNetwork)
    );
    assert_eq!(random_idx(65535 + 7, 5), Some(2));
    assert_eq!(random_idx(9, 0), None);
    assert_eq!(remove_module(0, 0), Ok(None));
    assert_eq!(remove_module(0, 7), Ok(None));
    assert_eq!(remove_module(3, 3), Err(NetworkError::ModuleDoesNotExist));
    assert_eq!(remove_module(3, 1), Ok(Some(Removal { uid: 1, replace_uid: 2, remaining: 2 })));
    assert_eq!(SubnetDistributionParameters, SubnetDistributionParameters);
}

#[test]
fn subnets_are_told_apart_by_their_consensus() {
    assert!(can_remove_subnet(Some(SubnetConsensus::Yuma)));
    assert!(!can_remove_subnet(Some(SubnetConsensus::Linear)));
    assert!(!can_remove_subnet(None));
    assert!(is_mineable_subnet(Some(SubnetConsensus::Yuma)));
    assert!(is_mineable_subnet(Some(SubnetConsensus::Linear)));
    assert!(!is_mineable_subnet(Some(SubnetConsensus::Treasury)));
    assert!(!is_mineable_subnet(Some(SubnetConsensus::Root)));
    assert!(!is_mineable_subnet(None));
    let types = vec![
        (4u16, SubnetConsensus::Yuma),
        (0, SubnetConsensus::Root),
        (9, SubnetConsensus::Yuma),
    ];
    assert_eq!(get_consensus_netuid(&types, SubnetConsensus::Yuma), Some(4));
    assert_eq!(get_consensus_netuid(&types, SubnetConsensus::Root), Some(0));
    assert_eq!(get_consensus_netuid(&types, SubnetConsensus::Treasury), None);
}

#[test]
fn the_subnet_with_the_lowest_emission_makes_room() {
    let subnet = |netuid, emission, consensus, n, registration_block| SubnetEmissionInfo {
        netuid,
        emission,
        consensus,
        n,
        registration_block,
    };
    let yuma = Some(SubnetConsensus::Yuma);
    let subnets = vec![
        subnet(0, 1, Some(SubnetConsensus::Linear), 5, None),
        subnet(1, 30, yuma, 5, Some(10)),
        subnet(2, 20, yuma, 5, Some(95)),
        subnet(3, 25, yuma, 5, None),
        subnet(4, 2, yuma, 0, None),
        subnet(5, 25, yuma, 5, Some(1)),
    ];
    assert_eq!(get_lowest_emission_netuid(&subnets, false, 100, 10), Some(3));
    assert_eq!(get_lowest_emission_netuid(&subnets, true, 100, 10), Some(2));
    assert_eq!(get_lowest_emission_netuid(&subnets[..1].to_vec(), true, 100, 10), None);
}

#[test]
fn the_epoch_runs_when_it_is_due() {
    assert_eq!(update_pending_emission(5, 7), 12);
    assert_eq!(update_pending_emission(u64::MAX, 7), u64::MAX);
    let yuma = Some(SubnetConsensus::Yuma);
    assert_eq!(
        run_epoch(0, 9, yuma),
        EpochStep::Run { consensus: SubnetConsensus::Yuma, emission_to_drain: 9 }
    );
    assert_eq!(run_epoch(1, 9, yuma), EpochStep::Wait);
    assert_eq!(run_epoch(0, 0, yuma), EpochStep::Wait);
    assert_eq!(run_epoch(0, 9, None), EpochStep::Wait);
    assert_eq!(finalize_epoch(9, true), 0);
    assert_eq!(finalize_epoch(9, false), 9);
    assert_eq!(TreasuryEpoch::new(3, 77).run(), 77);
    assert_eq!(yuma_mode(true, true), YumaMode::Replay);
    assert_eq!(yuma_mode(true, false), YumaMode::Default);
    assert_eq!(yuma_mode(false, true), YumaMode::Default);
}

#[test]
fn a_replayed_block_carries_its_emission_over() {
    let params = YumaParams::new(7, 1, 0, &ledger(vec![1, 1], vec![950, 950])).unwrap();
    let (out, left) = replay_block(7, &params, 600, 400, Vec::new());
    let out = out.unwrap();
    assert_eq!(left, 0);
    assert_eq!(out.params.token_emission, 1000);
    assert_eq!(out.validator_emissions, vec![500, 500]);
    let mut broken = YumaParams::new(7, 1, 0, &ledger(vec![1, 1], vec![950, 950])).unwrap();
    broken.modules[0].1.uid = 3;
    let (out, left) = replay_block(7, &broken, 600, 400, Vec::new());
    assert_eq!(out.err(), Some(EmissionError::ModulesBroken));
    assert_eq!(left, 1000);
}

#[test]
fn the_epoch_on_the_ledgers_weights_is_distributed() {
    let mut l = ledger(vec![1, 1], vec![950, 950]);
    l.weights = vec![(0, vec![(1, 65535)]), (1, vec![(0, 65535)])];
    let out = YumaCalc::new(7, 1000, 10, &l).unwrap().run().unwrap();
    assert_eq!(out.incentives, vec![32767, 32767]);
    // Incentive and dividends are a half each, of twice a half in all.
    assert_eq!(out.server_emissions, vec![250, 250]);
    assert_eq!(out.validator_emissions, vec![250, 250]);
    assert_eq!(
        output_tuples(&out),
        vec![(ModuleKey([1; 32]), 250, 250), (ModuleKey([2; 32]), 250, 250)]
    );
    let info = || ModuleStakeInfo {
        ownership: vec![(AccountKey([50; 32]), Fixed64::from_bits(1 << 63))],
        delegation_fee: Percent::from_percent(0),
        profit_share_emissions: Vec::new(),
    };
    let incs = YumaCalc::distribute_emissions(&out, &vec![info(), info()]).unwrap();
    let inc = |m: u8, a: u8, amount| StakeIncrease {
        module_key: ModuleKey([m; 32]),
        account_key: AccountKey([a; 32]),
        amount,
    };
    // The first participant is the founder and gets the founder's ten tokens.
    assert_eq!(incs, vec![inc(1, 50, 125), inc(1, 1, 385), inc(2, 50, 125), inc(2, 2, 375)]);
    assert_eq!(apply_emissions(&out, &vec![info(), info()]).unwrap(), incs);
    assert_eq!(
        YumaCalc::new(7, 1000, 10, &ledger(vec![1], vec![])).err(),
        Some(ParamsError::LastUpdateBroken)
    );
}

#[test]
fn the_linear_epoch_pays_by_rank() {
    let params = YumaParams::new(7, 1000, 0, &ledger(vec![1, 1, 2], vec![950, 950, 950])).unwrap();
    let weights = vec![(0u16, vec![(1u16, 1u16), (2, 3)]), (2u16, vec![(1u16, 7u16)])];
    let out = LinearEpoch::new(7, params).run(weights).unwrap();
    // Ranks: a quarter of 3/4 on uid 2; a quarter of 1/4 and a half of 1 on uid 1.
    assert_eq!(out.ranks, vec![0, 36863, 12287]);
    assert_eq!(out.incentives, vec![0, 49151, 16383]);
    assert_eq!(out.server_emissions, vec![0, 750, 250]);
    assert_eq!(out.validator_emissions, vec![0, 0, 0]);
    assert_eq!(out.dividends, vec![0, 0, 0]);
    assert_eq!(out.bonds, vec![None, None, None]);
    assert_eq!(out.pruning_scores, vec![0, 65535, 21845]);
    let params = YumaParams::new(7, 1000, 0, &ledger(vec![1, 3], vec![950, 950])).unwrap();
    let out = LinearEpoch::new(7, params).run(Vec::new()).unwrap();
    assert_eq!(out.server_emissions, vec![250, 750]);
    let mut broken = YumaParams::new(7, 1000, 0, &ledger(vec![1, 3], vec![950, 950])).unwrap();
    broken.modules[1].1.uid = 0;
    assert_eq!(
        LinearEpoch::new(7, broken).run(Vec::new()).err(),
        Some(EmissionError::ModulesBroken)
    );
}

#[test]
fn votes_are_counted() {
    assert!(has_max_proposals(2, 3));
    assert!(!has_max_proposals(3, 3));
    assert_eq!(next_proposal_id(&vec![0, 1, 3]), Some(2));
    assert_eq!(next_proposal_id(&vec![5]), Some(0));
    assert_eq!(get_voting_power(ProposalMode::Subnet, 5, 9), 5);
    assert_eq!(get_voting_power(ProposalMode::Global, 5, 9), 9);
    assert_eq!(get_voting_power(ProposalMode::Custom, 5, 9), 9);
    assert_eq!(get_proposal_vote_threshold(1000, 50), 500);
    assert_eq!(get_proposal_vote_threshold(999, 50), 499);
    assert_eq!(get_proposal_vote_threshold(u64::MAX, 200), u64::MAX);
    assert!(check_proposal_approval(501, 500));
    assert!(!check_proposal_approval(500, 500));
    let mut proposal = Proposal {
        mode: ProposalMode::Custom,
        netuid: 0,
        votes: 0,
        participants: Vec::new(),
        accepted: false,
        data: vec![1],
        vote_threshold: 50,
    };
    let owner = AccountKey([1; 32]);
    let other = AccountKey([2; 32]);
    assert!(is_vote_available(&owner, &proposal));
    assert!(!is_proposal_owner(&owner, &proposal));
    let first = register_voter(&owner, 4, 10, &mut proposal);
    let second = register_voter(&other, 4, u64::MAX, &mut proposal);
    assert_eq!((first.proposal_id, first.votes, first.participant_index), (4, 10, 0));
    assert_eq!(second.participant_index, 1);
    assert_eq!(proposal.votes, u64::MAX);
    assert_eq!(proposal.participants, vec![owner, other]);
    assert!(is_proposal_owner(&owner, &proposal));
    assert!(!is_proposal_owner(&other, &proposal));
    assert!(!is_vote_available(&other, &proposal));
    // The votes were held at the largest number: none are left.
    assert!(unregister_voter(&second, &mut proposal));
    assert_eq!(proposal.votes, 0);
    assert_eq!(proposal.participants, vec![owner]);
    proposal.votes = 15;
    assert!(!unregister_voter(&second, &mut proposal));
    assert_eq!(proposal.participants, vec![owner]);
    assert!(unregister_voter(&first, &mut proposal));
    assert_eq!(proposal.votes, 5);
    assert_eq!(proposal.participants, Vec::new());
    proposal.accepted = true;
    assert!(!is_vote_available(&owner, &proposal));
}

#[test]
fn calls_cost_their_measure_and_the_ledgers_work() {
    let w = SubstrateWeight { db_weight: RuntimeDbWeight { read: 25, write: 100 } };
    assert_eq!(
        w.add_global_params_proposal(),
        Weight { ref_time: 41_437_000 + 17 * 25 + 2 * 100, proof_size: 3569 }
    );
    assert_eq!(
        w.add_subnet_params_proposal(),
        Weight { ref_time: 105_367_000 + 41 * 25 + 2 * 100, proof_size: 18248 }
    );
    assert_eq!(
        w.vote_proposal(),
        Weight { ref_time: 27_301_000 + 4 * 25 + 100, proof_size: 6911 }
    );
    assert_eq!(
        w.remove_from_whitelist(),
        Weight { ref_time: 8_095_000 + 2 * 25 + 100, proof_size: 3498 }
    );
    let heavy = SubstrateWeight { db_weight: RuntimeDbWeight { read: u64::MAX, write: 1 } };
    assert_eq!(heavy.add_to_whitelist(), Weight { ref_time: u64::MAX, proof_size: 6634 });
    assert_eq!(
        Weight::from_parts(u64::MAX, 5).saturating_add(Weight::from_parts(1, u64::MAX)),
        Weight { ref_time: u64::MAX, proof_size: u64::MAX }
    );
    assert_eq!(w.db_weight.reads(3), Weight { ref_time: 75, proof_size: 0 });
    assert_eq!(w.db_weight.writes(3), Weight { ref_time: 300, proof_size: 0 });
}

#[test]
fn average_bonds_are_weighted_by_stake() {
    let mut l = ledger(vec![100, 300, 50], vec![950, 950, 950]);
    l.bonds = vec![(0, vec![(1, 40)]), (1, vec![(0, 80)]), (2, vec![(0, 7)])];
    l.validator_permits = vec![true, true, false];
    let params = YumaParams::new(7, 1000, 0, &l).unwrap();
    match bond_averaging(&params) {
        BondAveraging::Weighted(rows) => {
            assert_eq!(
                rows,
                vec![
                    (Fixed64::from_bits(1 << 62), vec![(1, 40)]),
                    (Fixed64::from_bits(3 << 62), vec![(0, 80)]),
                ]
            );
        }
        other => panic!("two validators hold stake: {:?}", other),
    }
    l.validator_permits = vec![false, true, false];
    let params = YumaParams::new(7, 1000, 0, &l).unwrap();
    assert!(
        matches!(bond_averaging(&params), BondAveraging::Sole(bonds) if bonds == vec![(0, 80)])
    );
    l.validator_permits = vec![false, false, false];
    let params = YumaParams::new(7, 1000, 0, &l).unwrap();
    assert!(matches!(bond_averaging(&params), BondAveraging::Empty));
    l.validator_permits = vec![true, true, true];
    l.stake = vec![0, 0, 0];
    let params = YumaParams::new(7, 1000, 0, &l).unwrap();
    assert!(matches!(bond_averaging(&params), BondAveraging::Empty));
    let rows = vec![vec![(5u16, 10u16), (2, 1)], vec![(5, 65530), (0, 0)], vec![(2, 4)]];
    assert_eq!(sum_weighted_bonds(&rows), vec![(0, 0), (2, 5), (5, 65535)]);
    assert_eq!(sum_weighted_bonds(&Vec::new()), Vec::new());
}

#[test]
fn registrations_are_checked_in_order() {
    let ctx = RegistrationContext {
        has_enough_balance: true,
        min_stake_to_register: 10,
        min_burn: 5,
        key_registered: false,
        name_exists: false,
        n: 3,
        max_allowed_uids: 4,
        global_n: 9,
        max_allowed_modules: 10,
    };
    assert_eq!(
        do_register(&ctx, 15),
        Ok(RegistrationPlan { replacement: Replacement::Nobody, add_stake: 15, burn: 5 })
    );
    let full = RegistrationContext { n: 4, ..ctx };
    assert_eq!(do_register(&full, 15).unwrap().replacement, Replacement::LowestOfSubnet);
    let crowded = RegistrationContext { n: 4, global_n: 10, ..ctx };
    assert_eq!(do_register(&crowded, 15).unwrap().replacement, Replacement::LowestOfRandomSubnet);
    let all_wrong = RegistrationContext {
        has_enough_balance: false,
        key_registered: true,
        name_exists: true,
        ..ctx
    };
    assert_eq!(do_register(&all_wrong, 1), Err(RegistrationError::NotEnoughBalanceToRegister));
    let funded = RegistrationContext { has_enough_balance: true, ..all_wrong };
    assert_eq!(do_register(&funded, 14), Err(RegistrationError::NotEnoughStakeToRegister));
    assert_eq!(do_register(&funded, 15), Err(RegistrationError::KeyAlreadyRegistered));
    let fresh = RegistrationContext { key_registered: false, ..funded };
    assert_eq!(do_register(&fresh, 15), Err(RegistrationError::NameAlreadyRegistered));
    assert_eq!(check_burned_stake(10, 15, 5, 10), Ok(()));
    assert_eq!(check_burned_stake(9, 15, 5, 10), Err(RegistrationError::NotEnoughStakeToRegister));
    assert_eq!(check_burned_stake(10, 15, 5, 11), Err(RegistrationError::NotEnoughStakeToRegister));
    assert_eq!(check_burned_stake(0, 4, 5, 0), Err(RegistrationError::NotEnoughStakeToRegister));
    assert_eq!(check_burned_stake(0, 4, 0, 9), Ok(()));
    assert_eq!(do_deregister(Some(3)), Ok(3));
    assert_eq!(do_deregister(None), Err(RegistrationError::NotRegistered));
    assert_eq!(check_deregistered(true), Err(RegistrationError::StillRegistered));
    assert_eq!(check_deregistered(false), Ok(()));
}

#[test]
fn proposals_are_checked_in_order() {
    let standing = |id, votes, accepted| ProposalStanding { id, votes, accepted };
    let proposals = vec![standing(4, 9, false), standing(7, 0, false), standing(2, 5, true)];
    assert_eq!(proposal_to_remove(&proposals), 7);
    assert_eq!(proposal_to_remove(&proposals[2..].to_vec()), 2);
    assert_eq!(proposal_to_remove(&proposals[..1].to_vec()), 0);
    let proposal = |mode, votes, data: Vec<u8>| Proposal {
        mode,
        netuid: 0,
        votes,
        participants: Vec::new(),
        accepted: false,
        data,
        vote_threshold: 50,
    };
    let custom = proposal(ProposalMode::Custom, 1, vec![1]);
    assert_eq!(check_proposal(&custom, true, false), Ok(()));
    let unvoted = proposal(ProposalMode::Custom, 0, vec![]);
    assert_eq!(check_proposal(&unvoted, true, false), Err(VotingError::NotEnoughVotes));
    assert_eq!(check_proposal(&unvoted, false, false), Err(VotingError::EmptyData));
    let subnet = proposal(ProposalMode::Subnet, 0, vec![0; 256]);
    assert_eq!(check_proposal(&subnet, false, false), Err(VotingError::UnknownVoteMode));
    assert_eq!(check_proposal(&subnet, false, true), Err(VotingError::DataTooLong));
    let global = proposal(ProposalMode::Global, 0, vec![0; 255]);
    assert_eq!(check_proposal(&global, false, false), Ok(()));
}

#[test]
fn blocks_are_replayed_in_their_order() {
    assert_eq!(replay_order(&vec![30, 10, 20]), vec![1, 2, 0]);
    assert_eq!(replay_order(&vec![5, 7, 5, 1, 7]), vec![3, 0, 2, 1, 4]);
    assert_eq!(replay_order(&vec![4, 4, 4]), vec![0, 1, 2]);
    assert_eq!(replay_order(&Vec::new()), Vec::<usize>::new());
}
