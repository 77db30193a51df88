//! The epoch on the ledger's own weights, and the linear epoch.
//!
//! [`YumaCalc`] runs the Yuma epoch of a subnet on the weights that the
//! snapshot itself holds. [`LinearEpoch`] is the simpler consensus: it knows
//! no bonds and no dividends, and hands the emission out by rank alone.
use crate::distribute::{ModuleStakeInfo, StakeIncrease, distribution, increase_total};
use crate::emission::{apply_emissions, emission_tuples, module_keys};
use crate::fixed::Fixed32;
use crate::math::{
    inplace_normalize, is_zero, max_upscaled, normalized, sum32, vec_max_upscale_to_u16,
    vec_sum,
};
use crate::params::{
    copy_vec, forbids_of, last_updates_of, ledger_error, ledger_module, registrations_of,
    stakes_of, table_view, FlattenedModules, ParamsError, Snapshot, SubnetLedger, YumaParams,
};
use crate::sparse::{matmul, matmul_sparse};
use crate::yuma::{
    active_stake_of, capped, compute_active_stake, compute_permits, compute_weights, conserves,
    counted_weights, epoch, fallback_shares, inactive_flags, modules_at_uids, negated,
    new_permits, prepare_weights, prepared_weights, proportions, split_modules_by_activity,
    sum_amounts, token_amounts, total, vec_to_proportions, vec_to_tokens, ConsensusOutput,
    EmissionError, YumaEpoch,
};
use vstd::prelude::*;

verus! {

/// The weights that the participants of a snapshot have set, as
/// `(uid, row)` pairs.
pub open spec fn own_weights(p: Snapshot) -> Seq<(u16, Seq<(u16, u16)>)> {
    Seq::new(p.modules.len(), |i: int| (p.modules[i].1.uid, p.modules[i].1.weight_unencrypted))
}

/// The Yuma epoch of a subnet on the weights that the ledger holds.
pub struct YumaCalc {
    netuid: u16,
    params: YumaParams,
}

impl YumaCalc {
    /// The subnet that the epoch is run for.
    pub closed spec fn subnet(self) -> u16 {
        self.netuid
    }

    /// The snapshot that the epoch runs on.
    pub closed spec fn snapshot(self) -> Snapshot {
        self.params@
    }

    /// Takes the snapshot of the subnet from the ledger. `to_be_emitted`
    /// goes to the participants and `founder_emission` to the founder.
    pub fn new(netuid: u16, to_be_emitted: u64, founder_emission: u64, ledger: &SubnetLedger) -> (r:
        Result<YumaCalc, ParamsError>)
        ensures
            match r {
                Ok(calc) => {
                    let p = calc.snapshot();
                    &&& ledger_error(*ledger) is None
                    &&& calc.subnet() == netuid
                    &&& p.well_formed()
                    &&& p.subnet_id == netuid
                    &&& p.token_emission == to_be_emitted
                    &&& p.founder_emission == founder_emission
                    &&& p.founder_key == ledger.founder
                    &&& p.current_block == ledger.current_block
                    &&& p.activity_cutoff == ledger.max_weight_age
                    &&& p.max_allowed_validators == ledger.max_allowed_validators
                    &&& p.bonds_moving_average == ledger.bonds_moving_average
                    &&& p.modules.len() == ledger.keys@.len()
                    &&& forall|i: int|
                        0 <= i < p.modules.len() ==> (#[trigger] p.modules[i]).0 == ledger.keys@[i]
                            && ledger_module(*ledger, i, p.modules[i].1)
                },
                Err(e) => ledger_error(*ledger) == Some(e),
            },
    {
        match YumaParams::new(netuid, to_be_emitted, founder_emission, ledger) {
            Ok(params) => {
                assert forall|i: int| 0 <= i < params@.modules.len() implies (
                #[trigger] params@.modules[i]).0 == ledger.keys@[i] && ledger_module(
                    *ledger,
                    i,
                    params@.modules[i].1,
                ) by {
                    assert(params@.modules[i] == (params.modules@[i].0, params.modules@[i].1@));
                }
                Ok(YumaCalc { netuid, params })
            },
            Err(e) => Err(e),
        }
    }

    /// Runs the epoch on the weights that the participants of the snapshot
    /// have set.
    pub fn run(self) -> (r: Result<ConsensusOutput, EmissionError>)
        ensures
            ({
                let p = self.snapshot();
                let e = epoch(p, own_weights(p));
                &&& crate::conservation::fit_for_epoch(p, own_weights(p)) ==> r is Ok
                &&& match r {
                    Ok(out) => {
                        &&& p.well_formed()
                        &&& conserves(p, e)
                        &&& out.matches(self.subnet(), p, e)
                        &&& total(out.server_emissions@) + total(out.validator_emissions@)
                            <= p.token_emission + p.founder_emission
                    },
                    Err(err) => if !p.well_formed() {
                        err == EmissionError::ModulesBroken
                    } else {
                        &&& !conserves(p, e)
                        &&& err == EmissionError::EmittedMoreThanExpected {
                            emitted: capped(crate::yuma::emitted(p, e)),
                            expected: capped(p.token_emission + p.founder_emission),
                        }
                    },
                }
            }),
    {
        let ghost p = self.params@;
        let mut weights: Vec<(u16, Vec<(u16, u16)>)> = Vec::new();
        let mut i: usize = 0;
        while i < self.params.modules.len()
            invariant
                i <= self.params.modules.len(),
                p == self.params@,
                weights.len() == i,
                forall|k: int|
                    0 <= k < i ==> #[trigger] table_view(weights@)[k] == own_weights(p)[k],
            decreases self.params.modules.len() - i,
        {
            assert(p.modules[i as int] == (
                self.params.modules@[i as int].0,
                self.params.modules@[i as int].1@,
            ));
            let ghost before = table_view(weights@);
            weights.push(
                (
                    self.params.modules[i].1.uid,
                    copy_vec(&self.params.modules[i].1.weight_unencrypted),
                ),
            );
            assert forall|k: int| 0 <= k < i + 1 implies #[trigger] table_view(weights@)[k]
                == own_weights(p)[k] by {
                if k < i {
                    assert(table_view(weights@)[k] == before[k]);
                }
            }
            i += 1;
        }
        assert(table_view(weights@) =~= own_weights(p));
        YumaEpoch::new(self.netuid, self.params).run(weights)
    }

    /// Hands out the emission that the epoch gave its participants.
    pub fn distribute_emissions(output: &ConsensusOutput, infos: &Vec<ModuleStakeInfo>) -> (r:
        Result<Vec<StakeIncrease>, EmissionError>)
        ensures
            ({
                let p = output.params@;
                let expected = distribution(
                    p.founder_key,
                    p.founder_emission,
                    p.token_emission,
                    emission_tuples(
                        module_keys(p),
                        output.server_emissions@,
                        output.validator_emissions@,
                    ),
                    infos@,
                );
                match r {
                    Ok(incs) => {
                        &&& expected == Ok::<Seq<StakeIncrease>, EmissionError>(incs@)
                        &&& increase_total(incs@) <= p.founder_emission + p.token_emission
                    },
                    Err(e) => expected == Err::<Seq<StakeIncrease>, EmissionError>(e),
                }
            }),
    {
        apply_emissions(output, infos)
    }
}

/// The scores of a linear epoch.
pub struct LinearScores {
    pub inactive: Seq<bool>,
    pub permits: Seq<bool>,
    /// The rank of each participant: the stake-weighted sum of the weights
    /// set on it.
    pub ranks: Seq<Fixed32>,
    pub incentives: Seq<Fixed32>,
    /// The share of the emission that each participant earns.
    pub shares: Seq<Fixed32>,
}

/// The scores of the linear epoch that runs on the snapshot `p` with the
/// weights `input`: ranks from the weights that count and the active stake,
/// and the emission by rank, or by stake where nobody has any rank.
pub open spec fn linear_scores(p: Snapshot, input: Seq<(u16, Seq<(u16, u16)>)>) -> LinearScores {
    let mods = p.modules;
    let n = mods.len();
    let restricted = p.max_allowed_validators is Some;
    let inactive = inactive_flags(last_updates_of(mods), p.activity_cutoff, p.current_block);
    let counted = counted_weights(
        prepared_weights(input, n),
        restricted,
        forbids_of(mods),
        last_updates_of(mods),
        registrations_of(mods),
    );
    let stake = stakes_of(mods);
    let active_stake = active_stake_of(stake, inactive, restricted, forbids_of(mods));
    let ranks = matmul(counted, active_stake, n);
    let incentives = normalized(ranks);
    LinearScores {
        inactive,
        permits: new_permits(stake, p.max_allowed_validators),
        ranks,
        incentives,
        shares: if sum32(incentives).bits == 0 {
            fallback_shares(stake, active_stake)
        } else {
            incentives
        },
    }
}

/// Whether the linear epoch hands out no more than it has.
pub open spec fn linear_conserves(p: Snapshot, s: LinearScores) -> bool {
    total(token_amounts(s.shares, p.token_emission)) <= p.token_emission + p.founder_emission
}

/// As many zeros as `n`.
pub open spec fn zero_scores(n: nat) -> Seq<u16> {
    Seq::new(n, |i: int| 0u16)
}

/// As many zero amounts as `n`.
pub open spec fn zero_amounts(n: nat) -> Seq<u64> {
    Seq::new(n, |i: int| 0u64)
}

/// Whether `out` is what the linear epoch with the scores `s` on the
/// snapshot `p` gives back: ranks, incentive and the emission by rank, no
/// consensus, trust, dividends or validator emission, and the bonds left as
/// they are.
pub open spec fn matches_linear(out: ConsensusOutput, subnet_id: u16, p: Snapshot, s: LinearScores)
    -> bool {
    let n = p.modules.len();
    &&& out.subnet_id == subnet_id
    &&& out.params@ == p
    &&& out.active@ == negated(s.inactive)
    &&& out.consensus@ == zero_scores(n)
    &&& out.dividends@ == zero_scores(n)
    &&& out.trust@ == zero_scores(n)
    &&& out.validator_trust@ == zero_scores(n)
    &&& out.incentives@ == proportions(s.incentives)
    &&& out.ranks@ == proportions(s.ranks)
    &&& out.pruning_scores@ == max_upscaled(s.shares)
    &&& out.validator_permits@ == s.permits
    &&& out.bonds@.len() == n
    &&& (forall|i: int| 0 <= i < n ==> (#[trigger] out.bonds@[i]) is None)
    &&& out.server_emissions@ == token_amounts(s.shares, p.token_emission)
    &&& out.validator_emissions@ == zero_amounts(n)
    &&& out.combined_emissions@ == token_amounts(s.shares, p.token_emission)
}

/// A linear epoch that is ready to run.
pub struct LinearEpoch {
    netuid: u16,
    params: YumaParams,
}

impl LinearEpoch {
    /// The subnet that the epoch is run for.
    pub closed spec fn subnet(self) -> u16 {
        self.netuid
    }

    /// The snapshot that the epoch runs on.
    pub closed spec fn snapshot(self) -> Snapshot {
        self.params@
    }

    /// Makes an epoch ready for the subnet and its snapshot.
    pub fn new(netuid: u16, params: YumaParams) -> (r: LinearEpoch)
        ensures
            r.subnet() == netuid,
            r.snapshot() == params@,
    {
        LinearEpoch { netuid, params }
    }

    /// Runs the linear epoch on the given weights. The epoch is given up
    /// where the snapshot's participants do not stand at their uids, and
    /// where more tokens would be handed out than the epoch has.
    pub fn run(self, input_weights: Vec<(u16, Vec<(u16, u16)>)>) -> (r: Result<
        ConsensusOutput,
        EmissionError,
    >)
        ensures
            ({
                let p = self.snapshot();
                let s = linear_scores(p, table_view(input_weights@));
                match r {
                    Ok(out) => {
                        &&& p.well_formed()
                        &&& linear_conserves(p, s)
                        &&& matches_linear(out, self.subnet(), p, s)
                    },
                    Err(err) => if !p.well_formed() {
                        err == EmissionError::ModulesBroken
                    } else {
                        &&& !linear_conserves(p, s)
                        &&& err == EmissionError::EmittedMoreThanExpected {
                            emitted: capped(total(token_amounts(s.shares, p.token_emission))),
                            expected: capped(p.token_emission + p.founder_emission),
                        }
                    },
                }
            }),
    {
        if !modules_at_uids(&self.params) {
            return Err(EmissionError::ModulesBroken);
        }
        let modules = FlattenedModules::from(&self.params.modules);
        let n = self.params.modules.len() as u16;
        let weights = prepare_weights(&input_weights, n);
        let (inactive, active) = split_modules_by_activity(
            &modules.last_update,
            self.params.activity_cutoff,
            self.params.current_block,
        );
        let weights = compute_weights(&modules, &self.params, weights);
        let stake = copy_vec(&modules.stake_normalized);
        let permits = compute_permits(&stake, self.params.max_allowed_validators);
        let active_stake = compute_active_stake(&modules, &self.params, &inactive, &stake);
        let ranks = matmul_sparse(&weights, &active_stake, n);
        let mut incentives = copy_vec(&ranks);
        inplace_normalize(&mut incentives);
        let shares = if vec_sum(&incentives).bits == 0 {
            if is_zero(&active_stake) {
                copy_vec(&stake)
            } else {
                copy_vec(&active_stake)
            }
        } else {
            copy_vec(&incentives)
        };
        let server_emissions = vec_to_tokens(&shares, self.params.token_emission);
        let handed_out: u128 = sum_amounts(&server_emissions);
        let expected: u128 = self.params.token_emission as u128
            + self.params.founder_emission as u128;
        if handed_out > expected {
            return Err(
                EmissionError::EmittedMoreThanExpected {
                    emitted: if handed_out > u64::MAX as u128 {
                        u64::MAX
                    } else {
                        handed_out as u64
                    },
                    expected: if expected > u64::MAX as u128 {
                        u64::MAX
                    } else {
                        expected as u64
                    },
                },
            );
        }
        let mut zeros: Vec<u16> = Vec::new();
        let mut no_tokens: Vec<u64> = Vec::new();
        let mut bonds: Vec<Option<Vec<(u16, u16)>>> = Vec::new();
        let mut i: u16 = 0;
        while i < n
            invariant
                i <= n,
                zeros.len() == i,
                no_tokens.len() == i,
                bonds.len() == i,
                forall|k: int| 0 <= k < i ==> #[trigger] zeros@[k] == 0,
                forall|k: int| 0 <= k < i ==> #[trigger] no_tokens@[k] == 0,
                forall|k: int| 0 <= k < i ==> (#[trigger] bonds@[k]) is None,
            decreases n - i,
        {
            zeros.push(0);
            no_tokens.push(0);
            bonds.push(None);
            i += 1;
        }
        assert(zeros@ =~= zero_scores(n as nat));
        assert(no_tokens@ =~= zero_amounts(n as nat));
        Ok(
            ConsensusOutput {
                subnet_id: self.netuid,
                active,
                consensus: copy_vec(&zeros),
                dividends: copy_vec(&zeros),
                combined_emissions: copy_vec(&server_emissions),
                incentives: vec_to_proportions(&incentives),
                pruning_scores: vec_max_upscale_to_u16(&shares),
                ranks: vec_to_proportions(&ranks),
                trust: copy_vec(&zeros),
                validator_permits: permits,
                validator_trust: zeros,
                bonds,
                server_emissions,
                validator_emissions: no_tokens,
                params: self.params,
            },
        )
    }
}

} // verus!
