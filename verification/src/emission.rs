//! Which consensus a subnet runs, when its epoch is due, and what the epoch
//! does with the emission that has queued up for it.
use crate::distribute::{
    distribute_emissions, distribution, increase_total, ModuleStakeInfo, StakeIncrease,
};
use crate::params::{table_view, AccountKey, ModuleKey, Snapshot, YumaParams};
use crate::yuma::{
    conserves, epoch, ConsensusOutput, EmissionError, YumaEpoch,
};
use vstd::prelude::*;

verus! {

/// The kinds of consensus that a subnet can run.
#[derive(Clone, Copy, Debug, PartialEq, Eq, Structural)]
pub enum SubnetConsensus {
    /// Weights clipped to the majority's, bonds and dividends.
    Yuma,
    /// Emission by score alone.
    Linear,
    /// All emission to the treasury.
    Treasury,
    /// No emission.
    Root,
}

/// Whether a subnet with this consensus may be removed: only one that runs
/// Yuma.
pub fn can_remove_subnet(consensus: Option<SubnetConsensus>) -> (r: bool)
    ensures
        r == (consensus == Some(SubnetConsensus::Yuma)),
{
    match consensus {
        Some(SubnetConsensus::Yuma) => true,
        _ => false,
    }
}

/// Whether participants of a subnet with this consensus earn emission: those
/// of a subnet that runs Linear or Yuma.
pub fn is_mineable_subnet(consensus: Option<SubnetConsensus>) -> (r: bool)
    ensures
        r == (consensus == Some(SubnetConsensus::Linear) || consensus == Some(
            SubnetConsensus::Yuma,
        )),
{
    match consensus {
        Some(SubnetConsensus::Linear) => true,
        Some(SubnetConsensus::Yuma) => true,
        _ => false,
    }
}

/// The first subnet of the list that runs the consensus `wanted`.
pub open spec fn first_with(types: Seq<(u16, SubnetConsensus)>, wanted: SubnetConsensus) -> Option<
    u16,
>
    decreases types.len(),
{
    if types.len() == 0 {
        None
    } else if types[0].1 == wanted {
        Some(types[0].0)
    } else {
        first_with(types.skip(1), wanted)
    }
}

/// The first subnet of the list that runs the consensus `subnet_consensus`.
pub fn get_consensus_netuid(types: &Vec<(u16, SubnetConsensus)>, subnet_consensus: SubnetConsensus)
    -> (r: Option<u16>)
    ensures
        r == first_with(types@, subnet_consensus),
{
    let mut k: usize = 0;
    assert(types@.skip(0) =~= types@);
    while k < types.len()
        invariant
            k <= types.len(),
            first_with(types@, subnet_consensus) == first_with(
                types@.skip(k as int),
                subnet_consensus,
            ),
        decreases types.len() - k,
    {
        assert(types@.skip(k as int).skip(1) =~= types@.skip(k + 1));
        if types[k].1 == subnet_consensus {
            return Some(types[k].0);
        }
        k += 1;
    }
    None
}

/// What the ledger holds of a subnet that may be replaced by a new one.
#[derive(Clone, Copy, Debug, PartialEq, Eq, Structural)]
pub struct SubnetEmissionInfo {
    pub netuid: u16,
    /// The emission that the subnet gets per block.
    pub emission: u64,
    pub consensus: Option<SubnetConsensus>,
    /// The number of the subnet's participants.
    pub n: u16,
    pub registration_block: Option<u64>,
}

/// Whether a subnet may be replaced: it runs Yuma, has participants, and is
/// past its immunity, unless immunity is ignored.
pub open spec fn replaceable(
    s: SubnetEmissionInfo,
    ignore_subnet_immunity: bool,
    current_block: u64,
    immunity_period: u64,
) -> bool {
    &&& s.consensus == Some(SubnetConsensus::Yuma)
    &&& s.n > 0
    &&& (ignore_subnet_immunity || match s.registration_block {
        None => true,
        Some(block) => (if current_block >= block {
            current_block - block
        } else {
            0
        }) >= immunity_period,
    })
}

/// Of the first `upto` subnets the replaceable one with the lowest
/// emission, and of several with the lowest emission the first.
pub open spec fn lowest_emission(
    subnets: Seq<SubnetEmissionInfo>,
    ignore_subnet_immunity: bool,
    current_block: u64,
    immunity_period: u64,
    upto: int,
) -> Option<SubnetEmissionInfo>
    decreases upto,
{
    if upto <= 0 {
        None
    } else {
        let before = lowest_emission(
            subnets,
            ignore_subnet_immunity,
            current_block,
            immunity_period,
            upto - 1,
        );
        let s = subnets[upto - 1];
        if replaceable(s, ignore_subnet_immunity, current_block, immunity_period) {
            match before {
                Some(b) => if s.emission < b.emission {
                    Some(s)
                } else {
                    before
                },
                None => Some(s),
            }
        } else {
            before
        }
    }
}

/// The subnet to replace when a new one needs room: the replaceable subnet
/// with the lowest emission.
pub fn get_lowest_emission_netuid(
    subnets: &Vec<SubnetEmissionInfo>,
    ignore_subnet_immunity: bool,
    current_block: u64,
    immunity_period: u64,
) -> (r: Option<u16>)
    ensures
        r == (match lowest_emission(
            subnets@,
            ignore_subnet_immunity,
            current_block,
            immunity_period,
            subnets@.len() as int,
        ) {
            Some(s) => Some(s.netuid),
            None => None,
        }),
{
    let mut best: Option<SubnetEmissionInfo> = None;
    let mut k: usize = 0;
    while k < subnets.len()
        invariant
            k <= subnets.len(),
            best == lowest_emission(
                subnets@,
                ignore_subnet_immunity,
                current_block,
                immunity_period,
                k as int,
            ),
        decreases subnets.len() - k,
    {
        let s = subnets[k];
        let is_yuma = match s.consensus {
            Some(SubnetConsensus::Yuma) => true,
            _ => false,
        };
        let past_immunity = ignore_subnet_immunity || match s.registration_block {
            None => true,
            Some(block) => current_block.saturating_sub(block) >= immunity_period,
        };
        if is_yuma && s.n > 0 && past_immunity {
            best = match best {
                Some(b) => if s.emission < b.emission {
                    Some(s)
                } else {
                    Some(b)
                },
                None => Some(s),
            };
        }
        k += 1;
    }
    match best {
        Some(s) => Some(s.netuid),
        None => None,
    }
}

/// The emission that has queued up for a subnet once the emission of one
/// more block has been added.
pub fn update_pending_emission(queued: u64, new_queued_emission: u64) -> (r: u64)
    ensures
        r == (if queued + new_queued_emission > u64::MAX {
            u64::MAX
        } else {
            (queued + new_queued_emission) as u64
        }),
{
    queued.saturating_add(new_queued_emission)
}

/// What a subnet does at a block.
#[derive(Clone, Copy, Debug, PartialEq, Eq, Structural)]
pub enum EpochStep {
    /// The epoch is not due, or nothing has queued up: nothing runs.
    Wait,
    /// The epoch is due: the consensus runs on the queued emission.
    Run { consensus: SubnetConsensus, emission_to_drain: u64 },
}

/// Whether the epoch of a subnet runs at a block, and on what: it runs when
/// no block is left until the next epoch, emission has queued up, and the
/// subnet has a consensus.
pub fn run_epoch(
    blocks_until_next_epoch: u64,
    emission_to_drain: u64,
    consensus_type: Option<SubnetConsensus>,
) -> (r: EpochStep)
    ensures
        r == (match consensus_type {
            Some(consensus) => if blocks_until_next_epoch == 0 && emission_to_drain > 0 {
                EpochStep::Run { consensus, emission_to_drain }
            } else {
                EpochStep::Wait
            },
            None => EpochStep::Wait,
        }),
{
    match consensus_type {
        Some(consensus) => if blocks_until_next_epoch == 0 && emission_to_drain > 0 {
            EpochStep::Run { consensus, emission_to_drain }
        } else {
            EpochStep::Wait
        },
        None => EpochStep::Wait,
    }
}

/// The emission that stays queued after an epoch: none after an epoch that
/// ran through, all of it after one that was given up.
pub fn finalize_epoch(emission_to_drain: u64, ran_through: bool) -> (r: u64)
    ensures
        r == (if ran_through {
            0
        } else {
            emission_to_drain
        }),
{
    if ran_through {
        0
    } else {
        emission_to_drain
    }
}

/// The treasury epoch of a subnet: the whole emission goes to the treasury.
#[derive(Clone, Copy, Debug, PartialEq, Eq, Structural)]
pub struct TreasuryEpoch {
    pub netuid: u16,
    pub emission: u64,
}

impl TreasuryEpoch {
    pub fn new(netuid: u16, emission: u64) -> (r: TreasuryEpoch)
        ensures
            r == (TreasuryEpoch { netuid, emission }),
    {
        TreasuryEpoch { netuid, emission }
    }

    /// The amount by which the balance of the treasury grows: all of the
    /// emission, with nothing for any participant.
    pub fn run(self) -> (r: u64)
        ensures
            r == self.emission,
    {
        self.emission
    }
}

/// The node that decrypts the weights of a subnet.
#[derive(Debug)]
pub struct SubnetDecryptionInfo {
    pub node_id: AccountKey,
    /// The two parts of the key that weights are encrypted with.
    pub node_public_key: (Vec<u8>, Vec<u8>),
    /// The block at which the first encrypted weights appeared on the subnet.
    pub activation_block: Option<u64>,
    /// The block at which the node last reported that it is alive.
    pub last_keep_alive: u64,
}

/// How the Yuma consensus of a subnet runs at the end of an epoch.
#[derive(Clone, Copy, Debug, PartialEq, Eq, Structural)]
pub enum YumaMode {
    /// On the weights that the ledger holds.
    Default,
    /// Once for each block whose weights have been decrypted, on the
    /// snapshot of that block.
    Replay,
}

/// How the Yuma consensus of a subnet runs: on the ledger's weights where
/// the subnet does not encrypt its weights or no decryption node is active,
/// else on the decrypted weights.
pub fn yuma_mode(use_weights_encryption: bool, has_active_nodes: bool) -> (r: YumaMode)
    ensures
        r == (if use_weights_encryption && has_active_nodes {
            YumaMode::Replay
        } else {
            YumaMode::Default
        }),
{
    if use_weights_encryption && has_active_nodes {
        YumaMode::Replay
    } else {
        YumaMode::Default
    }
}

/// The emission of a replayed block: what the block's snapshot holds and
/// what earlier blocks that were given up left over.
pub open spec fn replay_emission(stored: u64, accumulated: u64) -> u64 {
    if stored + accumulated > u64::MAX {
        u64::MAX
    } else {
        (stored + accumulated) as u64
    }
}

/// The snapshot `p` with another emission.
pub open spec fn with_emission(p: Snapshot, token_emission: u64) -> Snapshot {
    Snapshot {
        subnet_id: p.subnet_id,
        token_emission,
        modules: p.modules,
        kappa: p.kappa,
        founder_key: p.founder_key,
        founder_emission: p.founder_emission,
        current_block: p.current_block,
        activity_cutoff: p.activity_cutoff,
        max_allowed_validators: p.max_allowed_validators,
        bonds_moving_average: p.bonds_moving_average,
    }
}

/// Replays one block whose weights have been decrypted: runs the epoch on
/// the current snapshot with the emission that the block's snapshot holds
/// and what earlier blocks left over. With the outcome comes the emission
/// that is left over for the next block: none where the epoch ran through,
/// all of it where it was given up.
pub fn replay_block(
    netuid: u16,
    params: &YumaParams,
    stored_token_emission: u64,
    accumulated_emission: u64,
    weights: Vec<(u16, Vec<(u16, u16)>)>,
) -> (r: (Result<ConsensusOutput, EmissionError>, u64))
    ensures
        ({
            let p = with_emission(
                params@,
                replay_emission(stored_token_emission, accumulated_emission),
            );
            let e = epoch(p, table_view(weights@));
            match r.0 {
                Ok(out) => {
                    &&& p.well_formed()
                    &&& conserves(p, e)
                    &&& out.matches(netuid, p, e)
                    &&& r.1 == 0
                },
                Err(_) => {
                    &&& !(p.well_formed() && conserves(p, e))
                    &&& r.1 == p.token_emission
                },
            }
        }),
{
    let mut replayed = params.duplicate();
    let new_emission = stored_token_emission.saturating_add(accumulated_emission);
    replayed.token_emission = new_emission;
    assert(replayed@ == with_emission(params@, new_emission));
    match YumaEpoch::new(netuid, replayed).run(weights) {
        Ok(out) => (Ok(out), 0),
        Err(e) => (Err(e), new_emission),
    }
}

/// Each participant of an epoch with the tokens that it earned as a server
/// and as a validator.
pub open spec fn emission_tuples(
    keys: Seq<ModuleKey>,
    server: Seq<u64>,
    validator: Seq<u64>,
) -> Seq<(ModuleKey, u64, u64)> {
    Seq::new(
        keys.len(),
        |i: int|
            (
                keys[i],
                if i < server.len() {
                    server[i]
                } else {
                    0
                },
                if i < validator.len() {
                    validator[i]
                } else {
                    0
                },
            ),
    )
}

/// The keys of the participants of a snapshot.
pub open spec fn module_keys(p: Snapshot) -> Seq<ModuleKey> {
    Seq::new(p.modules.len(), |i: int| p.modules[i].0)
}

/// Each participant of an epoch with the tokens that it earned as a server
/// and as a validator.
pub fn output_tuples(output: &ConsensusOutput) -> (r: Vec<(ModuleKey, u64, u64)>)
    ensures
        r@ == emission_tuples(
            module_keys(output.params@),
            output.server_emissions@,
            output.validator_emissions@,
        ),
{
    let mut out: Vec<(ModuleKey, u64, u64)> = Vec::new();
    let mut i: usize = 0;
    while i < output.params.modules.len()
        invariant
            i <= output.params.modules.len(),
            out.len() == i,
            forall|k: int|
                0 <= k < i ==> #[trigger] out@[k] == emission_tuples(
                    module_keys(output.params@),
                    output.server_emissions@,
                    output.validator_emissions@,
                )[k],
        decreases output.params.modules.len() - i,
    {
        let server = if i < output.server_emissions.len() {
            output.server_emissions[i]
        } else {
            0
        };
        let validator = if i < output.validator_emissions.len() {
            output.validator_emissions[i]
        } else {
            0
        };
        out.push((output.params.modules[i].0, server, validator));
        i += 1;
    }
    assert(out@ =~= emission_tuples(
        module_keys(output.params@),
        output.server_emissions@,
        output.validator_emissions@,
    ));
    out
}

/// Hands out the emission that an epoch gave its participants. `infos`
/// holds what the ledger knows of each participant, by uid.
pub fn apply_emissions(output: &ConsensusOutput, infos: &Vec<ModuleStakeInfo>) -> (r: Result<
    Vec<StakeIncrease>,
    EmissionError,
>)
    ensures
        ({
            let p = output.params@;
            let expected = distribution(
                p.founder_key,
                p.founder_emission,
                p.token_emission,
                emission_tuples(
                    module_keys(p),
                    output.server_emissions@,
                    output.validator_emissions@,
                ),
                infos@,
            );
            match r {
                Ok(incs) => {
                    &&& expected == Ok::<Seq<StakeIncrease>, EmissionError>(incs@)
                    &&& increase_total(incs@) <= p.founder_emission + p.token_emission
                },
                Err(e) => expected == Err::<Seq<StakeIncrease>, EmissionError>(e),
            }
        }),
{
    let tuples = output_tuples(output);
    distribute_emissions(
        &output.params.founder_key,
        output.params.founder_emission,
        output.params.token_emission,
        &tuples,
        infos,
    )
}

/// Whether the block at position `a` is replayed before that at position
/// `b`: it is the earlier block, or of two entries for one block the one that
/// stands first.
pub open spec fn replays_before(blocks: Seq<u64>, a: int, b: int) -> bool {
    blocks[a] < blocks[b] || (blocks[a] == blocks[b] && a < b)
}

/// Whether `order` lists every position of `blocks` once, each before all
/// that are replayed after it.
pub open spec fn is_replay_order(blocks: Seq<u64>, order: Seq<usize>) -> bool {
    &&& order.len() == blocks.len()
    &&& forall|k: int| 0 <= k < order.len() ==> (#[trigger] order[k]) < blocks.len()
    &&& forall|a: int, b: int|
        0 <= a < b < order.len() ==> replays_before(
            blocks,
            (#[trigger] order[a]) as int,
            (#[trigger] order[b]) as int,
        )
    &&& forall|i: usize| i < blocks.len() ==> #[trigger] order.contains(i)
}

/// The order in which the blocks with decrypted weights are replayed: by
/// block, and entries for one block in the order in which they stand. The
/// answer lists positions of `blocks`.
pub fn replay_order(blocks: &Vec<u64>) -> (r: Vec<usize>)
    ensures
        is_replay_order(blocks@, r@),
{
    let mut order: Vec<usize> = Vec::new();
    let mut i: usize = 0;
    while i < blocks.len()
        invariant
            i <= blocks.len(),
            order.len() == i,
            forall|k: int| 0 <= k < order.len() ==> (#[trigger] order@[k]) < i,
            forall|a: int, b: int|
                0 <= a < b < order.len() ==> replays_before(
                    blocks@,
                    (#[trigger] order@[a]) as int,
                    (#[trigger] order@[b]) as int,
                ),
            forall|q: usize| q < i ==> #[trigger] order@.contains(q),
        decreases blocks.len() - i,
    {
        let block = blocks[i];
        let mut at: usize = order.len();
        while at > 0 && blocks[order[at - 1]] > block
            invariant
                at <= order.len(),
                order.len() == i,
                i < blocks.len(),
                block == blocks@[i as int],
                forall|k: int| 0 <= k < order.len() ==> (#[trigger] order@[k]) < i,
                forall|k: int|
                    at <= k < order.len() ==> blocks@[(#[trigger] order@[k]) as int] > block,
            decreases at,
        {
            at -= 1;
        }
        let ghost before = order@;
        proof {
            // What stands before the place of the new position is replayed
            // before it.
            assert forall|k: int| 0 <= k < at implies replays_before(
                blocks@,
                (#[trigger] before[k]) as int,
                i as int,
            ) by {
                if at > 0 {
                    if k < at - 1 {
                        assert(replays_before(blocks@, before[k] as int, before[at - 1] as int));
                    }
                }
            }
        }
        order.insert(at, i);
        proof {
            let now = order@;
            assert forall|a: int, b: int| 0 <= a < b < now.len() implies replays_before(
                blocks@,
                (#[trigger] now[a]) as int,
                (#[trigger] now[b]) as int,
            ) by {
                let a0 = if a < at {
                    a
                } else {
                    a - 1
                };
                let b0 = if b < at {
                    b
                } else {
                    b - 1
                };
                if a != at && b != at {
                    assert(now[a] == before[a0] && now[b] == before[b0]);
                    assert(replays_before(blocks@, before[a0] as int, before[b0] as int));
                } else if a == at {
                    assert(now[b] == before[b0]);
                } else {
                    assert(now[a] == before[a0]);
                }
            }
            assert forall|q: usize| q < i + 1 implies #[trigger] now.contains(q) by {
                if q < i {
                    assert(before.contains(q));
                    let k = choose|k: int| 0 <= k < before.len() && before[k] == q;
                    if k < at {
                        assert(now[k] == q);
                    } else {
                        assert(now[k + 1] == q);
                    }
                } else {
                    assert(now[at as int] == i);
                }
            }
            assert forall|k: int| 0 <= k < now.len() implies (#[trigger] now[k]) < i + 1 by {
                if k < at {
                    assert(now[k] == before[k]);
                } else if k > at {
                    assert(now[k] == before[k - 1]);
                }
            }
        }
        i += 1;
    }
    order
}

} // verus!
