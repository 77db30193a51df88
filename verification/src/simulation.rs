//! The simulated epoch that holds a copier.
//!
//! The copier is one more participant: it has the stake of all validators
//! together, sets the public consensus as its weights, and registered one
//! block before the snapshot was taken. The simulation runs the epoch on the
//! snapshot with the copier and on the decrypted weights, and adds what the
//! copier and the average delegator earned to the sums of the subnet.
use crate::distribute::Percent;
use crate::fixed::{Fixed32, Fixed64};
use crate::math::{inplace_normalize_64, normalized64, vec_fixed64_to_fixed32};
use crate::params::{
    copy_vec, original_stakes_of, table_view, ModuleKey, ModuleParams, ModuleView, Snapshot,
    YumaParams,
};
use crate::profitability::{
    copier_stake, copying_irrational, get_copier_stake, is_copying_irrational, updated,
    ConsensusSimulationResult, ShouldDecryptResult,
};
use crate::yuma::{bond_views, conserves, epoch, proportions, stored_bonds, YumaEpoch};
use sp_core::Hasher;
use vstd::prelude::*;

verus! {

/// The Blake2b hash of 256 bits of `data`.
pub uninterp spec fn blake2_256_of(data: Seq<u8>) -> Seq<u8>;

/// `Blake2Hasher::hash`: the Blake2b hash of 256 bits of the bytes.
#[verifier::external_body]
fn blake2_256(data: &Vec<u8>) -> (r: [u8; 32])
    ensures
        r@ == blake2_256_of(data@),
{
    sp_core::Blake2Hasher::hash(data.as_slice()).0
}

/// The bytes that the key of a subnet's copier is the hash of: the word
/// `copier`, the subnet and the copier's uid, the numbers with their low byte
/// first.
pub open spec fn copier_seed(subnet_id: u16, copier_uid: u16) -> Seq<u8> {
    seq![
        0x63u8,
        0x6fu8,
        0x70u8,
        0x69u8,
        0x65u8,
        0x72u8,
        (subnet_id % 256) as u8,
        (subnet_id / 256) as u8,
        (copier_uid % 256) as u8,
        (copier_uid / 256) as u8,
    ]
}

/// The key that holds the given bytes.
pub open spec fn key_with_bytes(bytes: Seq<u8>) -> ModuleKey {
    choose|k: ModuleKey| k.0@ == bytes
}

/// The key of a subnet's copier.
pub open spec fn copier_key_of(subnet_id: u16, copier_uid: u16) -> ModuleKey {
    key_with_bytes(blake2_256_of(copier_seed(subnet_id, copier_uid)))
}

/// The key of a subnet's copier: the hash of the word `copier`, the subnet
/// and the copier's uid.
pub fn copier_key(subnet_id: u16, copier_uid: u16) -> (r: ModuleKey)
    ensures
        r.0@ == blake2_256_of(copier_seed(subnet_id, copier_uid)),
        r == copier_key_of(subnet_id, copier_uid),
{
    let mut seed: Vec<u8> = Vec::new();
    seed.push(0x63);
    seed.push(0x6f);
    seed.push(0x70);
    seed.push(0x69);
    seed.push(0x65);
    seed.push(0x72);
    seed.push((subnet_id % 256) as u8);
    seed.push((subnet_id / 256) as u8);
    seed.push((copier_uid % 256) as u8);
    seed.push((copier_uid / 256) as u8);
    assert(seed@ =~= copier_seed(subnet_id, copier_uid));
    let key = ModuleKey(blake2_256(&seed));
    proof {
        let other = copier_key_of(subnet_id, copier_uid);
        assert(other.0@ == key.0@);
        assert(other.0 =~= key.0);
    }
    key
}

/// The share of the stake that each participant has once the copier has
/// joined, the copier's share last.
pub open spec fn shares_with_copier(mods: Seq<(ModuleKey, ModuleView)>, stake: u64) -> Seq<
    Fixed32,
> {
    let wide = normalized64(original_stakes_of(mods).push(Fixed64::of_u64(stake)));
    Seq::new(wide.len(), |i: int| Fixed32::of_fixed64(wide[i]))
}

/// The copier as a participant of the snapshot `p`.
pub open spec fn copier_module(p: Snapshot, copier_uid: u16, stake: u64, bonds: Seq<(u16, u16)>)
    -> ModuleView {
    ModuleView {
        uid: copier_uid,
        last_update: p.current_block,
        block_at_registration: if p.current_block == 0 {
            0
        } else {
            (p.current_block - 1) as u64
        },
        validator_permit: true,
        stake_normalized: shares_with_copier(p.modules, stake).last(),
        stake_original: Fixed64::of_u64(stake),
        bonds,
        weight_unencrypted_hash: Seq::empty(),
        weight_encrypted: Seq::empty(),
        weight_unencrypted: Seq::empty(),
    }
}

/// A participant with another share of the stake.
pub open spec fn with_share(m: ModuleView, share: Fixed32) -> ModuleView {
    ModuleView {
        uid: m.uid,
        last_update: m.last_update,
        block_at_registration: m.block_at_registration,
        validator_permit: m.validator_permit,
        stake_normalized: share,
        stake_original: m.stake_original,
        bonds: m.bonds,
        weight_unencrypted_hash: m.weight_unencrypted_hash,
        weight_encrypted: m.weight_encrypted,
        weight_unencrypted: m.weight_unencrypted,
    }
}

/// The snapshot `p` with the copier as its last participant and the shares
/// of the stake worked out anew.
pub open spec fn with_copier(
    p: Snapshot,
    copier_uid: u16,
    key: ModuleKey,
    stake: u64,
    bonds: Seq<(u16, u16)>,
) -> Snapshot {
    let n = p.modules.len();
    let shares = shares_with_copier(p.modules, stake);
    Snapshot {
        subnet_id: p.subnet_id,
        token_emission: p.token_emission,
        modules: Seq::new(
            n + 1,
            |i: int|
                if i < n {
                    (p.modules[i].0, with_share(p.modules[i].1, shares[i]))
                } else {
                    (key, copier_module(p, copier_uid, stake, bonds))
                },
        ),
        kappa: p.kappa,
        founder_key: p.founder_key,
        founder_emission: p.founder_emission,
        current_block: p.current_block,
        activity_cutoff: p.activity_cutoff,
        max_allowed_validators: p.max_allowed_validators,
        bonds_moving_average: p.bonds_moving_average,
    }
}

/// Adds the copier to the snapshot as one more participant. The copier gets
/// the given stake and bonds, and every participant's share of the stake is
/// worked out anew.
pub fn add_copier_to_yuma_params(
    copier_uid: u16,
    runtime_yuma_params: YumaParams,
    subnet_id: u16,
    copier_stake: u64,
    copier_bonds: Vec<(u16, u16)>,
) -> (r: YumaParams)
    ensures
        r@ == with_copier(
            runtime_yuma_params@,
            copier_uid,
            copier_key_of(subnet_id, copier_uid),
            copier_stake,
            copier_bonds@,
        ),
{
    let ghost p = runtime_yuma_params@;
    let stake = copier_stake;
    let n = runtime_yuma_params.modules.len();
    let mut all_stakes: Vec<Fixed64> = Vec::new();
    let mut i: usize = 0;
    while i < n
        invariant
            i <= n,
            n == runtime_yuma_params.modules.len(),
            p == runtime_yuma_params@,
            all_stakes.len() == i,
            forall|k: int|
                0 <= k < i ==> #[trigger] all_stakes@[k] == p.modules[k].1.stake_original,
        decreases n - i,
    {
        assert(p.modules[i as int].1 == runtime_yuma_params.modules@[i as int].1@);
        all_stakes.push(runtime_yuma_params.modules[i].1.stake_original);
        i += 1;
    }
    all_stakes.push(Fixed64::saturating_from_u64(stake));
    assert(all_stakes@ =~= original_stakes_of(p.modules).push(Fixed64::of_u64(stake)));
    inplace_normalize_64(&mut all_stakes);
    let shares = vec_fixed64_to_fixed32(all_stakes);
    assert(shares@ =~= shares_with_copier(p.modules, stake));
    let mut modules: Vec<(ModuleKey, ModuleParams)> = Vec::new();
    let mut i: usize = 0;
    while i < n
        invariant
            i <= n,
            n == runtime_yuma_params.modules.len(),
            p == runtime_yuma_params@,
            shares@ == shares_with_copier(p.modules, stake),
            shares@.len() == n + 1,
            modules.len() == i,
            forall|k: int|
                0 <= k < i ==> (#[trigger] modules@[k]).0 == p.modules[k].0 && modules@[k].1@
                    == with_share(p.modules[k].1, shares@[k]),
        decreases n - i,
    {
        assert(p.modules[i as int] == (
            runtime_yuma_params.modules@[i as int].0,
            runtime_yuma_params.modules@[i as int].1@,
        ));
        let mut module = runtime_yuma_params.modules[i].1.duplicate();
        module.stake_normalized = shares[i];
        modules.push((runtime_yuma_params.modules[i].0, module));
        i += 1;
    }
    let current_block = runtime_yuma_params.current_block;
    let copier = ModuleParams {
        uid: copier_uid,
        last_update: current_block,
        block_at_registration: current_block.saturating_sub(1),
        validator_permit: true,
        stake_normalized: shares[n],
        stake_original: Fixed64::saturating_from_u64(stake),
        bonds: copier_bonds,
        weight_unencrypted_hash: Vec::new(),
        weight_encrypted: Vec::new(),
        weight_unencrypted: Vec::new(),
    };
    assert(copier@ == copier_module(p, copier_uid, stake, copier_bonds@));
    modules.push((copier_key(subnet_id, copier_uid), copier));
    let out = YumaParams {
        subnet_id: runtime_yuma_params.subnet_id,
        token_emission: runtime_yuma_params.token_emission,
        modules,
        kappa: runtime_yuma_params.kappa,
        founder_key: runtime_yuma_params.founder_key,
        founder_emission: runtime_yuma_params.founder_emission,
        current_block,
        activity_cutoff: runtime_yuma_params.activity_cutoff,
        max_allowed_validators: runtime_yuma_params.max_allowed_validators,
        bonds_moving_average: runtime_yuma_params.bonds_moving_average,
    };
    assert(out@.modules =~= with_copier(
        p,
        copier_uid,
        copier_key_of(subnet_id, copier_uid),
        stake,
        copier_bonds@,
    ).modules);
    out
}

/// A snapshot with its copier, ready to be simulated.
#[derive(Debug)]
pub struct SimulationYumaParams {
    /// The uid of the copier.
    pub uid: u16,
    pub params: YumaParams,
    /// The weights that the simulation runs on, as `(uid, row)` pairs of
    /// which the last pair of a uid counts.
    pub decrypted_weights_map: Vec<(u16, Vec<(u16, u16)>)>,
}

/// What the worker reads of a subnet for a simulation.
#[derive(Debug)]
pub struct SimulationLedger {
    /// The public consensus of each participant, by uid.
    pub consensus: Vec<u16>,
    /// The weights that the ledger holds, as `(uid, row)` pairs.
    pub weights: Vec<(u16, Vec<(u16, u16)>)>,
    /// Whether each participant was active in the last epoch, by uid.
    pub active: Vec<bool>,
    /// The bonds that the copier starts the epoch with.
    pub copier_bonds: Vec<(u16, u16)>,
    /// The length of an epoch in blocks.
    pub tempo: u16,
    pub delegation_fee: Percent,
    pub max_encryption_period: u64,
    pub copier_margin: Fixed64,
}

/// Whether there is no consensus to copy: no participant has any.
pub open spec fn consensus_empty(consensus: Seq<u16>) -> bool {
    forall|i: int| 0 <= i < consensus.len() ==> #[trigger] consensus[i] == 0
}

/// The weights of the copier: the consensus of each participant.
pub open spec fn copier_weights(consensus: Seq<u16>) -> Seq<(u16, u16)> {
    Seq::new(consensus.len(), |i: int| ((i % 65536) as u16, consensus[i]))
}

/// The weights that the simulation runs on: those of the ledger, over them
/// the decrypted ones, and the copier's.
pub open spec fn simulation_weights(
    onchain: Seq<(u16, Seq<(u16, u16)>)>,
    decrypted: Seq<(u16, Seq<(u16, u16)>)>,
    copier_uid: u16,
    consensus: Seq<u16>,
) -> Seq<(u16, Seq<(u16, u16)>)> {
    onchain + decrypted + seq![(copier_uid, copier_weights(consensus))]
}

/// The snapshot that is simulated: `p` with the copier at the next free
/// uid, holding as much stake as all active participants together.
pub open spec fn simulated(
    p: Snapshot,
    subnet_id: u16,
    active: Seq<bool>,
    copier_bonds: Seq<(u16, u16)>,
) -> Snapshot {
    let uid = p.modules.len() as u16;
    with_copier(
        p,
        uid,
        copier_key_of(subnet_id, uid),
        copier_stake(p.modules, active),
        copier_bonds,
    )
}

/// Whether a simulation can be set up: there is a consensus to copy and a
/// uid left for the copier.
pub open spec fn can_simulate(p: Snapshot, consensus: Seq<u16>) -> bool {
    !consensus_empty(consensus) && p.modules.len() <= 65535
}

/// Appends copies of the pairs of `table` to `out`.
fn append_table(out: &mut Vec<(u16, Vec<(u16, u16)>)>, table: &Vec<(u16, Vec<(u16, u16)>)>)
    ensures
        table_view(final(out)@) == table_view(old(out)@) + table_view(table@),
{
    let ghost before = table_view(out@);
    let mut k: usize = 0;
    while k < table.len()
        invariant
            k <= table.len(),
            table_view(out@) == before + table_view(table@).take(k as int),
        decreases table.len() - k,
    {
        let ghost prev = table_view(out@);
        out.push((table[k].0, copy_vec(&table[k].1)));
        assert(table_view(out@) =~= prev.push((table@[k as int].0, table@[k as int].1@)));
        assert(table_view(out@) =~= before + table_view(table@).take(k + 1));
        k += 1;
    }
    assert(table_view(table@).take(table.len() as int) =~= table_view(table@));
}

/// Whether no participant has any consensus.
fn is_consensus_empty(consensus: &Vec<u16>) -> (r: bool)
    ensures
        r == consensus_empty(consensus@),
{
    let mut i: usize = 0;
    while i < consensus.len()
        invariant
            i <= consensus.len(),
            forall|k: int| 0 <= k < i ==> #[trigger] consensus@[k] == 0,
        decreases consensus.len() - i,
    {
        if consensus[i] != 0 {
            return false;
        }
        i += 1;
    }
    true
}

/// Sets up the simulation of a snapshot: adds the copier, which mirrors the
/// public consensus, and puts the decrypted weights over those of the
/// ledger. There is nothing to simulate where no participant has any
/// consensus, or where no uid is left for the copier.
pub fn compute_simulation_yuma_params(
    decrypted_weights: &Vec<(u16, Vec<(u16, u16)>)>,
    runtime_yuma_params: YumaParams,
    subnet_id: u16,
    ledger: &SimulationLedger,
) -> (r: Option<SimulationYumaParams>)
    ensures
        match r {
            None => !can_simulate(runtime_yuma_params@, ledger.consensus@),
            Some(sim) => {
                &&& can_simulate(runtime_yuma_params@, ledger.consensus@)
                &&& sim.uid == runtime_yuma_params@.modules.len()
                &&& sim.params@ == simulated(
                    runtime_yuma_params@,
                    subnet_id,
                    ledger.active@,
                    ledger.copier_bonds@,
                )
                &&& table_view(sim.decrypted_weights_map@) == simulation_weights(
                    table_view(ledger.weights@),
                    table_view(decrypted_weights@),
                    sim.uid,
                    ledger.consensus@,
                )
            },
        },
{
    if runtime_yuma_params.modules.len() > 65535 {
        return None;
    }
    let copier_uid = runtime_yuma_params.modules.len() as u16;
    if is_consensus_empty(&ledger.consensus) {
        return None;
    }
    let mut weights: Vec<(u16, u16)> = Vec::new();
    let mut i: usize = 0;
    while i < ledger.consensus.len()
        invariant
            i <= ledger.consensus.len(),
            weights.len() == i,
            forall|k: int|
                0 <= k < i ==> #[trigger] weights@[k] == copier_weights(ledger.consensus@)[k],
        decreases ledger.consensus.len() - i,
    {
        weights.push(((i % 65536) as u16, ledger.consensus[i]));
        i += 1;
    }
    assert(weights@ =~= copier_weights(ledger.consensus@));
    let ghost p = runtime_yuma_params@;
    let stake = get_copier_stake(&runtime_yuma_params, &ledger.active);
    let params = add_copier_to_yuma_params(
        copier_uid,
        runtime_yuma_params,
        subnet_id,
        stake,
        copy_vec(&ledger.copier_bonds),
    );
    let mut map: Vec<(u16, Vec<(u16, u16)>)> = Vec::new();
    assert(table_view(map@) =~= Seq::empty());
    append_table(&mut map, &ledger.weights);
    append_table(&mut map, decrypted_weights);
    let ghost prev = table_view(map@);
    map.push((copier_uid, weights));
    assert(table_view(map@) =~= prev.push((copier_uid, copier_weights(ledger.consensus@))));
    assert(table_view(map@) =~= simulation_weights(
        table_view(ledger.weights@),
        table_view(decrypted_weights@),
        copier_uid,
        ledger.consensus@,
    ));
    Some(SimulationYumaParams { uid: copier_uid, params, decrypted_weights_map: map })
}

/// The answer where nothing could be simulated: reveal the weights.
pub open spec fn decrypt_by_default() -> ShouldDecryptResult {
    ShouldDecryptResult {
        should_decrypt: true,
        simulation_result: ConsensusSimulationResult::empty(),
        delta: Fixed64::zero(),
    }
}

/// Whether the simulation on `p` with the decrypted weights runs through.
pub open spec fn simulation_runs(
    decrypted: Seq<(u16, Seq<(u16, u16)>)>,
    p: Snapshot,
    subnet_id: u16,
    l: SimulationLedger,
) -> bool {
    let sp = simulated(p, subnet_id, l.active@, l.copier_bonds@);
    let weights = simulation_weights(
        table_view(l.weights@),
        decrypted,
        p.modules.len() as u16,
        l.consensus@,
    );
    &&& can_simulate(p, l.consensus@)
    &&& decrypted.len() > 0
    &&& sp.well_formed()
    &&& conserves(sp, epoch(sp, weights))
}

/// The sums of the subnet after the simulation on `p` with the decrypted
/// weights.
pub open spec fn sums_after(
    decrypted: Seq<(u16, Seq<(u16, u16)>)>,
    p: Snapshot,
    subnet_id: u16,
    s: ConsensusSimulationResult,
    l: SimulationLedger,
) -> ConsensusSimulationResult {
    let uid = p.modules.len() as u16;
    let sp = simulated(p, subnet_id, l.active@, l.copier_bonds@);
    let e = epoch(sp, simulation_weights(table_view(l.weights@), decrypted, uid, l.consensus@));
    updated(
        s,
        sp.modules,
        proportions(e.dividends),
        l.tempo,
        uid,
        l.delegation_fee,
        l.max_encryption_period,
        l.copier_margin,
    )
}

/// Whether to reveal the weights of a subnet. Where nothing can be
/// simulated, or the simulated epoch fails, the answer is to reveal them.
/// Where nothing was decrypted there is nothing to decide. Else the epoch
/// is simulated, its dividends are added to the sums, and the weights are
/// revealed where copying has become irrational.
pub open spec fn decision(
    decrypted: Seq<(u16, Seq<(u16, u16)>)>,
    p: Snapshot,
    subnet_id: u16,
    s: ConsensusSimulationResult,
    l: SimulationLedger,
) -> ShouldDecryptResult {
    if !can_simulate(p, l.consensus@) {
        decrypt_by_default()
    } else if decrypted.len() == 0 {
        ShouldDecryptResult::empty()
    } else if !simulation_runs(decrypted, p, subnet_id, l) {
        decrypt_by_default()
    } else {
        let after = sums_after(decrypted, p, subnet_id, s, l);
        ShouldDecryptResult {
            should_decrypt: copying_irrational(after).0,
            simulation_result: after,
            delta: copying_irrational(after).1.abs_spec(),
        }
    }
}

/// The sums that a snapshot leaves for the next: those after its
/// simulation, and those that it was given where nothing was simulated.
pub open spec fn sums_carried(
    decrypted: Seq<(u16, Seq<(u16, u16)>)>,
    p: Snapshot,
    subnet_id: u16,
    s: ConsensusSimulationResult,
    l: SimulationLedger,
) -> ConsensusSimulationResult {
    if simulation_runs(decrypted, p, subnet_id, l) {
        sums_after(decrypted, p, subnet_id, s, l)
    } else {
        s
    }
}

/// The bonds that the simulation leaves the copier with, where it runs
/// through and leaves any.
pub open spec fn copier_bonds_after(
    decrypted: Seq<(u16, Seq<(u16, u16)>)>,
    p: Snapshot,
    subnet_id: u16,
    l: SimulationLedger,
) -> Option<Seq<(u16, u16)>> {
    let uid = p.modules.len() as u16;
    let sp = simulated(p, subnet_id, l.active@, l.copier_bonds@);
    let e = epoch(sp, simulation_weights(table_view(l.weights@), decrypted, uid, l.consensus@));
    if simulation_runs(decrypted, p, subnet_id, l) {
        stored_bonds(e, sp).last()
    } else {
        None
    }
}

/// What a snapshot comes to.
#[derive(Debug)]
pub struct Simulated {
    /// Whether the weights are to be revealed.
    pub answer: ShouldDecryptResult,
    /// The bonds that the simulation left the copier with, to start the
    /// next simulation from.
    pub copier_bonds: Option<Vec<(u16, u16)>>,
    /// The sums that the next snapshot is decided on.
    pub sums: ConsensusSimulationResult,
}

/// Decides whether the weights of a subnet are to be revealed, by
/// simulating the epoch with a copier. With the answer come the bonds that
/// the simulation left the copier with, and the sums as they stand after
/// the simulation: with the dividends of the epoch and its length added, or
/// as they were given where nothing was simulated.
pub fn should_decrypt_weights(
    decrypted_weights: &Vec<(u16, Vec<(u16, u16)>)>,
    latest_runtime_yuma_params: YumaParams,
    subnet_id: u16,
    simulation_result: ConsensusSimulationResult,
    ledger: &SimulationLedger,
) -> (r: Simulated)
    ensures
        r.sums == sums_carried(
            table_view(decrypted_weights@),
            latest_runtime_yuma_params@,
            subnet_id,
            simulation_result,
            *ledger,
        ),
        r.answer == decision(
            table_view(decrypted_weights@),
            latest_runtime_yuma_params@,
            subnet_id,
            simulation_result,
            *ledger,
        ),
        match r.copier_bonds {
            Some(bonds) => copier_bonds_after(
                table_view(decrypted_weights@),
                latest_runtime_yuma_params@,
                subnet_id,
                *ledger,
            ) == Some(bonds@),
            None => copier_bonds_after(
                table_view(decrypted_weights@),
                latest_runtime_yuma_params@,
                subnet_id,
                *ledger,
            ) is None,
        },
{
    let by_default = ShouldDecryptResult {
        should_decrypt: true,
        simulation_result: ConsensusSimulationResult::default(),
        delta: Fixed64::from_bits(0),
    };
    let sim = match compute_simulation_yuma_params(
        decrypted_weights,
        latest_runtime_yuma_params,
        subnet_id,
        ledger,
    ) {
        Some(sim) => sim,
        None => {
            return Simulated { answer: by_default, copier_bonds: None, sums: simulation_result };
        },
    };
    if decrypted_weights.len() == 0 {
        return Simulated {
            answer: ShouldDecryptResult::default(),
            copier_bonds: None,
            sums: simulation_result,
        };
    }
    let copier_uid = sim.uid;
    let output = match YumaEpoch::new(subnet_id, sim.params).run(sim.decrypted_weights_map) {
        Ok(output) => output,
        Err(_) => {
            return Simulated { answer: by_default, copier_bonds: None, sums: simulation_result };
        },
    };
    let mut after = simulation_result;
    after.update(
        &output,
        ledger.tempo,
        copier_uid,
        ledger.delegation_fee,
        ledger.max_encryption_period,
        ledger.copier_margin,
    );
    let (is_irrational, delta) = is_copying_irrational(after);
    let result = ShouldDecryptResult {
        should_decrypt: is_irrational,
        simulation_result: after,
        delta: delta.saturating_abs(),
    };
    let count = output.bonds.len();
    assert(bond_views(output.bonds@).len() == count);
    if count == 0 {
        return Simulated { answer: result, copier_bonds: None, sums: after };
    }
    assert(bond_views(output.bonds@).last() == bond_views(output.bonds@)[count - 1]);
    let saved = match &output.bonds[count - 1] {
        Some(bonds) => Some(copy_vec(bonds)),
        None => None,
    };
    Simulated { answer: result, copier_bonds: saved, sums: after }
}

} // verus!
