//! The worker's pass over the snapshots of a subnet that it has not
//! simulated yet.
//!
//! The worker keeps, for each subnet, the block of the last snapshot that it
//! has accounted for, and the sums of its simulations. A pass takes the
//! snapshots after that block in their order. Each is decided on the sums
//! that the one before it left, and adds the dividends and the length of
//! its epoch to them. The pass either moves the cursor on, keeping the sums
//! after all snapshots, or asks for the weights to be sent. A pass over
//! snapshots that are already accounted for changes nothing.
use crate::fixed::Fixed64;
use crate::params::{copy_vec, table_view, ModuleKey, ModuleView, Snapshot, YumaParams};
use crate::profitability::{ConsensusSimulationResult, ShouldDecryptResult};
use crate::simulation::{
    copier_bonds_after, decision, should_decrypt_weights, simulation_runs, sums_carried,
    SimulationLedger,
};
use vstd::prelude::*;

verus! {

/// The snapshots of a list as plain values, each with its block.
pub open spec fn params_view(params: Seq<(u64, YumaParams)>) -> Seq<(u64, Snapshot)> {
    Seq::new(params.len(), |i: int| (params[i].0, params[i].1@))
}

/// The tables of a list as plain values.
pub open spec fn tables_view(tables: Seq<Vec<(u16, Vec<(u16, u16)>)>>) -> Seq<
    Seq<(u16, Seq<(u16, u16)>)>,
> {
    Seq::new(tables.len(), |i: int| table_view(tables[i]@))
}

/// The table at position `k`, or an empty one where the list has none.
pub open spec fn table_at(tables: Seq<Seq<(u16, Seq<(u16, u16)>)>>, k: int) -> Seq<
    (u16, Seq<(u16, u16)>),
> {
    if 0 <= k < tables.len() {
        tables[k]
    } else {
        Seq::empty()
    }
}

/// What a pass over the snapshots of a subnet comes to.
#[derive(Debug)]
pub struct ProcessedParams {
    /// Whether the weights are to be sent.
    pub should_send: bool,
    /// The answer of the last snapshot where the weights are to be sent;
    /// else no decision, with the sums after all snapshots.
    pub result: ShouldDecryptResult,
    /// Whether the weights are sent because it is this worker's turn, not
    /// because copying has become irrational.
    pub forced_send: bool,
    /// The bonds that the last simulation left the copier with.
    pub copier_bonds: Option<Vec<(u16, u16)>>,
}

/// The answer before any snapshot has been looked at.
pub open spec fn undecided(s: ConsensusSimulationResult) -> ShouldDecryptResult {
    ShouldDecryptResult { should_decrypt: false, simulation_result: s, delta: Fixed64::zero() }
}

/// An answer with its difference set to zero.
pub open spec fn without_delta(d: ShouldDecryptResult) -> ShouldDecryptResult {
    ShouldDecryptResult {
        should_decrypt: d.should_decrypt,
        simulation_result: d.simulation_result,
        delta: Fixed64::zero(),
    }
}

/// The sums after the first `upto` snapshots: each snapshot that is
/// simulated adds the dividends of its epoch and the epoch's length to the
/// sums that the snapshot before it left.
pub open spec fn sums_through(
    params: Seq<(u64, Snapshot)>,
    decrypted: Seq<Seq<(u16, Seq<(u16, u16)>)>>,
    subnet_id: u16,
    s: ConsensusSimulationResult,
    l: SimulationLedger,
    upto: int,
) -> ConsensusSimulationResult
    decreases upto,
{
    if upto <= 0 {
        s
    } else {
        sums_carried(
            table_at(decrypted, upto - 1),
            params[upto - 1].1,
            subnet_id,
            sums_through(params, decrypted, subnet_id, s, l, upto - 1),
            l,
        )
    }
}

/// What the first `upto` snapshots come to: whether the weights are to be
/// sent, the answer that stands, and whether a sending was forced. Each
/// snapshot is decided on the sums that the snapshot before it left, and the
/// last snapshot decides whether to send. Where it does not, the answer that
/// stands holds the sums after all snapshots.
pub open spec fn processed(
    params: Seq<(u64, Snapshot)>,
    decrypted: Seq<Seq<(u16, Seq<(u16, u16)>)>>,
    subnet_id: u16,
    s: ConsensusSimulationResult,
    rotation_should_send: bool,
    l: SimulationLedger,
    upto: int,
) -> (bool, ShouldDecryptResult, bool)
    decreases upto,
{
    if upto <= 0 {
        (false, undecided(s), false)
    } else {
        let before = processed(params, decrypted, subnet_id, s, rotation_should_send, l, upto - 1);
        let given = sums_through(params, decrypted, subnet_id, s, l, upto - 1);
        let d = decision(table_at(decrypted, upto - 1), params[upto - 1].1, subnet_id, given, l);
        if d.should_decrypt {
            (true, d, before.2)
        } else if rotation_should_send {
            (true, without_delta(d), true)
        } else {
            (
                false,
                undecided(sums_through(params, decrypted, subnet_id, s, l, upto)),
                before.2,
            )
        }
    }
}

/// Where no snapshot of a pass asks for the weights and it is not this
/// worker's turn, nothing is sent, and the answer holds the sums after all
/// snapshots of the pass.
pub proof fn lemma_sums_accumulate(
    params: Seq<(u64, Snapshot)>,
    decrypted: Seq<Seq<(u16, Seq<(u16, u16)>)>>,
    subnet_id: u16,
    s: ConsensusSimulationResult,
    l: SimulationLedger,
    upto: int,
)
    requires
        0 <= upto <= params.len(),
        forall|k: int|
            0 <= k < upto ==> !(#[trigger] decision(
                table_at(decrypted, k),
                params[k].1,
                subnet_id,
                sums_through(params, decrypted, subnet_id, s, l, k),
                l,
            )).should_decrypt,
    ensures
        processed(params, decrypted, subnet_id, s, false, l, upto) == (
            false,
            undecided(sums_through(params, decrypted, subnet_id, s, l, upto)),
            false,
        ),
    decreases upto,
{
    if upto > 0 {
        lemma_sums_accumulate(params, decrypted, subnet_id, s, l, upto - 1);
    }
}

/// A snapshot that is simulated lets the age of the withheld weights grow by
/// the length of the epoch.
pub proof fn lemma_simulation_ages(
    decrypted: Seq<(u16, Seq<(u16, u16)>)>,
    p: Snapshot,
    subnet_id: u16,
    s: ConsensusSimulationResult,
    l: SimulationLedger,
)
    requires
        simulation_runs(decrypted, p, subnet_id, l),
    ensures
        sums_carried(decrypted, p, subnet_id, s, l).black_box_age == (if s.black_box_age + l.tempo
            > u64::MAX {
            u64::MAX
        } else {
            (s.black_box_age + l.tempo) as u64
        }),
{
}

/// The bonds that the last of the first `upto` simulations that left the
/// copier any bonds left it.
pub open spec fn bonds_processed(
    params: Seq<(u64, Snapshot)>,
    decrypted: Seq<Seq<(u16, Seq<(u16, u16)>)>>,
    subnet_id: u16,
    l: SimulationLedger,
    upto: int,
) -> Option<Seq<(u16, u16)>>
    decreases upto,
{
    if upto <= 0 {
        None
    } else {
        match copier_bonds_after(table_at(decrypted, upto - 1), params[upto - 1].1, subnet_id, l) {
            Some(bonds) => Some(bonds),
            None => bonds_processed(params, decrypted, subnet_id, l, upto - 1),
        }
    }
}

/// The bonds of an option as plain values.
pub open spec fn bonds_view(bonds: Option<Vec<(u16, u16)>>) -> Option<Seq<(u16, u16)>> {
    match bonds {
        Some(b) => Some(b@),
        None => None,
    }
}

/// Goes through the snapshots of a subnet in their order and decides for
/// each whether the weights are to be revealed, adding the dividends of each
/// simulated epoch to the sums. `decrypted` holds, for each snapshot, the
/// weights that could be decrypted. Where a snapshot does not ask for the
/// weights and it is this worker's turn to send, they are sent all the same.
pub fn process_consensus_params(
    subnet_id: u16,
    consensus_params: &Vec<(u64, YumaParams)>,
    decrypted: &Vec<Vec<(u16, Vec<(u16, u16)>)>>,
    simulation_result: ConsensusSimulationResult,
    rotation_should_send: bool,
    ledger: &SimulationLedger,
) -> (r: ProcessedParams)
    ensures
        (r.should_send, r.result, r.forced_send) == processed(
            params_view(consensus_params@),
            tables_view(decrypted@),
            subnet_id,
            simulation_result,
            rotation_should_send,
            *ledger,
            consensus_params@.len() as int,
        ),
        bonds_view(r.copier_bonds) == bonds_processed(
            params_view(consensus_params@),
            tables_view(decrypted@),
            subnet_id,
            *ledger,
            consensus_params@.len() as int,
        ),
{
    let mut result = ShouldDecryptResult {
        should_decrypt: false,
        simulation_result,
        delta: Fixed64::from_bits(0),
    };
    let mut sums = simulation_result;
    let mut final_should_send = false;
    let mut forced_send = false;
    let mut copier_bonds: Option<Vec<(u16, u16)>> = None;
    let none: Vec<(u16, Vec<(u16, u16)>)> = Vec::new();
    assert(table_view(none@) =~= Seq::empty());
    let mut k: usize = 0;
    while k < consensus_params.len()
        invariant
            k <= consensus_params.len(),
            table_view(none@) == Seq::<(u16, Seq<(u16, u16)>)>::empty(),
            sums == sums_through(
                params_view(consensus_params@),
                tables_view(decrypted@),
                subnet_id,
                simulation_result,
                *ledger,
                k as int,
            ),
            (final_should_send, result, forced_send) == processed(
                params_view(consensus_params@),
                tables_view(decrypted@),
                subnet_id,
                simulation_result,
                rotation_should_send,
                *ledger,
                k as int,
            ),
            bonds_view(copier_bonds) == bonds_processed(
                params_view(consensus_params@),
                tables_view(decrypted@),
                subnet_id,
                *ledger,
                k as int,
            ),
        decreases consensus_params.len() - k,
    {
        let weights = if k < decrypted.len() {
            &decrypted[k]
        } else {
            &none
        };
        assert(table_view(weights@) == table_at(tables_view(decrypted@), k as int));
        let simulated = should_decrypt_weights(
            weights,
            consensus_params[k].1.duplicate(),
            subnet_id,
            sums,
            ledger,
        );
        sums = simulated.sums;
        if simulated.copier_bonds.is_some() {
            copier_bonds = simulated.copier_bonds;
        }
        let mut answer = simulated.answer;
        let current_should_send = if !answer.should_decrypt {
            if rotation_should_send {
                forced_send = true;
                answer.delta = Fixed64::from_bits(0);
            }
            rotation_should_send
        } else {
            true
        };
        result = if current_should_send {
            answer
        } else {
            ShouldDecryptResult {
                should_decrypt: false,
                simulation_result: sums,
                delta: Fixed64::from_bits(0),
            }
        };
        final_should_send = current_should_send;
        k += 1;
    }
    ProcessedParams { should_send: final_should_send, result, forced_send, copier_bonds }
}

/// What the worker keeps of a subnet between its passes.
#[derive(Clone, Copy, Debug, PartialEq, Eq, Structural)]
pub struct SubnetState {
    /// The block of the last snapshot that is accounted for.
    pub last_processed_block: u64,
    pub simulation_result: ConsensusSimulationResult,
}

/// What a pass asks the worker to do.
#[derive(Clone, Copy, Debug, PartialEq, Eq, Structural)]
pub enum SubnetAction {
    /// The subnet is registered later than the current block: it has been
    /// deregistered and registered anew, and what is kept of it is stale.
    Deregistered,
    /// Every snapshot is accounted for already.
    AlreadyProcessed,
    /// Keep the new state.
    SaveState,
    /// Send the decrypted weights, and keep the state as it was.
    SendWeights { delta: Fixed64, forced_send: bool },
}

/// The state of a subnet that the worker has kept nothing of.
pub open spec fn initial_state(
    irrationality_delta: Fixed64,
    copier_margin: Fixed64,
    max_encryption_period: u64,
) -> SubnetState {
    SubnetState {
        last_processed_block: 0,
        simulation_result: ConsensusSimulationResult {
            cumulative_copier_divs: Fixed64::zero(),
            cumulative_avg_delegate_divs: irrationality_delta,
            copier_margin,
            black_box_age: 0,
            max_encryption_period,
        },
    }
}

/// The state of a subnet at the start of a pass: what the worker has kept,
/// or a fresh state where it has kept nothing.
pub fn get_subnet_state(
    stored: Option<SubnetState>,
    irrationality_delta: Fixed64,
    copier_margin: Fixed64,
    max_encryption_period: u64,
) -> (r: SubnetState)
    ensures
        r == (match stored {
            Some(state) => state,
            None => initial_state(irrationality_delta, copier_margin, max_encryption_period),
        }),
{
    match stored {
        Some(state) => state,
        None => SubnetState {
            last_processed_block: 0,
            simulation_result: ConsensusSimulationResult {
                cumulative_copier_divs: Fixed64::from_bits(0),
                cumulative_avg_delegate_divs: irrationality_delta,
                copier_margin,
                black_box_age: 0,
                max_encryption_period,
            },
        },
    }
}

/// The greatest block of the first `upto` snapshots, and zero for none.
pub open spec fn max_block(params: Seq<(u64, Snapshot)>, upto: int) -> u64
    decreases upto,
{
    if upto <= 0 {
        0
    } else {
        let before = max_block(params, upto - 1);
        if params[upto - 1].0 > before {
            params[upto - 1].0
        } else {
            before
        }
    }
}

/// The snapshots with a block after `after`, in their order.
pub open spec fn newer_params(params: Seq<(u64, Snapshot)>, after: u64) -> Seq<(u64, Snapshot)>
    decreases params.len(),
{
    if params.len() == 0 {
        Seq::empty()
    } else {
        let rest = newer_params(params.drop_last(), after);
        if params.last().0 > after {
            rest.push(params.last())
        } else {
            rest
        }
    }
}

/// Why a pass has nothing to do, if it has nothing to do: the subnet is
/// registered later than the current block, or the cursor stands at the
/// last snapshot.
pub open spec fn nothing_due(
    state: SubnetState,
    params: Seq<(u64, Snapshot)>,
    registration_block: u64,
    current_block: u64,
) -> Option<SubnetAction> {
    if registration_block > current_block {
        Some(SubnetAction::Deregistered)
    } else if state.last_processed_block >= max_block(params, params.len() as int) {
        Some(SubnetAction::AlreadyProcessed)
    } else {
        None
    }
}

/// What a pass does to the state of a subnet, and what it asks for.
pub open spec fn pass(
    state: SubnetState,
    subnet_id: u16,
    params: Seq<(u64, Snapshot)>,
    decrypted: Seq<Seq<(u16, Seq<(u16, u16)>)>>,
    registration_block: u64,
    current_block: u64,
    rotation_should_send: bool,
    l: SimulationLedger,
) -> (SubnetState, SubnetAction) {
    let top = max_block(params, params.len() as int);
    if let Some(action) = nothing_due(state, params, registration_block, current_block) {
        (state, action)
    } else {
        let fresh = newer_params(params, state.last_processed_block);
        let done = processed(
            fresh,
            decrypted,
            subnet_id,
            state.simulation_result,
            rotation_should_send,
            l,
            fresh.len() as int,
        );
        if done.0 {
            (state, SubnetAction::SendWeights { delta: done.1.delta, forced_send: done.2 })
        } else {
            (
                SubnetState {
                    last_processed_block: top,
                    simulation_result: done.1.simulation_result,
                },
                SubnetAction::SaveState,
            )
        }
    }
}

/// A pass over snapshots that were passed over before changes nothing: the
/// state that a pass leaves is the state that a second pass over the same
/// snapshots leaves.
pub proof fn lemma_pass_idempotent(
    state: SubnetState,
    subnet_id: u16,
    params: Seq<(u64, Snapshot)>,
    decrypted: Seq<Seq<(u16, Seq<(u16, u16)>)>>,
    registration_block: u64,
    current_block: u64,
    rotation_should_send: bool,
    l: SimulationLedger,
)
    ensures
        ({
            let once = pass(
                state,
                subnet_id,
                params,
                decrypted,
                registration_block,
                current_block,
                rotation_should_send,
                l,
            ).0;
            pass(
                once,
                subnet_id,
                params,
                decrypted,
                registration_block,
                current_block,
                rotation_should_send,
                l,
            ).0 == once
        }),
{
}

/// The greatest block of the snapshots, and zero for none.
pub fn greatest_block(params: &Vec<(u64, YumaParams)>) -> (r: u64)
    ensures
        r == max_block(params_view(params@), params@.len() as int),
{
    let mut top: u64 = 0;
    let mut k: usize = 0;
    while k < params.len()
        invariant
            k <= params.len(),
            top == max_block(params_view(params@), k as int),
        decreases params.len() - k,
    {
        if params[k].0 > top {
            top = params[k].0;
        }
        k += 1;
    }
    top
}

/// Copies of the snapshots with a block after `after`, in their order.
pub fn params_after(params: &Vec<(u64, YumaParams)>, after: u64) -> (r: Vec<(u64, YumaParams)>)
    ensures
        params_view(r@) == newer_params(params_view(params@), after),
{
    let ghost all = params_view(params@);
    let mut out: Vec<(u64, YumaParams)> = Vec::new();
    assert(params_view(out@) =~= newer_params(all.take(0), after));
    let mut k: usize = 0;
    while k < params.len()
        invariant
            k <= params.len(),
            all == params_view(params@),
            params_view(out@) == newer_params(all.take(k as int), after),
        decreases params.len() - k,
    {
        assert(all.take(k + 1).drop_last() =~= all.take(k as int));
        if params[k].0 > after {
            let ghost prev = params_view(out@);
            out.push((params[k].0, params[k].1.duplicate()));
            assert(params_view(out@) =~= prev.push(all[k as int]));
        }
        k += 1;
    }
    assert(all.take(params.len() as int) =~= all);
    out
}

/// Says, before anything is decrypted, whether a pass over the snapshots of
/// a subnet has nothing to do, and why.
pub fn reason_to_skip(
    state: SubnetState,
    params: &Vec<(u64, YumaParams)>,
    registration_block: u64,
    current_block: u64,
) -> (r: Option<SubnetAction>)
    ensures
        r == nothing_due(state, params_view(params@), registration_block, current_block),
{
    if registration_block > current_block {
        return Some(SubnetAction::Deregistered);
    }
    if state.last_processed_block >= greatest_block(params) {
        return Some(SubnetAction::AlreadyProcessed);
    }
    None
}

/// One pass over the snapshots of a subnet. `params` holds every snapshot
/// that the ledger has of the subnet, and `decrypted` the weights that could
/// be decrypted for each snapshot after the cursor, in their order. With the
/// state that the pass leaves and what it asks for come the bonds that the
/// last simulation left the copier with.
pub fn process_subnet(
    state: SubnetState,
    subnet_id: u16,
    params: &Vec<(u64, YumaParams)>,
    decrypted: &Vec<Vec<(u16, Vec<(u16, u16)>)>>,
    registration_block: u64,
    current_block: u64,
    rotation_should_send: bool,
    ledger: &SimulationLedger,
) -> (r: (SubnetState, SubnetAction, Option<Vec<(u16, u16)>>))
    ensures
        (r.0, r.1) == pass(
            state,
            subnet_id,
            params_view(params@),
            tables_view(decrypted@),
            registration_block,
            current_block,
            rotation_should_send,
            *ledger,
        ),
        r.1 is Deregistered || r.1 is AlreadyProcessed ==> r.2 is None,
        !(r.1 is Deregistered || r.1 is AlreadyProcessed) ==> bonds_view(r.2) == bonds_processed(
            newer_params(params_view(params@), state.last_processed_block),
            tables_view(decrypted@),
            subnet_id,
            *ledger,
            newer_params(params_view(params@), state.last_processed_block).len() as int,
        ),
{
    match reason_to_skip(state, params, registration_block, current_block) {
        Some(action) => {
            return (state, action, None);
        },
        None => {},
    }
    let top = greatest_block(params);
    let fresh = params_after(params, state.last_processed_block);
    assert(params_view(fresh@).len() == fresh@.len());
    let done = process_consensus_params(
        subnet_id,
        &fresh,
        decrypted,
        state.simulation_result,
        rotation_should_send,
        ledger,
    );
    if done.should_send {
        (
            state,
            SubnetAction::SendWeights { delta: done.result.delta, forced_send: done.forced_send },
            done.copier_bonds,
        )
    } else {
        (
            SubnetState {
                last_processed_block: top,
                simulation_result: done.result.simulation_result,
            },
            SubnetAction::SaveState,
            done.copier_bonds,
        )
    }
}

/// The uid of the first participant of the list with the key `key`.
pub open spec fn uid_in(mods: Seq<(ModuleKey, ModuleView)>, key: ModuleKey) -> Option<u16>
    decreases mods.len(),
{
    if mods.len() == 0 {
        None
    } else if mods[0].0.0@ == key.0@ {
        Some(mods[0].1.uid)
    } else {
        uid_in(mods.skip(1), key)
    }
}

/// The uid that the first snapshot that knows the key `key` has for it.
pub open spec fn uid_across(params: Seq<(u64, Snapshot)>, key: ModuleKey) -> Option<u16>
    decreases params.len(),
{
    if params.len() == 0 {
        None
    } else {
        match uid_in(params[0].1.modules, key) {
            Some(uid) => Some(uid),
            None => uid_across(params.skip(1), key),
        }
    }
}

/// The encrypted weights of the participants `mods`, each with the uid that
/// the snapshots `params` have for the participant's key.
pub open spec fn requests_of(params: Seq<(u64, Snapshot)>, mods: Seq<(ModuleKey, ModuleView)>)
    -> Seq<(u16, Seq<u8>)>
    decreases mods.len(),
{
    if mods.len() == 0 {
        Seq::empty()
    } else {
        let rest = requests_of(params, mods.drop_last());
        match uid_across(params, mods.last().0) {
            Some(uid) => rest.push((uid, mods.last().1.weight_encrypted)),
            None => rest,
        }
    }
}

/// The requests of a list as plain values.
pub open spec fn requests_view(requests: Seq<(u16, Vec<u8>)>) -> Seq<(u16, Seq<u8>)> {
    Seq::new(requests.len(), |i: int| (requests[i].0, requests[i].1@))
}

fn find_uid(params: &YumaParams, key: &ModuleKey) -> (r: Option<u16>)
    ensures
        r == uid_in(params@.modules, *key),
{
    let ghost mods = params@.modules;
    let mut k: usize = 0;
    assert(mods.skip(0) =~= mods);
    while k < params.modules.len()
        invariant
            k <= params.modules.len(),
            mods == params@.modules,
            uid_in(mods, *key) == uid_in(mods.skip(k as int), *key),
        decreases params.modules.len() - k,
    {
        assert(mods.skip(k as int).skip(1) =~= mods.skip(k + 1));
        assert(mods[k as int] == (params.modules@[k as int].0, params.modules@[k as int].1@));
        if params.modules[k].0.same_as(key) {
            return Some(params.modules[k].1.uid);
        }
        k += 1;
    }
    None
}

fn find_uid_across(params: &Vec<(u64, YumaParams)>, key: &ModuleKey) -> (r: Option<u16>)
    ensures
        r == uid_across(params_view(params@), *key),
{
    let ghost all = params_view(params@);
    let mut k: usize = 0;
    assert(all.skip(0) =~= all);
    while k < params.len()
        invariant
            k <= params.len(),
            all == params_view(params@),
            uid_across(all, *key) == uid_across(all.skip(k as int), *key),
        decreases params.len() - k,
    {
        assert(all.skip(k as int).skip(1) =~= all.skip(k + 1));
        match find_uid(&params[k].1, key) {
            Some(uid) => {
                return Some(uid);
            },
            None => {},
        }
        k += 1;
    }
    None
}

/// The encrypted weights that a snapshot holds, one request per
/// participant, each with the uid under which the decrypted weights count.
pub fn weights_to_decrypt(consensus_params: &Vec<(u64, YumaParams)>, at: usize) -> (r: Vec<
    (u16, Vec<u8>),
>)
    ensures
        requests_view(r@) == (if at < consensus_params@.len() {
            requests_of(
                params_view(consensus_params@),
                params_view(consensus_params@)[at as int].1.modules,
            )
        } else {
            Seq::empty()
        }),
{
    let mut out: Vec<(u16, Vec<u8>)> = Vec::new();
    if at >= consensus_params.len() {
        assert(requests_view(out@) =~= Seq::empty());
        return out;
    }
    let ghost all = params_view(consensus_params@);
    let ghost mods = all[at as int].1.modules;
    let params = &consensus_params[at].1;
    assert(requests_view(out@) =~= requests_of(all, mods.take(0)));
    let mut k: usize = 0;
    while k < params.modules.len()
        invariant
            k <= params.modules.len(),
            all == params_view(consensus_params@),
            mods == params@.modules,
            requests_view(out@) == requests_of(all, mods.take(k as int)),
        decreases params.modules.len() - k,
    {
        assert(mods.take(k + 1).drop_last() =~= mods.take(k as int));
        assert(mods[k as int] == (params.modules@[k as int].0, params.modules@[k as int].1@));
        match find_uid_across(consensus_params, &params.modules[k].0) {
            Some(uid) => {
                let ghost prev = requests_view(out@);
                out.push((uid, copy_vec(&params.modules[k].1.weight_encrypted)));
                assert(requests_view(out@) =~= prev.push((uid, mods[k as int].1.weight_encrypted)));
            },
            None => {},
        }
        k += 1;
    }
    assert(mods.take(params.modules.len() as int) =~= mods);
    out
}

/// The answer at position `k`, or none where the list has no such position.
pub open spec fn answer_at(answers: Seq<Option<Vec<(u16, u16)>>>, k: int) -> Option<
    Seq<(u16, u16)>,
> {
    if 0 <= k < answers.len() {
        bonds_view(answers[k])
    } else {
        None
    }
}

/// The weights that count as decrypted: for a request without encrypted
/// weights an empty row, for one that was decrypted the decrypted row, and
/// nothing for one that could not be decrypted.
pub open spec fn decrypted_of(
    requests: Seq<(u16, Seq<u8>)>,
    answers: Seq<Option<Vec<(u16, u16)>>>,
    upto: int,
) -> Seq<(u16, Seq<(u16, u16)>)>
    decreases upto,
{
    if upto <= 0 {
        Seq::empty()
    } else {
        let rest = decrypted_of(requests, answers, upto - 1);
        if requests[upto - 1].1.len() == 0 {
            rest.push((requests[upto - 1].0, Seq::empty()))
        } else {
            match answer_at(answers, upto - 1) {
                Some(row) => rest.push((requests[upto - 1].0, row)),
                None => rest,
            }
        }
    }
}

/// Puts the answers of the decryption next to the requests. A request
/// that could not be decrypted is left out: its weights do not count as
/// decrypted in this pass.
pub fn collect_decrypted(requests: &Vec<(u16, Vec<u8>)>, answers: &Vec<Option<Vec<(u16, u16)>>>)
    -> (r: Vec<(u16, Vec<(u16, u16)>)>)
    ensures
        table_view(r@) == decrypted_of(requests_view(requests@), answers@, requests@.len() as int),
{
    let ghost reqs = requests_view(requests@);
    let mut out: Vec<(u16, Vec<(u16, u16)>)> = Vec::new();
    assert(table_view(out@) =~= decrypted_of(reqs, answers@, 0));
    let mut k: usize = 0;
    while k < requests.len()
        invariant
            k <= requests.len(),
            reqs == requests_view(requests@),
            table_view(out@) == decrypted_of(reqs, answers@, k as int),
        decreases requests.len() - k,
    {
        let ghost prev = table_view(out@);
        if requests[k].1.len() == 0 {
            out.push((requests[k].0, Vec::new()));
            assert(table_view(out@) =~= prev.push((reqs[k as int].0, Seq::empty())));
        } else if k < answers.len() {
            match &answers[k] {
                Some(row) => {
                    out.push((requests[k].0, copy_vec(row)));
                    assert(table_view(out@) =~= prev.push((reqs[k as int].0, row@)));
                },
                None => {},
            }
        }
        k += 1;
    }
    out
}

} // verus!
