//! One epoch of the consensus: from a snapshot and the weights to scores,
//! bonds and token amounts.
//!
//! The steps are those of the epoch in their order: who is active, which
//! weights count, who may validate, the active stake, the consensus of each
//! column and the weights clipped to it, ranks, trust and incentive, the
//! moving average of the bonds and the dividends, and the split of the
//! emission.
use crate::conservation::{fit_for_epoch, lemma_epoch_conserves};
use crate::fixed::{unit32, Fixed32, Fixed64};
use crate::math::{
    all_zero, inplace_mask_vector, inplace_normalize, inplace_normalize_using_sum, is_topk,
    is_zero, masked, max_upscaled, normalized, normalized_by, quotients, sum32, topk,
    vec_max_upscale_to_u16, vec_sum, vecdiv,
};
use crate::median::{weighted_median_col_sparse, weighted_median_cols};
use crate::params::{
    bond_rows_of, copy_vec, fixed_row, flattened, forbids_of, has_distinct_keys, keys_of,
    last_updates_of, lookup_row, ModuleKey,
    registrations_of, row_for, stakes_of, table_view, to_fixed_row, FlattenedModules, Snapshot,
    YumaParams,
};
use crate::sparse::{
    clipped_to, col_clip_sparse, col_max_upscaled, col_normalized, filter_map_rows,
    inplace_col_max_upscale_sparse, inplace_col_normalize_sparse, inplace_row_normalize_sparse,
    mask_diag_sparse, mask_rows_sparse, mat_ema, mat_ema_sparse, matmul, matmul_sparse,
    matmul_transpose, matmul_transpose_sparse, newer_than, off_diagonal, row_hadamard_sparse,
    row_normalized, row_sum_sparse, row_sums, rows_masked, rows_of, times_row,
    vec_mask_sparse_matrix, Entry,
};
use vstd::prelude::*;

verus! {

/// Whether each participant is inactive: its last update lies more than the
/// cutoff before the current block.
pub open spec fn inactive_flags(last_update: Seq<u64>, cutoff: u64, current_block: u64) -> Seq<
    bool,
> {
    Seq::new(last_update.len(), |i: int| last_update[i] + cutoff < current_block)
}

/// The opposite of each flag.
pub open spec fn negated(flags: Seq<bool>) -> Seq<bool> {
    Seq::new(flags.len(), |i: int| !flags[i])
}

/// The weights that the epoch is given, one row per uid below `n`, with each
/// value as a fixed-point integer.
pub open spec fn prepared_weights(input: Seq<(u16, Seq<(u16, u16)>)>, n: nat) -> Seq<Seq<Entry>> {
    Seq::new(n, |i: int| fixed_row(row_for(input, i)))
}

/// The weights that count: without the rows of those who may not validate
/// (where validators are limited), without self-weights, without weights set
/// before their target registered or on a uid that no participant has, and
/// with each row normalised.
pub open spec fn counted_weights(
    raw: Seq<Seq<Entry>>,
    restricted: bool,
    forbid: Seq<bool>,
    last_update: Seq<u64>,
    registration: Seq<u64>,
) -> Seq<Seq<Entry>> {
    let permitted = if restricted {
        rows_masked(forbid, raw)
    } else {
        raw
    };
    row_normalized(
        filter_map_rows(
            filter_map_rows(permitted, off_diagonal()),
            newer_than(last_update, registration),
        ),
    )
}

/// Who may validate from this epoch on: the `max` participants with the most
/// stake, of equal stakes those with the lower uid; everyone where there is
/// no limit.
pub open spec fn new_permits(stake: Seq<Fixed32>, max: Option<u16>) -> Seq<bool> {
    match max {
        Some(k) => topk(stake, k as nat),
        None => Seq::new(stake.len(), |i: int| true),
    }
}

/// The stake that takes part: that of the active participants, and only of
/// validators where validators are limited, normalised.
pub open spec fn active_stake_of(
    stake: Seq<Fixed32>,
    inactive: Seq<bool>,
    restricted: bool,
    forbid: Seq<bool>,
) -> Seq<Fixed32> {
    let active = masked(inactive, stake);
    normalized(
        if restricted {
            masked(forbid, active)
        } else {
            active
        },
    )
}

/// The weight of the new bonds in the moving average: one minus the stored
/// millionths.
pub open spec fn ema_alpha(bonds_moving_average: u64) -> Fixed32 {
    Fixed32::one().sub_spec(
        Fixed32::of_fixed64(
            Fixed64::of_u64(bonds_moving_average).div_or_zero(Fixed64::of_u64(1_000_000)),
        ),
    )
}

/// The sum of two vectors, position by position, as long as the first.
pub open spec fn sums_of(a: Seq<Fixed32>, b: Seq<Fixed32>) -> Seq<Fixed32> {
    Seq::new(
        a.len(),
        |i: int|
            a[i].add_spec(
                if i < b.len() {
                    b[i]
                } else {
                    Fixed32::zero()
                },
            ),
    )
}

/// The tokens that the share `frac` of `pool` makes, rounded down. A share
/// below zero makes none.
pub open spec fn tokens_of(frac: Fixed32, pool: u64) -> u64 {
    if frac.bits <= 0 {
        0
    } else {
        let amount = (frac.bits * pool) / unit32();
        if amount > u64::MAX {
            u64::MAX
        } else {
            amount as u64
        }
    }
}

/// The tokens that each share of `pool` makes.
pub open spec fn token_amounts(fracs: Seq<Fixed32>, pool: u64) -> Seq<u64> {
    Seq::new(fracs.len(), |i: int| tokens_of(fracs[i], pool))
}

/// Each number as a share of 65535.
pub open spec fn proportions(s: Seq<Fixed32>) -> Seq<u16> {
    Seq::new(s.len(), |i: int| s[i].proportion_spec())
}

/// Each value of a row as a share of 65535.
pub open spec fn proportion_row(row: Seq<Entry>) -> Seq<(u16, u16)> {
    Seq::new(row.len(), |k: int| (row[k].0, row[k].1.proportion_spec()))
}

/// The sum of the amounts.
pub open spec fn total(s: Seq<u64>) -> int
    decreases s.len(),
{
    if s.len() == 0 {
        0
    } else {
        total(s.drop_last()) + s.last()
    }
}

/// Who is inactive and who is active in this epoch.
pub fn split_modules_by_activity(
    last_update: &Vec<u64>,
    activity_cutoff: u64,
    current_block: u64,
) -> (r: (Vec<bool>, Vec<bool>))
    ensures
        r.0@ == inactive_flags(last_update@, activity_cutoff, current_block),
        r.1@ == negated(r.0@),
{
    let mut inactive: Vec<bool> = Vec::new();
    let mut active: Vec<bool> = Vec::new();
    let mut i: usize = 0;
    while i < last_update.len()
        invariant
            i <= last_update.len(),
            inactive.len() == i,
            active.len() == i,
            forall|k: int|
                0 <= k < i ==> #[trigger] inactive@[k] == (last_update@[k] + activity_cutoff
                    < current_block),
            forall|k: int| 0 <= k < i ==> #[trigger] active@[k] == !inactive@[k],
        decreases last_update.len() - i,
    {
        let is_inactive = match last_update[i].checked_add(activity_cutoff) {
            Some(end) => end < current_block,
            None => false,
        };
        inactive.push(is_inactive);
        active.push(!is_inactive);
        i += 1;
    }
    assert(inactive@ =~= inactive_flags(last_update@, activity_cutoff, current_block));
    assert(active@ =~= negated(inactive@));
    (inactive, active)
}

/// One row of weights per uid below `n`: the row that the input holds for the
/// uid, with each value as a fixed-point integer.
pub fn prepare_weights(input_weights: &Vec<(u16, Vec<(u16, u16)>)>, n: u16) -> (r: Vec<Vec<Entry>>)
    ensures
        rows_of(r@) == prepared_weights(table_view(input_weights@), n as nat),
{
    let mut out: Vec<Vec<Entry>> = Vec::new();
    let mut uid: u16 = 0;
    while uid < n
        invariant
            uid <= n,
            out.len() == uid,
            forall|k: int|
                0 <= k < uid ==> (#[trigger] out@[k])@ == fixed_row(
                    row_for(table_view(input_weights@), k),
                ),
        decreases n - uid,
    {
        let row = lookup_row(input_weights, uid);
        out.push(to_fixed_row(&row));
        uid += 1;
    }
    assert(rows_of(out@) =~= prepared_weights(table_view(input_weights@), n as nat));
    out
}

/// The weights that count in the epoch.
pub fn compute_weights(
    modules: &FlattenedModules,
    params: &YumaParams,
    weights: Vec<Vec<Entry>>,
) -> (r: Vec<Vec<Entry>>)
    ensures
        rows_of(r@) == counted_weights(
            rows_of(weights@),
            params.max_allowed_validators is Some,
            modules.validator_forbid@,
            modules.last_update@,
            modules.block_at_registration@,
        ),
{
    let mut weights = weights;
    if params.max_allowed_validators.is_some() {
        weights = mask_rows_sparse(&modules.validator_forbid, &weights);
    }
    weights = mask_diag_sparse(&weights);
    weights =
    vec_mask_sparse_matrix(&weights, &modules.last_update, &modules.block_at_registration);
    inplace_row_normalize_sparse(&mut weights);
    weights
}

/// Who may validate from this epoch on.
pub fn compute_permits(stake: &Vec<Fixed32>, max_allowed_validators: Option<u16>) -> (r: Vec<bool>)
    ensures
        r@ == new_permits(stake@, max_allowed_validators),
{
    match max_allowed_validators {
        Some(max) => is_topk(stake, max as usize),
        None => {
            let mut out: Vec<bool> = Vec::new();
            let mut i: usize = 0;
            while i < stake.len()
                invariant
                    i <= stake.len(),
                    out.len() == i,
                    forall|k: int| 0 <= k < i ==> #[trigger] out@[k],
                decreases stake.len() - i,
            {
                out.push(true);
                i += 1;
            }
            assert(out@ =~= new_permits(stake@, max_allowed_validators));
            out
        },
    }
}

/// The stake that takes part in the epoch.
pub fn compute_active_stake(
    modules: &FlattenedModules,
    params: &YumaParams,
    inactive: &Vec<bool>,
    stake: &Vec<Fixed32>,
) -> (r: Vec<Fixed32>)
    ensures
        r@ == active_stake_of(
            stake@,
            inactive@,
            params.max_allowed_validators is Some,
            modules.validator_forbid@,
        ),
{
    let mut active_stake = copy_vec(stake);
    inplace_mask_vector(inactive, &mut active_stake);
    if params.max_allowed_validators.is_some() {
        inplace_mask_vector(&modules.validator_forbid, &mut active_stake);
    }
    inplace_normalize(&mut active_stake);
    active_stake
}

/// The weight of the new bonds in the moving average.
pub fn compute_alpha(bonds_moving_average: u64) -> (r: Fixed32)
    ensures
        r == ema_alpha(bonds_moving_average),
{
    let ratio = Fixed64::saturating_from_u64(bonds_moving_average).div_or_default(
        Fixed64::saturating_from_u64(1_000_000),
    );
    Fixed32::from_u16(1).saturating_sub(Fixed32::saturating_from_fixed64(ratio))
}

/// The tokens that the share `frac` of `pool` makes, rounded down.
pub fn to_tokens(frac: Fixed32, pool: u64) -> (r: u64)
    ensures
        r == tokens_of(frac, pool),
{
    if frac.bits <= 0 {
        return 0;
    }
    let f: u128 = frac.bits as u128;
    let p: u128 = pool as u128;
    assert(f * p <= 0x7fff_ffff_ffff_ffff * 0xffff_ffff_ffff_ffff) by (nonlinear_arith)
        requires
            0 <= f <= 0x7fff_ffff_ffff_ffff,
            0 <= p <= 0xffff_ffff_ffff_ffff,
    ;
    let amount: u128 = (f * p) / 0x1_0000_0000;
    if amount > u64::MAX as u128 {
        u64::MAX
    } else {
        amount as u64
    }
}

/// The tokens that each share of `pool` makes.
pub fn vec_to_tokens(fracs: &Vec<Fixed32>, pool: u64) -> (r: Vec<u64>)
    ensures
        r@ == token_amounts(fracs@, pool),
{
    let mut out: Vec<u64> = Vec::new();
    let mut i: usize = 0;
    while i < fracs.len()
        invariant
            i <= fracs.len(),
            out.len() == i,
            forall|k: int| 0 <= k < i ==> #[trigger] out@[k] == tokens_of(fracs@[k], pool),
        decreases fracs.len() - i,
    {
        out.push(to_tokens(fracs[i], pool));
        i += 1;
    }
    assert(out@ =~= token_amounts(fracs@, pool));
    out
}

/// Each number as a share of 65535.
pub fn vec_to_proportions(s: &Vec<Fixed32>) -> (r: Vec<u16>)
    ensures
        r@ == proportions(s@),
{
    let mut out: Vec<u16> = Vec::new();
    let mut i: usize = 0;
    while i < s.len()
        invariant
            i <= s.len(),
            out.len() == i,
            forall|k: int| 0 <= k < i ==> #[trigger] out@[k] == s@[k].proportion_spec(),
        decreases s.len() - i,
    {
        out.push(s[i].to_proportion());
        i += 1;
    }
    assert(out@ =~= proportions(s@));
    out
}

/// The scores of an epoch before they are scaled for the ledger.
pub struct Epoch {
    pub inactive: Seq<bool>,
    pub stake: Seq<Fixed32>,
    pub permits: Seq<bool>,
    pub active_stake: Seq<Fixed32>,
    /// The rank of each participant before the weights are clipped.
    pub preranks: Seq<Fixed32>,
    pub consensus: Seq<Fixed32>,
    /// The weights that count, clipped to the consensus.
    pub weights: Seq<Seq<Entry>>,
    pub validator_trust: Seq<Fixed32>,
    pub ranks: Seq<Fixed32>,
    pub trust: Seq<Fixed32>,
    pub incentives: Seq<Fixed32>,
    /// The moving average of the bonds, scaled so that the largest bond on
    /// each participant is one.
    pub ema_bonds: Seq<Seq<Entry>>,
    pub dividends: Seq<Fixed32>,
    pub server_shares: Seq<Fixed32>,
    pub validator_shares: Seq<Fixed32>,
    pub combined_shares: Seq<Fixed32>,
}

/// The bonds as the epoch finds them: without those on participants that
/// registered after the bond was last touched, each column normalised.
pub open spec fn prior_bonds(
    bonds: Seq<Seq<Entry>>,
    last_update: Seq<u64>,
    registration: Seq<u64>,
    n: nat,
) -> Seq<Seq<Entry>> {
    col_normalized(filter_map_rows(bonds, newer_than(last_update, registration)), n)
}

/// What the weights of this epoch add to the bonds: each weight times the
/// active stake of its row, each column normalised.
pub open spec fn bonds_delta(weights: Seq<Seq<Entry>>, active_stake: Seq<Fixed32>, n: nat) -> Seq<
    Seq<Entry>,
> {
    col_normalized(filter_map_rows(weights, times_row(active_stake)), n)
}

/// The moving average of the bonds, each column normalised.
pub open spec fn ema_bonds_of(
    delta: Seq<Seq<Entry>>,
    prior: Seq<Seq<Entry>>,
    alpha: Fixed32,
    n: nat,
) -> Seq<Seq<Entry>> {
    col_normalized(mat_ema(delta, prior, alpha), n)
}

/// The sum of incentive and dividends over all participants.
pub open spec fn emission_sum(incentives: Seq<Fixed32>, dividends: Seq<Fixed32>) -> Fixed32 {
    sum32(sums_of(incentives, dividends))
}

/// The stake that stands in for the scores where nobody earned any: the
/// active stake, or all stake where none is active.
pub open spec fn fallback_shares(stake: Seq<Fixed32>, active_stake: Seq<Fixed32>) -> Seq<Fixed32> {
    if all_zero(active_stake) {
        stake
    } else {
        active_stake
    }
}

/// The share of the emission that each participant earns as a server.
pub open spec fn server_shares_of(incentives: Seq<Fixed32>, dividends: Seq<Fixed32>) -> Seq<
    Fixed32,
> {
    normalized_by(incentives, emission_sum(incentives, dividends))
}

/// The share of the emission that each participant earns as a validator.
pub open spec fn validator_shares_of(
    stake: Seq<Fixed32>,
    active_stake: Seq<Fixed32>,
    incentives: Seq<Fixed32>,
    dividends: Seq<Fixed32>,
) -> Seq<Fixed32> {
    if emission_sum(incentives, dividends).bits == 0 {
        fallback_shares(stake, active_stake)
    } else {
        normalized_by(dividends, emission_sum(incentives, dividends))
    }
}

/// The share of the emission that each participant earns in all.
pub open spec fn combined_shares_of(
    stake: Seq<Fixed32>,
    active_stake: Seq<Fixed32>,
    incentives: Seq<Fixed32>,
    dividends: Seq<Fixed32>,
) -> Seq<Fixed32> {
    if emission_sum(incentives, dividends).bits == 0 {
        fallback_shares(stake, active_stake)
    } else {
        normalized(sums_of(incentives, dividends))
    }
}

/// The scores of the epoch that runs on the snapshot `p` with the weights
/// `input`.
pub open spec fn epoch(p: Snapshot, input: Seq<(u16, Seq<(u16, u16)>)>) -> Epoch {
    let mods = p.modules;
    let n = mods.len();
    let restricted = p.max_allowed_validators is Some;
    let last_update = last_updates_of(mods);
    let registration = registrations_of(mods);
    let forbid = forbids_of(mods);
    let inactive = inactive_flags(last_update, p.activity_cutoff, p.current_block);
    let counted = counted_weights(
        prepared_weights(input, n),
        restricted,
        forbid,
        last_update,
        registration,
    );
    let stake = stakes_of(mods);
    let active_stake = active_stake_of(stake, inactive, restricted, forbid);
    let preranks = matmul(counted, active_stake, n);
    let consensus = weighted_median_cols(active_stake, counted, n, p.kappa);
    let weights = filter_map_rows(counted, clipped_to(consensus));
    let ranks = matmul(weights, active_stake, n);
    let incentives = normalized(ranks);
    let ema = ema_bonds_of(
        bonds_delta(weights, active_stake, n),
        prior_bonds(bond_rows_of(mods), last_update, registration, n),
        ema_alpha(p.bonds_moving_average),
        n,
    );
    let dividends = normalized(matmul_transpose(ema, incentives));
    Epoch {
        inactive,
        stake,
        permits: new_permits(stake, p.max_allowed_validators),
        active_stake,
        preranks,
        consensus,
        weights,
        validator_trust: row_sums(weights),
        ranks,
        trust: quotients(ranks, preranks),
        incentives,
        ema_bonds: col_max_upscaled(ema, n),
        dividends,
        server_shares: server_shares_of(incentives, dividends),
        validator_shares: validator_shares_of(stake, active_stake, incentives, dividends),
        combined_shares: combined_shares_of(stake, active_stake, incentives, dividends),
    }
}

/// The consensus of each participant and how far the validators agree with
/// it.
pub struct ConsensusAndTrust {
    pub consensus: Vec<Fixed32>,
    pub validator_trust: Vec<Fixed32>,
    pub preranks: Vec<Fixed32>,
}

/// The moving average of the bonds and the dividends it pays.
pub struct BondsAndDividends {
    pub ema_bonds: Vec<Vec<Entry>>,
    pub dividends: Vec<Fixed32>,
}

/// The rank of each participant and what follows from it.
pub struct IncentivesAndTrust {
    pub incentives: Vec<Fixed32>,
    pub ranks: Vec<Fixed32>,
    pub trust: Vec<Fixed32>,
}

/// The split of the emission.
pub struct Emissions {
    pub pruning_scores: Vec<Fixed32>,
    pub validator_emissions: Vec<u64>,
    pub server_emissions: Vec<u64>,
    pub combined_emissions: Vec<u64>,
}

/// Clips the weights to the consensus of their column: no weight stays above
/// what the majority of the stake gives to its target.
pub fn compute_consensus_and_trust(
    kappa: Fixed32,
    module_count: u16,
    weights: &mut Vec<Vec<Entry>>,
    active_stake: &Vec<Fixed32>,
) -> (r: ConsensusAndTrust)
    ensures
        r.preranks@ == matmul(rows_of(old(weights)@), active_stake@, module_count as nat),
        r.consensus@ == weighted_median_cols(
            active_stake@,
            rows_of(old(weights)@),
            module_count as nat,
            kappa,
        ),
        rows_of(final(weights)@) == filter_map_rows(
            rows_of(old(weights)@),
            clipped_to(r.consensus@),
        ),
        r.validator_trust@ == row_sums(rows_of(final(weights)@)),
{
    let preranks = matmul_sparse(weights, active_stake, module_count);
    let consensus = weighted_median_col_sparse(active_stake, weights, module_count, kappa);
    let clipped = col_clip_sparse(weights, &consensus);
    *weights = clipped;
    let validator_trust = row_sum_sparse(weights);
    ConsensusAndTrust { consensus, validator_trust, preranks }
}

/// The rank of each participant under the clipped weights, the trust that
/// the clipping left it, and its incentive.
pub fn compute_incentive_and_trust(
    module_count: u16,
    weights: &Vec<Vec<Entry>>,
    active_stake: &Vec<Fixed32>,
    preranks: &Vec<Fixed32>,
) -> (r: IncentivesAndTrust)
    ensures
        r.ranks@ == matmul(rows_of(weights@), active_stake@, module_count as nat),
        r.trust@ == quotients(r.ranks@, preranks@),
        r.incentives@ == normalized(r.ranks@),
{
    let ranks = matmul_sparse(weights, active_stake, module_count);
    let trust = vecdiv(&ranks, preranks);
    let mut incentives = copy_vec(&ranks);
    inplace_normalize(&mut incentives);
    IncentivesAndTrust { incentives, ranks, trust }
}

/// The moving average of the bonds and the dividends that the bonds pay. The
/// bonds come back scaled for the ledger.
pub fn compute_bonds_and_dividends(
    params: &YumaParams,
    modules: &FlattenedModules,
    module_count: u16,
    weights: &Vec<Vec<Entry>>,
    active_stake: &Vec<Fixed32>,
    incentives: &Vec<Fixed32>,
) -> (r: BondsAndDividends)
    ensures
        ({
            let n = module_count as nat;
            let ema = ema_bonds_of(
                bonds_delta(rows_of(weights@), active_stake@, n),
                prior_bonds(
                    rows_of(modules.bonds@),
                    modules.last_update@,
                    modules.block_at_registration@,
                    n,
                ),
                ema_alpha(params.bonds_moving_average),
                n,
            );
            &&& r.dividends@ == normalized(matmul_transpose(ema, incentives@))
            &&& rows_of(r.ema_bonds@) == col_max_upscaled(ema, n)
        }),
{
    let mut bonds =
    vec_mask_sparse_matrix(&modules.bonds, &modules.last_update, &modules.block_at_registration);
    inplace_col_normalize_sparse(&mut bonds, module_count);
    let mut delta = row_hadamard_sparse(weights, active_stake);
    inplace_col_normalize_sparse(&mut delta, module_count);
    let alpha = compute_alpha(params.bonds_moving_average);
    let mut ema_bonds = mat_ema_sparse(&delta, &bonds, alpha);
    inplace_col_normalize_sparse(&mut ema_bonds, module_count);
    let mut dividends = matmul_transpose_sparse(&ema_bonds, incentives);
    inplace_normalize(&mut dividends);
    inplace_col_max_upscale_sparse(&mut ema_bonds, module_count);
    BondsAndDividends { ema_bonds, dividends }
}

/// The sum of two vectors, position by position.
pub fn vec_add(a: &Vec<Fixed32>, b: &Vec<Fixed32>) -> (r: Vec<Fixed32>)
    ensures
        r@ == sums_of(a@, b@),
{
    let mut out: Vec<Fixed32> = Vec::new();
    let mut i: usize = 0;
    while i < a.len()
        invariant
            i <= a.len(),
            out.len() == i,
            forall|k: int| 0 <= k < i ==> #[trigger] out@[k] == sums_of(a@, b@)[k],
        decreases a.len() - i,
    {
        let other = if i < b.len() {
            b[i]
        } else {
            Fixed32::from_bits(0)
        };
        out.push(a[i].saturating_add(other));
        i += 1;
    }
    assert(out@ =~= sums_of(a@, b@));
    out
}

/// Splits the emission: servers earn by incentive, validators by dividends.
/// Where nobody earned anything the emission goes by stake.
pub fn compute_emissions(
    token_emission: u64,
    stake: &Vec<Fixed32>,
    active_stake: &Vec<Fixed32>,
    incentives: &Vec<Fixed32>,
    dividends: &Vec<Fixed32>,
) -> (r: Emissions)
    ensures
        r.server_emissions@ == token_amounts(
            server_shares_of(incentives@, dividends@),
            token_emission,
        ),
        r.validator_emissions@ == token_amounts(
            validator_shares_of(stake@, active_stake@, incentives@, dividends@),
            token_emission,
        ),
        r.combined_emissions@ == token_amounts(
            combined_shares_of(stake@, active_stake@, incentives@, dividends@),
            token_emission,
        ),
        r.pruning_scores@ == combined_shares_of(stake@, active_stake@, incentives@, dividends@),
{
    let mut combined = vec_add(incentives, dividends);
    let sum = vec_sum(&combined);
    let mut server = copy_vec(incentives);
    inplace_normalize_using_sum(&mut server, sum);
    let validator: Vec<Fixed32>;
    let pruning: Vec<Fixed32>;
    if sum.bits == 0 {
        if is_zero(active_stake) {
            validator = copy_vec(stake);
            pruning = copy_vec(stake);
        } else {
            validator = copy_vec(active_stake);
            pruning = copy_vec(active_stake);
        }
    } else {
        let mut v = copy_vec(dividends);
        inplace_normalize_using_sum(&mut v, sum);
        validator = v;
        inplace_normalize(&mut combined);
        pruning = combined;
    }
    Emissions {
        validator_emissions: vec_to_tokens(&validator, token_emission),
        server_emissions: vec_to_tokens(&server, token_emission),
        combined_emissions: vec_to_tokens(&pruning, token_emission),
        pruning_scores: pruning,
    }
}

/// Why an epoch was given up.
#[derive(Clone, Copy, Debug, PartialEq, Eq)]
pub enum EmissionError {
    /// More tokens would be handed out than the epoch has.
    EmittedMoreThanExpected { emitted: u64, expected: u64 },
    /// Tokens of a participant were left over.
    HasEmissionRemaining { emitted: u64 },
    /// The participants of the snapshot do not stand at their uids, two of
    /// them stand under one key, or there are more of them than uids.
    ModulesBroken,
}

/// What an epoch gives back to the ledger. Scores are shares of 65535.
#[derive(Debug)]
pub struct ConsensusOutput {
    pub subnet_id: u16,
    pub active: Vec<bool>,
    pub consensus: Vec<u16>,
    pub dividends: Vec<u16>,
    pub combined_emissions: Vec<u64>,
    pub incentives: Vec<u16>,
    pub pruning_scores: Vec<u16>,
    pub ranks: Vec<u16>,
    pub trust: Vec<u16>,
    pub validator_permits: Vec<bool>,
    pub validator_trust: Vec<u16>,
    /// The new bonds of each participant; nothing where the stored bonds
    /// stay as they are.
    pub bonds: Vec<Option<Vec<(u16, u16)>>>,
    pub server_emissions: Vec<u64>,
    pub validator_emissions: Vec<u64>,
    /// The snapshot that the epoch ran on.
    pub params: YumaParams,
}

/// The bonds that go back to the ledger: the moving average for those who
/// may validate; none for those who lost their permit; and the stored bonds
/// untouched for those who had no permit before and have none now.
pub open spec fn stored_bonds(e: Epoch, p: Snapshot) -> Seq<Option<Seq<(u16, u16)>>> {
    Seq::new(
        p.modules.len(),
        |i: int|
            if e.permits[i] {
                Some(proportion_row(e.ema_bonds[i]))
            } else if p.max_allowed_validators is None || p.modules[i].1.validator_permit {
                Some(Seq::<(u16, u16)>::empty())
            } else {
                None
            },
    )
}

/// The rows of a vector of bonds as sequences.
pub open spec fn bond_views(v: Seq<Option<Vec<(u16, u16)>>>) -> Seq<Option<Seq<(u16, u16)>>> {
    Seq::new(
        v.len(),
        |i: int|
            match v[i] {
                Some(row) => Some(row@),
                None => None,
            },
    )
}

/// The tokens that the epoch hands out, servers and validators together.
pub open spec fn emitted(p: Snapshot, e: Epoch) -> int {
    total(token_amounts(e.server_shares, p.token_emission)) + total(
        token_amounts(e.validator_shares, p.token_emission),
    )
}

/// Whether the epoch hands out no more than it has.
pub open spec fn conserves(p: Snapshot, e: Epoch) -> bool {
    emitted(p, e) <= p.token_emission + p.founder_emission
}

/// `x` as a `u64`, or the largest `u64` where `x` is beyond it.
pub open spec fn capped(x: int) -> u64 {
    if x > u64::MAX {
        u64::MAX
    } else if x < 0 {
        0
    } else {
        x as u64
    }
}

impl ConsensusOutput {
    /// Whether this is what the epoch `e` on the snapshot `p` gives back.
    pub open spec fn matches(self, subnet_id: u16, p: Snapshot, e: Epoch) -> bool {
        &&& self.subnet_id == subnet_id
        &&& self.params@ == p
        &&& self.active@ == negated(e.inactive)
        &&& self.consensus@ == proportions(e.consensus)
        &&& self.dividends@ == proportions(e.dividends)
        &&& self.incentives@ == proportions(e.incentives)
        &&& self.ranks@ == proportions(e.ranks)
        &&& self.trust@ == proportions(e.trust)
        &&& self.validator_trust@ == proportions(e.validator_trust)
        &&& self.pruning_scores@ == max_upscaled(e.combined_shares)
        &&& self.validator_permits@ == e.permits
        &&& bond_views(self.bonds@) == stored_bonds(e, p)
        &&& self.server_emissions@ == token_amounts(e.server_shares, p.token_emission)
        &&& self.validator_emissions@ == token_amounts(e.validator_shares, p.token_emission)
        &&& self.combined_emissions@ == token_amounts(e.combined_shares, p.token_emission)
    }
}

/// The sum of the amounts.
pub fn sum_amounts(s: &Vec<u64>) -> (r: u128)
    ensures
        r == total(s@),
        r <= s.len() * 0xffff_ffff_ffff_ffff,
{
    let mut acc: u128 = 0;
    let mut i: usize = 0;
    while i < s.len()
        invariant
            i <= s.len(),
            acc == total(s@.take(i as int)),
            acc <= i * 0xffff_ffff_ffff_ffff,
        decreases s.len() - i,
    {
        assert(s@.take(i + 1).drop_last() =~= s@.take(i as int));
        acc = acc + s[i] as u128;
        i += 1;
    }
    assert(s@.take(s.len() as int) =~= s@);
    acc
}

/// Each value of a row as a share of 65535.
pub fn to_proportion_row(row: &Vec<Entry>) -> (r: Vec<(u16, u16)>)
    ensures
        r@ == proportion_row(row@),
{
    let mut out: Vec<(u16, u16)> = Vec::new();
    let mut k: usize = 0;
    while k < row.len()
        invariant
            k <= row.len(),
            out.len() == k,
            forall|q: int| 0 <= q < k ==> #[trigger] out@[q] == proportion_row(row@)[q],
        decreases row.len() - k,
    {
        out.push((row[k].0, row[k].1.to_proportion()));
        k += 1;
    }
    assert(out@ =~= proportion_row(row@));
    out
}

/// Whether there are no more participants than uids, each stands at its
/// uid, and no two stand under one key.
pub fn modules_at_uids(params: &YumaParams) -> (r: bool)
    ensures
        r == params@.well_formed(),
{
    if params.modules.len() > 65535 {
        return false;
    }
    let mut keys: Vec<ModuleKey> = Vec::new();
    let mut i: usize = 0;
    while i < params.modules.len()
        invariant
            i <= params.modules.len(),
            params.modules.len() <= 65535,
            keys.len() == i,
            forall|k: int| 0 <= k < i ==> #[trigger] keys@[k] == keys_of(params@.modules)[k],
            forall|k: int| 0 <= k < i ==> (#[trigger] params@.modules[k]).1.uid == k,
        decreases params.modules.len() - i,
    {
        assert(params@.modules[i as int] == (
            params.modules@[i as int].0,
            params.modules@[i as int].1@,
        ));
        if params.modules[i].1.uid as usize != i {
            return false;
        }
        keys.push(params.modules[i].0);
        i += 1;
    }
    assert(keys@ =~= keys_of(params@.modules));
    has_distinct_keys(&keys)
}

/// An epoch that is ready to run.
pub struct YumaEpoch {
    subnet_id: u16,
    pub(crate) params: YumaParams,
    modules: FlattenedModules,
}

impl YumaEpoch {
    #[verifier::type_invariant]
    spec fn flattened_in_step(self) -> bool {
        flattened(self.params@.modules, self.modules)
    }

    /// The snapshot that the epoch runs on.
    pub closed spec fn snapshot(self) -> Snapshot {
        self.params@
    }

    /// The subnet that the epoch is run for.
    pub closed spec fn subnet(self) -> u16 {
        self.subnet_id
    }

    /// Makes an epoch ready for the subnet and its snapshot.
    pub fn new(subnet_id: u16, params: YumaParams) -> (r: YumaEpoch)
        ensures
            r.snapshot() == params@,
            r.subnet() == subnet_id,
    {
        let modules = FlattenedModules::from(&params.modules);
        YumaEpoch { subnet_id, params, modules }
    }

    /// Runs the epoch on the given weights, `(uid, row)` pairs of which the
    /// last pair of a uid counts.
    ///
    /// The epoch is given up where the snapshot's participants do not stand
    /// at their uids or two of them stand under one key, and where the
    /// tokens handed out would exceed what the epoch has. Else the scores
    /// come back, and with them the tokens of each participant, which in sum
    /// do not exceed the emission of the participants and the founder. An epoch on a snapshot whose stake is
    /// normalised, with weights that can be summed row by row, is never
    /// given up.
    pub fn run(self, input_weights: Vec<(u16, Vec<(u16, u16)>)>) -> (r: Result<
        ConsensusOutput,
        EmissionError,
    >)
        ensures
            ({
                let p = self.snapshot();
                let e = epoch(p, table_view(input_weights@));
                &&& fit_for_epoch(p, table_view(input_weights@)) ==> r is Ok
                &&& match r {
                    Ok(out) => {
                        &&& p.well_formed()
                        &&& conserves(p, e)
                        &&& out.matches(self.subnet(), p, e)
                        &&& total(out.server_emissions@) + total(out.validator_emissions@)
                            <= p.token_emission + p.founder_emission
                    },
                    Err(err) => if !p.well_formed() {
                        err == EmissionError::ModulesBroken
                    } else {
                        &&& !conserves(p, e)
                        &&& err == EmissionError::EmittedMoreThanExpected {
                            emitted: capped(emitted(p, e)),
                            expected: capped(p.token_emission + p.founder_emission),
                        }
                    },
                }
            }),
    {
        proof {
            use_type_invariant(&self);
            if fit_for_epoch(self.params@, table_view(input_weights@)) {
                lemma_epoch_conserves(self.params@, table_view(input_weights@));
            }
        }
        if !modules_at_uids(&self.params) {
            return Err(EmissionError::ModulesBroken);
        }
        let ghost p = self.params@;
        let ghost e = epoch(p, table_view(input_weights@));
        let n = self.params.modules.len() as u16;
        let weights = prepare_weights(&input_weights, n);
        let (inactive, active) = split_modules_by_activity(
            &self.modules.last_update,
            self.params.activity_cutoff,
            self.params.current_block,
        );
        let mut weights = compute_weights(&self.modules, &self.params, weights);
        let stake = copy_vec(&self.modules.stake_normalized);
        let permits = compute_permits(&stake, self.params.max_allowed_validators);
        let active_stake = compute_active_stake(&self.modules, &self.params, &inactive, &stake);
        let consensus = compute_consensus_and_trust(
            self.params.kappa,
            n,
            &mut weights,
            &active_stake,
        );
        let incentive = compute_incentive_and_trust(
            n,
            &weights,
            &active_stake,
            &consensus.preranks,
        );
        let bonds = compute_bonds_and_dividends(
            &self.params,
            &self.modules,
            n,
            &weights,
            &active_stake,
            &incentive.incentives,
        );
        let emissions = compute_emissions(
            self.params.token_emission,
            &stake,
            &active_stake,
            &incentive.incentives,
            &bonds.dividends,
        );
        assert(emissions.server_emissions@.len() == incentive.incentives@.len());
        assert(emissions.server_emissions@.len() <= 65535);
        assert(emissions.validator_emissions@.len() <= 65535);
        let handed_out: u128 = sum_amounts(&emissions.server_emissions) + sum_amounts(
            &emissions.validator_emissions,
        );
        let expected: u128 = self.params.token_emission as u128
            + self.params.founder_emission as u128;
        if handed_out > expected {
            return Err(
                EmissionError::EmittedMoreThanExpected {
                    emitted: if handed_out > u64::MAX as u128 {
                        u64::MAX
                    } else {
                        handed_out as u64
                    },
                    expected: if expected > u64::MAX as u128 {
                        u64::MAX
                    } else {
                        expected as u64
                    },
                },
            );
        }
        assert(rows_of(weights@).len() == n);
        assert(e.ema_bonds.len() == n);
        assert(rows_of(bonds.ema_bonds@).len() == bonds.ema_bonds@.len());
        let mut stored: Vec<Option<Vec<(u16, u16)>>> = Vec::new();
        let mut i: usize = 0;
        while i < n as usize
            invariant
                i <= n,
                n == self.params.modules@.len(),
                p == self.params@,
                stored.len() == i,
                permits@ == e.permits,
                permits@.len() == n,
                rows_of(bonds.ema_bonds@) == e.ema_bonds,
                bonds.ema_bonds@.len() == n,
                forall|k: int|
                    0 <= k < i ==> #[trigger] bond_views(stored@)[k] == stored_bonds(e, p)[k],
            decreases n - i,
        {
            let ghost before = stored@;
            if permits[i] {
                assert(rows_of(bonds.ema_bonds@)[i as int] == bonds.ema_bonds@[i as int]@);
                stored.push(Some(to_proportion_row(&bonds.ema_bonds[i])));
            } else if self.params.max_allowed_validators.is_none()
                || self.params.modules[i].1.validator_permit {
                stored.push(Some(Vec::new()));
            } else {
                stored.push(None);
            }
            assert forall|k: int| 0 <= k < i + 1 implies #[trigger] bond_views(stored@)[k]
                == stored_bonds(e, p)[k] by {
                if k < i {
                    assert(bond_views(stored@)[k] == bond_views(before)[k]);
                }
            }
            i += 1;
        }
        assert(bond_views(stored@) =~= stored_bonds(e, p));
        Ok(
            ConsensusOutput {
                subnet_id: self.subnet_id,
                active,
                consensus: vec_to_proportions(&consensus.consensus),
                dividends: vec_to_proportions(&bonds.dividends),
                combined_emissions: emissions.combined_emissions,
                incentives: vec_to_proportions(&incentive.incentives),
                pruning_scores: vec_max_upscale_to_u16(&emissions.pruning_scores),
                ranks: vec_to_proportions(&incentive.ranks),
                trust: vec_to_proportions(&incentive.trust),
                validator_permits: permits,
                validator_trust: vec_to_proportions(&consensus.validator_trust),
                bonds: stored,
                server_emissions: emissions.server_emissions,
                validator_emissions: emissions.validator_emissions,
                params: self.params,
            },
        )
    }
}

} // verus!
