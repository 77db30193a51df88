//! Whether copying the consensus pays.
//!
//! A simulated epoch holds a copier: a participant that sets the public
//! consensus as its weights. Over the epochs in which weights stay
//! encrypted the dividends of the copier and those of an average delegator
//! are added up. Once the copier earns no more than the delegator plus a
//! margin, or the weights have been withheld for the longest time allowed,
//! the weights may be revealed.
use crate::distribute::Percent;
use crate::fixed::Fixed64;
use crate::params::{ModuleKey, ModuleView, YumaParams};
use crate::yuma::ConsensusOutput;
use vstd::prelude::*;

verus! {

/// What the simulations of a subnet have added up so far.
#[derive(Clone, Copy, Debug, PartialEq, Eq, Structural)]
pub struct ConsensusSimulationResult {
    pub cumulative_copier_divs: Fixed64,
    pub cumulative_avg_delegate_divs: Fixed64,
    /// How much more than a delegator the copier may earn.
    pub copier_margin: Fixed64,
    /// For how many blocks the weights have been withheld.
    pub black_box_age: u64,
    /// For how many blocks weights may be withheld at most.
    pub max_encryption_period: u64,
}

/// The answer of a simulation: whether to reveal the weights, and by how
/// much the copier missed or beat the delegator.
#[derive(Clone, Copy, Debug, PartialEq, Eq, Structural)]
pub struct ShouldDecryptResult {
    pub should_decrypt: bool,
    pub simulation_result: ConsensusSimulationResult,
    pub delta: Fixed64,
}

impl ConsensusSimulationResult {
    /// Nothing added up yet.
    pub open spec fn empty() -> ConsensusSimulationResult {
        ConsensusSimulationResult {
            cumulative_copier_divs: Fixed64::zero(),
            cumulative_avg_delegate_divs: Fixed64::zero(),
            copier_margin: Fixed64::zero(),
            black_box_age: 0,
            max_encryption_period: 0,
        }
    }
}

impl Default for ConsensusSimulationResult {
    fn default() -> (r: ConsensusSimulationResult)
        ensures
            r == ConsensusSimulationResult::empty(),
    {
        ConsensusSimulationResult {
            cumulative_copier_divs: Fixed64::from_bits(0),
            cumulative_avg_delegate_divs: Fixed64::from_bits(0),
            copier_margin: Fixed64::from_bits(0),
            black_box_age: 0,
            max_encryption_period: 0,
        }
    }
}

impl ShouldDecryptResult {
    /// No decision, and nothing added up.
    pub open spec fn empty() -> ShouldDecryptResult {
        ShouldDecryptResult {
            should_decrypt: false,
            simulation_result: ConsensusSimulationResult::empty(),
            delta: Fixed64::zero(),
        }
    }
}

impl Default for ShouldDecryptResult {
    fn default() -> (r: ShouldDecryptResult)
        ensures
            r == ShouldDecryptResult::empty(),
    {
        ShouldDecryptResult {
            should_decrypt: false,
            simulation_result: ConsensusSimulationResult::default(),
            delta: Fixed64::from_bits(0),
        }
    }
}

/// What the copier has to stay at or below for copying not to pay: the
/// dividends of the average delegator, raised by the margin.
pub open spec fn copier_threshold(s: ConsensusSimulationResult) -> Fixed64 {
    Fixed64::one().add_spec(s.copier_margin).mul_spec(s.cumulative_avg_delegate_divs)
}

/// By how much the copier's dividends exceed the threshold.
pub open spec fn copier_delta(s: ConsensusSimulationResult) -> Fixed64 {
    s.cumulative_copier_divs.sub_spec(copier_threshold(s))
}

/// Whether copying is irrational, and the difference that shows it. Once the
/// weights have been withheld for the longest time allowed, copying counts
/// as irrational whatever the dividends are, and the difference as zero.
pub open spec fn copying_irrational(s: ConsensusSimulationResult) -> (bool, Fixed64) {
    if s.black_box_age >= s.max_encryption_period {
        (true, Fixed64::zero())
    } else {
        (copier_delta(s).bits <= 0, copier_delta(s))
    }
}

/// Whether copying the consensus is irrational: the copier has earned no
/// more than the threshold, or the time for which weights may be withheld
/// has run out. With the answer comes the copier's lead over the threshold.
pub fn is_copying_irrational(simulation_result: ConsensusSimulationResult) -> (r: (bool, Fixed64))
    ensures
        r == copying_irrational(simulation_result),
        simulation_result.black_box_age >= simulation_result.max_encryption_period ==> r.0,
{
    if simulation_result.black_box_age >= simulation_result.max_encryption_period {
        return (true, Fixed64::from_bits(0));
    }
    let one = Fixed64::saturating_from_u64(1);
    let threshold = one.saturating_add(simulation_result.copier_margin).saturating_mul(
        simulation_result.cumulative_avg_delegate_divs,
    );
    let delta = simulation_result.cumulative_copier_divs.saturating_sub(threshold);
    (delta.bits <= 0, delta)
}

/// Once the weights have been withheld for the longest time allowed,
/// copying counts as irrational whatever dividends were added up.
pub proof fn lemma_expired_window_forces_decryption(s: ConsensusSimulationResult)
    requires
        s.black_box_age >= s.max_encryption_period,
    ensures
        copying_irrational(s).0,
{
}

/// The stake in tokens of the first participant with uid `uid`, and zero
/// where there is none.
pub open spec fn stake_of_uid(mods: Seq<(ModuleKey, ModuleView)>, uid: int) -> u64
    decreases mods.len(),
{
    if mods.len() == 0 {
        0
    } else if mods[0].1.uid == uid {
        mods[0].1.stake_original.floor_u64()
    } else {
        stake_of_uid(mods.skip(1), uid)
    }
}

/// The stake in tokens of the participant with uid `uid`.
pub fn get_params_uid_deleg_stake(params: &YumaParams, uid: u16) -> (r: u64)
    ensures
        r == stake_of_uid(params@.modules, uid as int),
{
    let ghost mods = params@.modules;
    let mut k: usize = 0;
    assert(mods.skip(0) =~= mods);
    while k < params.modules.len()
        invariant
            k <= params.modules.len(),
            mods == params@.modules,
            stake_of_uid(mods, uid as int) == stake_of_uid(mods.skip(k as int), uid as int),
        decreases params.modules.len() - k,
    {
        assert(mods.skip(k as int).skip(1) =~= mods.skip(k + 1));
        if params.modules[k].1.uid == uid {
            return params.modules[k].1.stake_original.saturating_to_u64();
        }
        k += 1;
    }
    0
}

/// Whether position `i` counts for the average delegator: it is not the
/// copier's and has dividends.
pub open spec fn counts_as_delegate(dividends: Seq<u16>, copier_uid: u16, i: int) -> bool {
    i != copier_uid && dividends[i] != 0
}

/// The stake of the first `upto` participants that count for the average
/// delegator.
pub open spec fn delegate_stake(
    mods: Seq<(ModuleKey, ModuleView)>,
    dividends: Seq<u16>,
    copier_uid: u16,
    upto: int,
) -> Fixed64
    decreases upto,
{
    if upto <= 0 {
        Fixed64::zero()
    } else {
        let before = delegate_stake(mods, dividends, copier_uid, upto - 1);
        if counts_as_delegate(dividends, copier_uid, upto - 1) {
            before.add_spec(
                Fixed64::of_u64(
                    if upto - 1 <= u16::MAX {
                        stake_of_uid(mods, upto - 1)
                    } else {
                        0
                    },
                ),
            )
        } else {
            before
        }
    }
}

/// The dividends of the first `upto` participants that count for the
/// average delegator.
pub open spec fn delegate_dividends(dividends: Seq<u16>, copier_uid: u16, upto: int) -> Fixed64
    decreases upto,
{
    if upto <= 0 {
        Fixed64::zero()
    } else {
        let before = delegate_dividends(dividends, copier_uid, upto - 1);
        if counts_as_delegate(dividends, copier_uid, upto - 1) {
            before.add_spec(Fixed64::of_u64(dividends[upto - 1] as u64))
        } else {
            before
        }
    }
}

/// The share of dividends that a delegator keeps after the fee.
pub open spec fn fee_factor(fee: Percent) -> Fixed64 {
    Fixed64::of_u64(100).sub_spec(Fixed64::of_u64(fee.parts() as u64)).div_or_zero(
        Fixed64::of_u64(100),
    )
}

/// What a delegator with the copier's stake earns on average: the dividends
/// per token of stake of all who earned any, the copier left out, less the
/// fee, times the copier's stake. There is no average where nobody but the
/// copier earned dividends on stake.
pub open spec fn avg_delegate_divs(
    mods: Seq<(ModuleKey, ModuleView)>,
    dividends: Seq<u16>,
    copier_uid: u16,
    fee: Percent,
) -> Option<Fixed64> {
    let total_stake = delegate_stake(mods, dividends, copier_uid, dividends.len() as int);
    let total_dividends = delegate_dividends(dividends, copier_uid, dividends.len() as int);
    match total_dividends.div_spec(total_stake) {
        None => None,
        Some(average) => Some(
            average.mul_spec(fee_factor(fee)).mul_spec(
                Fixed64::of_u64(stake_of_uid(mods, copier_uid as int)),
            ),
        ),
    }
}

/// What a delegator with the copier's stake earns on average in the epoch.
pub fn calculate_avg_delegate_divs(
    yuma_output: &ConsensusOutput,
    copier_uid: u16,
    delegation_fee: Percent,
) -> (r: Option<Fixed64>)
    ensures
        r == avg_delegate_divs(
            yuma_output.params@.modules,
            yuma_output.dividends@,
            copier_uid,
            delegation_fee,
        ),
{
    let hundred = Fixed64::saturating_from_u64(100);
    let factor = hundred.saturating_sub(
        Fixed64::saturating_from_u64(delegation_fee.deconstruct() as u64),
    ).div_or_default(hundred);
    let dividends = &yuma_output.dividends;
    let mut total_stake = Fixed64::from_bits(0);
    let mut total_dividends = Fixed64::from_bits(0);
    let mut i: usize = 0;
    while i < dividends.len()
        invariant
            i <= dividends.len(),
            total_stake == delegate_stake(
                yuma_output.params@.modules,
                dividends@,
                copier_uid,
                i as int,
            ),
            total_dividends == delegate_dividends(dividends@, copier_uid, i as int),
        decreases dividends.len() - i,
    {
        if i != copier_uid as usize && dividends[i] != 0 {
            let stake: u64 = if i <= 65535 {
                get_params_uid_deleg_stake(&yuma_output.params, i as u16)
            } else {
                0
            };
            total_stake = total_stake.saturating_add(Fixed64::saturating_from_u64(stake));
            total_dividends = total_dividends.saturating_add(
                Fixed64::saturating_from_u64(dividends[i] as u64),
            );
        }
        i += 1;
    }
    match total_dividends.checked_div(total_stake) {
        None => None,
        Some(average) => {
            let copier_stake = Fixed64::saturating_from_u64(
                get_params_uid_deleg_stake(&yuma_output.params, copier_uid),
            );
            Some(average.saturating_mul(factor).saturating_mul(copier_stake))
        },
    }
}

/// The dividends that the epoch gave the copier, and zero where the copier
/// has no place in it.
pub open spec fn copier_divs(dividends: Seq<u16>, copier_uid: u16) -> Fixed64 {
    if copier_uid < dividends.len() {
        Fixed64::of_u64(dividends[copier_uid as int] as u64)
    } else {
        Fixed64::zero()
    }
}

/// The sums after one more simulated epoch.
pub open spec fn updated(
    s: ConsensusSimulationResult,
    mods: Seq<(ModuleKey, ModuleView)>,
    dividends: Seq<u16>,
    tempo: u16,
    copier_uid: u16,
    delegation_fee: Percent,
    max_encryption_period: u64,
    copier_margin: Fixed64,
) -> ConsensusSimulationResult {
    let avg = match avg_delegate_divs(mods, dividends, copier_uid, delegation_fee) {
        Some(a) => a,
        None => Fixed64::zero(),
    };
    ConsensusSimulationResult {
        cumulative_copier_divs: s.cumulative_copier_divs.add_spec(
            copier_divs(dividends, copier_uid),
        ),
        cumulative_avg_delegate_divs: s.cumulative_avg_delegate_divs.add_spec(avg),
        copier_margin,
        black_box_age: if s.black_box_age + tempo > u64::MAX {
            u64::MAX
        } else {
            (s.black_box_age + tempo) as u64
        },
        max_encryption_period,
    }
}

impl ConsensusSimulationResult {
    /// Adds the dividends of one more simulated epoch to the sums, lets the
    /// age of the withheld weights grow by the epoch's length, and takes
    /// over the subnet's current margin and longest encryption period.
    pub fn update(
        &mut self,
        yuma_output: &ConsensusOutput,
        tempo: u16,
        copier_uid: u16,
        delegation_fee: Percent,
        max_encryption_period: u64,
        copier_margin: Fixed64,
    )
        ensures
            *final(self) == updated(
                *old(self),
                yuma_output.params@.modules,
                yuma_output.dividends@,
                tempo,
                copier_uid,
                delegation_fee,
                max_encryption_period,
                copier_margin,
            ),
    {
        let avg = match calculate_avg_delegate_divs(yuma_output, copier_uid, delegation_fee) {
            Some(a) => a,
            None => Fixed64::from_bits(0),
        };
        let copier = if (copier_uid as usize) < yuma_output.dividends.len() {
            Fixed64::saturating_from_u64(yuma_output.dividends[copier_uid as usize] as u64)
        } else {
            Fixed64::from_bits(0)
        };
        self.cumulative_copier_divs = self.cumulative_copier_divs.saturating_add(copier);
        self.cumulative_avg_delegate_divs = self.cumulative_avg_delegate_divs.saturating_add(avg);
        self.black_box_age = self.black_box_age.saturating_add(tempo as u64);
        self.max_encryption_period = max_encryption_period;
        self.copier_margin = copier_margin;
    }
}

/// The share of the validators' stake that a copier is measured against
/// where the ledger names no other: five percent.
#[allow(non_snake_case)]
pub fn DefaultMeasuredStakeAmount() -> (r: Percent)
    ensures
        r.parts() == 5,
{
    Percent::from_percent(5)
}

/// The stake in tokens of the participants whose uid one of the first
/// `upto` flags marks as active. A flag beyond the last uid that there can
/// be, or for a uid that no participant has, adds nothing.
pub open spec fn flagged_stake(mods: Seq<(ModuleKey, ModuleView)>, active: Seq<bool>, upto: int)
    -> int
    decreases upto,
{
    if upto <= 0 {
        0
    } else {
        flagged_stake(mods, active, upto - 1) + if active[upto - 1] && upto - 1 <= u16::MAX {
            stake_of_uid(mods, upto - 1) as int
        } else {
            0
        }
    }
}

/// The stake that the copier is given: that of all participants that are
/// flagged as active, in whole tokens, or the largest amount that there is
/// where the sum is beyond it.
pub open spec fn copier_stake(mods: Seq<(ModuleKey, ModuleView)>, active: Seq<bool>) -> u64 {
    let sum = flagged_stake(mods, active, active.len() as int);
    if sum > u64::MAX {
        u64::MAX
    } else {
        sum as u64
    }
}

/// The stake that the copier is given: the stake of all participants of the
/// snapshot that `active` flags, by uid.
pub fn get_copier_stake(runtime_yuma_params: &YumaParams, active: &Vec<bool>) -> (r: u64)
    ensures
        r == copier_stake(runtime_yuma_params@.modules, active@),
{
    let mut sum: u128 = 0;
    let mut i: usize = 0;
    while i < active.len()
        invariant
            i <= active.len(),
            sum == flagged_stake(runtime_yuma_params@.modules, active@, i as int),
            sum <= i * 0xffff_ffff_ffff_ffff,
        decreases active.len() - i,
    {
        if active[i] && i <= 65535 {
            sum = sum + get_params_uid_deleg_stake(runtime_yuma_params, i as u16) as u128;
        }
        i += 1;
    }
    if sum > u64::MAX as u128 {
        u64::MAX
    } else {
        sum as u64
    }
}

} // verus!
