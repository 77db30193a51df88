//! The distribution of a participant's emission to the accounts that hold
//! stake in it.
//!
//! Of the validator emission each delegator gets its share of the stake,
//! less the fee that the participant keeps. What is left, and the server
//! emission, goes to the participant's profit-share accounts where it has
//! any, else to the participant itself. Every token of a participant's
//! emission is handed out, and no more tokens than the epoch has.
use crate::fixed::Fixed64;
use crate::params::{AccountKey, ModuleKey};
use crate::yuma::{capped, EmissionError};
use vstd::prelude::*;

verus! {

/// `Percent::mul_floor` on a `u64`: the share of `x` that `parts` hundredths
/// make, rounded down.
#[verifier::external_body]
fn percent_mul_floor(parts: u8, x: u64) -> (r: u64)
    requires
        parts <= 100,
    ensures
        r == (x * parts) / 100,
{
    sp_runtime::Percent::from_parts(parts).mul_floor(x)
}

/// A share of a hundred.
#[derive(Clone, Copy, Debug, PartialEq, Eq)]
pub struct Percent {
    parts: u8,
}

impl Percent {
    #[verifier::type_invariant]
    spec fn at_most_all(self) -> bool {
        self.parts <= 100
    }

    /// The number of hundredths.
    pub closed spec fn parts(self) -> nat {
        self.parts as nat
    }

    /// `x` percent, and a hundred percent where `x` is above a hundred.
    pub fn from_percent(x: u8) -> (r: Percent)
        ensures
            r.parts() == (if x > 100 {
                100
            } else {
                x as nat
            }),
    {
        if x > 100 {
            Percent { parts: 100 }
        } else {
            Percent { parts: x }
        }
    }

    /// The number of hundredths.
    pub fn deconstruct(self) -> (r: u8)
        ensures
            r == self.parts(),
            r <= 100,
    {
        proof {
            use_type_invariant(&self);
        }
        self.parts
    }

    /// This share of `x`, rounded down.
    pub open spec fn mul_floor_spec(self, x: u64) -> u64 {
        ((x * self.parts()) / 100) as u64
    }

    /// This share of `x`, rounded down.
    pub fn mul_floor(self, x: u64) -> (r: u64)
        ensures
            r == self.mul_floor_spec(x),
            r <= x,
    {
        proof {
            use_type_invariant(&self);
        }
        assert((x * self.parts) / 100 <= x) by (nonlinear_arith)
            requires
                0 <= self.parts <= 100,
                0 <= x,
        ;
        percent_mul_floor(self.parts, x)
    }
}

/// An amount by which the stake of `account_key` in the participant
/// `module_key` grows.
#[derive(Clone, Copy, Debug, PartialEq, Eq)]
pub struct StakeIncrease {
    pub module_key: ModuleKey,
    pub account_key: AccountKey,
    pub amount: u64,
}

/// What the ledger holds of a participant for the distribution.
#[derive(Debug)]
pub struct ModuleStakeInfo {
    /// Who holds stake in the participant, each with its share of that stake.
    pub ownership: Vec<(AccountKey, Fixed64)>,
    /// The fee that the participant keeps of what its delegators earn.
    pub delegation_fee: Percent,
    /// The split among the participant's profit-share accounts of what is
    /// left after the delegators; empty where it has no such accounts.
    pub profit_share_emissions: Vec<(AccountKey, u64)>,
}

/// What a delegator with the share `ratio` gets of the validator emission
/// `total`: its share, rounded down, less the fee, rounded down.
pub open spec fn delegate_amount(total: u64, ratio: Fixed64, fee: Percent) -> u64 {
    let dividends = Fixed64::of_u64(total).mul_spec(ratio).floor_u64();
    (dividends - fee.mul_floor_spec(dividends)) as u64
}

/// What the delegators of a participant get, in the order of the ownership
/// list. The participant's own stake gets nothing here.
pub open spec fn delegate_increases(
    module_key: ModuleKey,
    ownership: Seq<(AccountKey, Fixed64)>,
    total: u64,
    fee: Percent,
) -> Seq<StakeIncrease>
    decreases ownership.len(),
{
    if ownership.len() == 0 {
        Seq::empty()
    } else {
        let rest = delegate_increases(module_key, ownership.drop_last(), total, fee);
        let (account_key, ratio) = ownership.last();
        if account_key.0@ == module_key.0@ {
            rest
        } else {
            rest.push(
                StakeIncrease {
                    module_key,
                    account_key,
                    amount: delegate_amount(total, ratio, fee),
                },
            )
        }
    }
}

/// The sum of the amounts.
pub open spec fn increase_total(incs: Seq<StakeIncrease>) -> int
    decreases incs.len(),
{
    if incs.len() == 0 {
        0
    } else {
        increase_total(incs.drop_last()) + incs.last().amount
    }
}

/// The sum of the amounts of a split.
pub open spec fn share_total(shares: Seq<(AccountKey, u64)>) -> int
    decreases shares.len(),
{
    if shares.len() == 0 {
        0
    } else {
        share_total(shares.drop_last()) + shares.last().1
    }
}

/// The amounts of a split as increases of stake in the participant.
pub open spec fn share_increases(module_key: ModuleKey, shares: Seq<(AccountKey, u64)>) -> Seq<
    StakeIncrease,
> {
    Seq::new(
        shares.len(),
        |k: int| StakeIncrease { module_key, account_key: shares[k].0, amount: shares[k].1 },
    )
}

/// The server emission of a participant, with the founder's emission on top
/// where the participant is the founder.
pub open spec fn with_founder(
    module_key: ModuleKey,
    founder_key: AccountKey,
    founder_emission: u64,
    server_emission: u64,
) -> u64 {
    if founder_key.0@ == module_key.0@ {
        capped(server_emission + founder_emission)
    } else {
        server_emission
    }
}

/// What the delegators of a participant get of its validator emission.
pub open spec fn delegates_paid(
    module_key: ModuleKey,
    validator_emission: u64,
    info: ModuleStakeInfo,
) -> Seq<StakeIncrease> {
    if validator_emission > 0 {
        delegate_increases(module_key, info.ownership@, validator_emission, info.delegation_fee)
    } else {
        Seq::empty()
    }
}

/// What is left of a participant's emission after its delegators: the server
/// emission and the validator emission that no delegator got. There is none
/// where the delegators would get more than the validator emission, or where
/// the sum is beyond `u64`.
pub open spec fn remaining_emission(
    module_key: ModuleKey,
    founder_key: AccountKey,
    founder_emission: u64,
    server_emission: u64,
    validator_emission: u64,
    info: ModuleStakeInfo,
) -> Result<u64, EmissionError> {
    let paid = increase_total(delegates_paid(module_key, validator_emission, info));
    let server = with_founder(module_key, founder_key, founder_emission, server_emission);
    if paid > validator_emission {
        Err(
            EmissionError::EmittedMoreThanExpected {
                emitted: capped(paid),
                expected: validator_emission,
            },
        )
    } else if server + validator_emission - paid > u64::MAX {
        Err(
            EmissionError::EmittedMoreThanExpected {
                emitted: capped(server + validator_emission),
                expected: u64::MAX,
            },
        )
    } else {
        Ok((server + validator_emission - paid) as u64)
    }
}

/// The increases of stake that a participant's emission makes, or why it
/// cannot be handed out: the delegators would get more than the validator
/// emission, or the profit-share accounts more or less than what is left.
pub open spec fn module_outcome(
    module_key: ModuleKey,
    founder_key: AccountKey,
    founder_emission: u64,
    server_emission: u64,
    validator_emission: u64,
    info: ModuleStakeInfo,
) -> Result<Seq<StakeIncrease>, EmissionError> {
    let delegates = delegates_paid(module_key, validator_emission, info);
    match remaining_emission(
        module_key,
        founder_key,
        founder_emission,
        server_emission,
        validator_emission,
        info,
    ) {
        Err(e) => Err(e),
        Ok(remaining) => {
            let shares = info.profit_share_emissions@;
            if remaining == 0 {
                Ok(delegates)
            } else if shares.len() == 0 {
                Ok(
                    delegates.push(
                        StakeIncrease {
                            module_key,
                            account_key: AccountKey(module_key.0),
                            amount: remaining,
                        },
                    ),
                )
            } else if share_total(shares) > remaining {
                Err(
                    EmissionError::EmittedMoreThanExpected {
                        emitted: capped(share_total(shares)),
                        expected: remaining,
                    },
                )
            } else if share_total(shares) < remaining {
                Err(EmissionError::HasEmissionRemaining { emitted: capped(share_total(shares)) })
            } else {
                Ok(delegates + share_increases(module_key, shares))
            }
        },
    }
}

/// The increases of stake that the emissions of the first `upto`
/// participants make, or the reason why the first of them that fails does.
pub open spec fn outcomes(
    founder_key: AccountKey,
    founder_emission: u64,
    result: Seq<(ModuleKey, u64, u64)>,
    infos: Seq<ModuleStakeInfo>,
    upto: int,
) -> Result<Seq<StakeIncrease>, EmissionError>
    decreases upto,
{
    if upto <= 0 {
        Ok(Seq::empty())
    } else {
        match outcomes(founder_key, founder_emission, result, infos, upto - 1) {
            Err(e) => Err(e),
            Ok(before) => match module_outcome(
                result[upto - 1].0,
                founder_key,
                founder_emission,
                result[upto - 1].1,
                result[upto - 1].2,
                infos[upto - 1],
            ) {
                Err(e) => Err(e),
                Ok(incs) => Ok(before + incs),
            },
        }
    }
}

/// The increases of stake that an epoch's emissions make, or why the
/// distribution is given up: the ledger's entries do not match the
/// participants, a participant's emission cannot be handed out exactly, or
/// more would be handed out than the epoch has.
pub open spec fn distribution(
    founder_key: AccountKey,
    founder_emission: u64,
    to_be_emitted: u64,
    result: Seq<(ModuleKey, u64, u64)>,
    infos: Seq<ModuleStakeInfo>,
) -> Result<Seq<StakeIncrease>, EmissionError> {
    if result.len() != infos.len() {
        Err(EmissionError::ModulesBroken)
    } else {
        match outcomes(founder_key, founder_emission, result, infos, result.len() as int) {
            Err(e) => Err(e),
            Ok(incs) => if increase_total(incs) > founder_emission + to_be_emitted {
                Err(
                    EmissionError::EmittedMoreThanExpected {
                        emitted: capped(increase_total(incs)),
                        expected: capped(founder_emission + to_be_emitted),
                    },
                )
            } else {
                Ok(incs)
            },
        }
    }
}

pub proof fn lemma_increase_total_concat(a: Seq<StakeIncrease>, b: Seq<StakeIncrease>)
    ensures
        increase_total(a + b) == increase_total(a) + increase_total(b),
    decreases b.len(),
{
    if b.len() == 0 {
        assert(a + b =~= a);
    } else {
        lemma_increase_total_concat(a, b.drop_last());
        assert((a + b).drop_last() =~= a + b.drop_last());
        assert((a + b).last() == b.last());
    }
}

pub proof fn lemma_share_increases_total(module_key: ModuleKey, shares: Seq<(AccountKey, u64)>)
    ensures
        increase_total(share_increases(module_key, shares)) == share_total(shares),
    decreases shares.len(),
{
    if shares.len() > 0 {
        lemma_share_increases_total(module_key, shares.drop_last());
        assert(share_increases(module_key, shares).drop_last() =~= share_increases(
            module_key,
            shares.drop_last(),
        ));
    }
}

/// Every token of a participant's emission is handed out: where the
/// emission can be distributed, the increases of stake sum to the server
/// emission, with the founder's emission where the participant is the
/// founder, plus the validator emission.
pub proof fn lemma_module_emission_exhausted(
    module_key: ModuleKey,
    founder_key: AccountKey,
    founder_emission: u64,
    server_emission: u64,
    validator_emission: u64,
    info: ModuleStakeInfo,
)
    ensures
        match module_outcome(
            module_key,
            founder_key,
            founder_emission,
            server_emission,
            validator_emission,
            info,
        ) {
            Ok(incs) => increase_total(incs) == with_founder(
                module_key,
                founder_key,
                founder_emission,
                server_emission,
            ) + validator_emission,
            Err(_) => true,
        },
{
    let delegates = delegates_paid(module_key, validator_emission, info);
    let shares = info.profit_share_emissions@;
    lemma_increase_total_concat(delegates, share_increases(module_key, shares));
    lemma_share_increases_total(module_key, shares);
    match remaining_emission(
        module_key,
        founder_key,
        founder_emission,
        server_emission,
        validator_emission,
        info,
    ) {
        Ok(remaining) => {
            let own = StakeIncrease {
                module_key,
                account_key: AccountKey(module_key.0),
                amount: remaining,
            };
            assert(delegates.push(own).drop_last() =~= delegates);
        },
        Err(_) => {},
    }
}

proof fn lemma_outcomes_fail(
    founder_key: AccountKey,
    founder_emission: u64,
    result: Seq<(ModuleKey, u64, u64)>,
    infos: Seq<ModuleStakeInfo>,
    at: int,
    upto: int,
)
    requires
        0 <= at <= upto,
        outcomes(founder_key, founder_emission, result, infos, at) is Err,
    ensures
        outcomes(founder_key, founder_emission, result, infos, upto) == outcomes(
            founder_key,
            founder_emission,
            result,
            infos,
            at,
        ),
    decreases upto - at,
{
    if at < upto {
        lemma_outcomes_fail(founder_key, founder_emission, result, infos, at, upto - 1);
    }
}

proof fn lemma_increase_total_bound(incs: Seq<StakeIncrease>)
    ensures
        0 <= increase_total(incs) <= incs.len() * 0xffff_ffff_ffff_ffff,
    decreases incs.len(),
{
    if incs.len() > 0 {
        lemma_increase_total_bound(incs.drop_last());
    }
}

/// `x` as a `u64`, or the largest `u64` where `x` is beyond it.
fn cap(x: u128) -> (r: u64)
    ensures
        r == capped(x as int),
{
    if x > u64::MAX as u128 {
        u64::MAX
    } else {
        x as u64
    }
}

/// What the delegators of a participant get of the validator emission
/// `total`, and the sum of it.
fn pay_delegates(
    module_key: &ModuleKey,
    ownership: &Vec<(AccountKey, Fixed64)>,
    total: u64,
    fee: Percent,
) -> (r: (Vec<StakeIncrease>, u128))
    ensures
        r.0@ == delegate_increases(*module_key, ownership@, total, fee),
        r.1 == increase_total(r.0@),
{
    let total_validator_emission = Fixed64::saturating_from_u64(total);
    let mut out: Vec<StakeIncrease> = Vec::new();
    let mut paid: u128 = 0;
    let mut k: usize = 0;
    while k < ownership.len()
        invariant
            k <= ownership.len(),
            total_validator_emission == Fixed64::of_u64(total),
            out@ == delegate_increases(*module_key, ownership@.take(k as int), total, fee),
            paid == increase_total(out@),
            out.len() <= k,
        decreases ownership.len() - k,
    {
        proof {
            assert(ownership@.take(k + 1).drop_last() =~= ownership@.take(k as int));
            lemma_increase_total_bound(out@);
        }
        let account_key = ownership[k].0;
        let ratio = ownership[k].1;
        if !account_key.is_module(module_key) {
            let dividends = total_validator_emission.saturating_mul(ratio).saturating_to_u64();
            let to_module = fee.mul_floor(dividends);
            let to_delegate = dividends - to_module;
            let ghost before = out@;
            out.push(StakeIncrease { module_key: *module_key, account_key, amount: to_delegate });
            assert(out@.drop_last() =~= before);
            paid = paid + to_delegate as u128;
        }
        k += 1;
    }
    assert(ownership@.take(ownership.len() as int) =~= ownership@);
    (out, paid)
}

/// The server emission with the founder's emission on top where the
/// participant is the founder.
fn add_founder_emission(
    module_key: &ModuleKey,
    founder_key: &AccountKey,
    founder_emission: u64,
    server_emission: u64,
) -> (r: u64)
    ensures
        r == with_founder(*module_key, *founder_key, founder_emission, server_emission),
{
    if founder_key.is_module(module_key) {
        server_emission.saturating_add(founder_emission)
    } else {
        server_emission
    }
}

/// What is left of a participant's emission after its delegators. This is
/// the amount that the ledger splits among the participant's profit-share
/// accounts.
pub fn remaining_after_delegates(
    module_key: &ModuleKey,
    founder_key: &AccountKey,
    founder_emission: u64,
    server_emission: u64,
    validator_emission: u64,
    info: &ModuleStakeInfo,
) -> (r: Result<u64, EmissionError>)
    ensures
        r == remaining_emission(
            *module_key,
            *founder_key,
            founder_emission,
            server_emission,
            validator_emission,
            *info,
        ),
{
    let server = add_founder_emission(module_key, founder_key, founder_emission, server_emission);
    let paid: u128 = if validator_emission > 0 {
        pay_delegates(module_key, &info.ownership, validator_emission, info.delegation_fee).1
    } else {
        0
    };
    if paid > validator_emission as u128 {
        return Err(
            EmissionError::EmittedMoreThanExpected {
                emitted: cap(paid),
                expected: validator_emission,
            },
        );
    }
    let left: u128 = server as u128 + (validator_emission as u128 - paid);
    if left > u64::MAX as u128 {
        return Err(
            EmissionError::EmittedMoreThanExpected {
                emitted: cap(server as u128 + validator_emission as u128),
                expected: u64::MAX,
            },
        );
    }
    Ok(left as u64)
}

/// The sum of the amounts of a split.
fn sum_shares(shares: &Vec<(AccountKey, u64)>) -> (r: u128)
    ensures
        r == share_total(shares@),
{
    let mut acc: u128 = 0;
    let mut k: usize = 0;
    while k < shares.len()
        invariant
            k <= shares.len(),
            acc == share_total(shares@.take(k as int)),
            acc <= k * 0xffff_ffff_ffff_ffff,
        decreases shares.len() - k,
    {
        assert(shares@.take(k + 1).drop_last() =~= shares@.take(k as int));
        acc = acc + shares[k].1 as u128;
        k += 1;
    }
    assert(shares@.take(shares.len() as int) =~= shares@);
    acc
}

/// Hands out the emission of one participant: to its delegators, and what is
/// left to its profit-share accounts or to itself.
pub fn distribute_module(
    module_key: &ModuleKey,
    founder_key: &AccountKey,
    founder_emission: u64,
    server_emission: u64,
    validator_emission: u64,
    info: &ModuleStakeInfo,
) -> (r: Result<Vec<StakeIncrease>, EmissionError>)
    ensures
        match r {
            Ok(incs) => {
                &&& module_outcome(
                    *module_key,
                    *founder_key,
                    founder_emission,
                    server_emission,
                    validator_emission,
                    *info,
                ) == Ok::<Seq<StakeIncrease>, EmissionError>(incs@)
                &&& increase_total(incs@) == with_founder(
                    *module_key,
                    *founder_key,
                    founder_emission,
                    server_emission,
                ) + validator_emission
            },
            Err(e) => module_outcome(
                *module_key,
                *founder_key,
                founder_emission,
                server_emission,
                validator_emission,
                *info,
            ) == Err::<Seq<StakeIncrease>, EmissionError>(e),
        },
{
    proof {
        lemma_module_emission_exhausted(
            *module_key,
            *founder_key,
            founder_emission,
            server_emission,
            validator_emission,
            *info,
        );
    }
    let remaining = match remaining_after_delegates(
        module_key,
        founder_key,
        founder_emission,
        server_emission,
        validator_emission,
        info,
    ) {
        Ok(left) => left,
        Err(e) => {
            return Err(e);
        },
    };
    let mut out: Vec<StakeIncrease> = if validator_emission > 0 {
        pay_delegates(module_key, &info.ownership, validator_emission, info.delegation_fee).0
    } else {
        Vec::new()
    };
    if remaining == 0 {
        return Ok(out);
    }
    let shares = &info.profit_share_emissions;
    if shares.len() == 0 {
        out.push(
            StakeIncrease {
                module_key: *module_key,
                account_key: module_key.account(),
                amount: remaining,
            },
        );
        return Ok(out);
    }
    let shared = sum_shares(shares);
    if shared > remaining as u128 {
        return Err(
            EmissionError::EmittedMoreThanExpected { emitted: cap(shared), expected: remaining },
        );
    }
    if shared < remaining as u128 {
        return Err(EmissionError::HasEmissionRemaining { emitted: cap(shared) });
    }
    let ghost delegates = out@;
    let mut k: usize = 0;
    while k < shares.len()
        invariant
            k <= shares.len(),
            out@ == delegates + share_increases(*module_key, shares@).take(k as int),
        decreases shares.len() - k,
    {
        out.push(
            StakeIncrease {
                module_key: *module_key,
                account_key: shares[k].0,
                amount: shares[k].1,
            },
        );
        assert(out@ =~= delegates + share_increases(*module_key, shares@).take(k + 1));
        k += 1;
    }
    assert(share_increases(*module_key, shares@).take(shares.len() as int) =~= share_increases(
        *module_key,
        shares@,
    ));
    Ok(out)
}

/// Hands out the emissions of an epoch. `result` lists each participant
/// with its server and its validator emission, and `infos` holds what the
/// ledger knows of each, in the same order.
///
/// The increases of stake come in the order of the participants. For each
/// participant they sum to its emission, and in all they do not exceed
/// `founder_emission + to_be_emitted`.
pub fn distribute_emissions(
    founder_key: &AccountKey,
    founder_emission: u64,
    to_be_emitted: u64,
    result: &Vec<(ModuleKey, u64, u64)>,
    infos: &Vec<ModuleStakeInfo>,
) -> (r: Result<Vec<StakeIncrease>, EmissionError>)
    ensures
        match r {
            Ok(incs) => {
                &&& distribution(
                    *founder_key,
                    founder_emission,
                    to_be_emitted,
                    result@,
                    infos@,
                ) == Ok::<Seq<StakeIncrease>, EmissionError>(incs@)
                &&& increase_total(incs@) <= founder_emission + to_be_emitted
            },
            Err(e) => distribution(
                *founder_key,
                founder_emission,
                to_be_emitted,
                result@,
                infos@,
            ) == Err::<Seq<StakeIncrease>, EmissionError>(e),
        },
{
    if result.len() != infos.len() {
        return Err(EmissionError::ModulesBroken);
    }
    let mut out: Vec<StakeIncrease> = Vec::new();
    let mut emitted: u128 = 0;
    let mut i: usize = 0;
    while i < result.len()
        invariant
            i <= result.len(),
            result.len() == infos.len(),
            outcomes(*founder_key, founder_emission, result@, infos@, i as int) == Ok::<
                Seq<StakeIncrease>,
                EmissionError,
            >(out@),
            emitted == increase_total(out@),
        decreases result.len() - i,
    {
        let incs = match distribute_module(
            &result[i].0,
            founder_key,
            founder_emission,
            result[i].1,
            result[i].2,
            &infos[i],
        ) {
            Ok(incs) => incs,
            Err(e) => {
                proof {
                    lemma_outcomes_fail(
                        *founder_key,
                        founder_emission,
                        result@,
                        infos@,
                        i + 1,
                        result.len() as int,
                    );
                }
                return Err(e);
            },
        };
        let ghost before = out@;
        let mut k: usize = 0;
        while k < incs.len()
            invariant
                k <= incs.len(),
                out@ == before + incs@.take(k as int),
                emitted == increase_total(out@),
            decreases incs.len() - k,
        {
            proof {
                lemma_increase_total_bound(out@);
                assert(out@.len() == out.len());
                assert(emitted <= 0xffff_ffff_ffff_ffff * 0xffff_ffff_ffff_ffff);
            }
            let ghost prev = out@;
            out.push(incs[k]);
            assert(out@.drop_last() =~= prev);
            assert(out@ =~= before + incs@.take(k + 1));
            emitted = emitted + incs[k].amount as u128;
            k += 1;
        }
        assert(incs@.take(incs.len() as int) =~= incs@);
        i += 1;
    }
    let expected: u128 = founder_emission as u128 + to_be_emitted as u128;
    if emitted > expected {
        return Err(
            EmissionError::EmittedMoreThanExpected {
                emitted: cap(emitted),
                expected: cap(expected),
            },
        );
    }
    Ok(out)
}

} // verus!
