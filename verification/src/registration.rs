//! The rules of registration: how much stake it takes, and whom a newcomer
//! replaces on a full subnet.
use crate::fixed::{unit32, Fixed32};
use vstd::prelude::*;

verus! {

/// Why a registration or a deregistration was refused.
#[derive(Clone, Copy, Debug, PartialEq, Eq, Structural)]
pub enum RegistrationError {
    /// The stake does not exceed that of the least staked subnet.
    NotEnoughStakeToStartNetwork,
    NotEnoughBalanceToRegister,
    NotEnoughStakeToRegister,
    KeyAlreadyRegistered,
    NameAlreadyRegistered,
    NotRegistered,
    StillRegistered,
}

/// What the ledger holds of an account that asks to be registered, and of
/// the subnet that it asks to join.
#[derive(Clone, Copy, Debug, PartialEq, Eq, Structural)]
pub struct RegistrationContext {
    /// Whether the balance of the account covers the stake.
    pub has_enough_balance: bool,
    /// The least stake of a registration on the subnet.
    pub min_stake_to_register: u64,
    /// The stake that a registration burns.
    pub min_burn: u64,
    pub key_registered: bool,
    pub name_exists: bool,
    /// The number of participants of the subnet, and how many it may have.
    pub n: u16,
    pub max_allowed_uids: u16,
    /// The number of participants of all subnets, and how many there may be.
    pub global_n: u16,
    pub max_allowed_modules: u16,
}

/// Whom a newcomer replaces.
#[derive(Clone, Copy, Debug, PartialEq, Eq, Structural)]
pub enum Replacement {
    /// Nobody: there is room.
    Nobody,
    /// The network is full: the participant of lowest priority of a subnet
    /// picked at random.
    LowestOfRandomSubnet,
    /// The subnet is full: its participant of lowest priority.
    LowestOfSubnet,
}

/// What a registration does to the ledger.
#[derive(Clone, Copy, Debug, PartialEq, Eq, Structural)]
pub struct RegistrationPlan {
    pub replacement: Replacement,
    /// The stake that the newcomer adds, if any.
    pub add_stake: u64,
    /// The stake that is burned, if any.
    pub burn: u64,
}

/// Why the registration is refused, if it is: the first of the rules, in
/// their order, that it breaks.
pub open spec fn registration_error(ctx: RegistrationContext, stake_amount: u64) -> Option<
    RegistrationError,
> {
    if !ctx.has_enough_balance {
        Some(RegistrationError::NotEnoughBalanceToRegister)
    } else if stake_amount < ctx.min_stake_to_register + ctx.min_burn {
        Some(RegistrationError::NotEnoughStakeToRegister)
    } else if ctx.key_registered {
        Some(RegistrationError::KeyAlreadyRegistered)
    } else if ctx.name_exists {
        Some(RegistrationError::NameAlreadyRegistered)
    } else {
        None
    }
}

/// Checks a registration against the rules of the subnet and says what it
/// does: whom the newcomer replaces, and how much stake is added and
/// burned.
pub fn do_register(ctx: &RegistrationContext, stake_amount: u64) -> (r: Result<
    RegistrationPlan,
    RegistrationError,
>)
    ensures
        match r {
            Ok(plan) => {
                &&& registration_error(*ctx, stake_amount) is None
                &&& plan.replacement == (if ctx.global_n >= ctx.max_allowed_modules {
                    Replacement::LowestOfRandomSubnet
                } else if ctx.n >= ctx.max_allowed_uids {
                    Replacement::LowestOfSubnet
                } else {
                    Replacement::Nobody
                })
                &&& plan.add_stake == stake_amount
                &&& plan.burn == ctx.min_burn
            },
            Err(e) => registration_error(*ctx, stake_amount) == Some(e),
        },
{
    if !ctx.has_enough_balance {
        return Err(RegistrationError::NotEnoughBalanceToRegister);
    }
    if !enough_stake_to_register(ctx.min_stake_to_register, ctx.min_burn, stake_amount) {
        return Err(RegistrationError::NotEnoughStakeToRegister);
    }
    if ctx.key_registered {
        return Err(RegistrationError::KeyAlreadyRegistered);
    }
    if ctx.name_exists {
        return Err(RegistrationError::NameAlreadyRegistered);
    }
    let replacement = if ctx.global_n >= ctx.max_allowed_modules {
        Replacement::LowestOfRandomSubnet
    } else if ctx.n >= ctx.max_allowed_uids {
        Replacement::LowestOfSubnet
    } else {
        Replacement::Nobody
    };
    Ok(RegistrationPlan { replacement, add_stake: stake_amount, burn: ctx.min_burn })
}

/// Checks the stake of a newcomer after the burn: it is what was added less
/// what was burned, and no less than the least stake of the subnet.
pub fn check_burned_stake(current_stake: u64, stake_amount: u64, min_burn: u64, min_stake: u64)
    -> (r: Result<(), RegistrationError>)
    ensures
        r is Ok <==> min_burn == 0 || (stake_amount >= min_burn && current_stake == stake_amount
            - min_burn && current_stake >= min_stake),
        r is Err ==> r == Err::<(), RegistrationError>(RegistrationError::NotEnoughStakeToRegister),
{
    if min_burn > 0 {
        if stake_amount < min_burn || current_stake != stake_amount - min_burn || current_stake
            < min_stake {
            return Err(RegistrationError::NotEnoughStakeToRegister);
        }
    }
    Ok(())
}

/// The uid of the participant that asks to be deregistered, where it is
/// registered.
pub fn do_deregister(uid: Option<u16>) -> (r: Result<u16, RegistrationError>)
    ensures
        r == (match uid {
            Some(uid) => Ok::<u16, RegistrationError>(uid),
            None => Err(RegistrationError::NotRegistered),
        }),
{
    match uid {
        Some(uid) => Ok(uid),
        None => Err(RegistrationError::NotRegistered),
    }
}

/// Checks that a participant is gone after its removal.
pub fn check_deregistered(still_registered: bool) -> (r: Result<(), RegistrationError>)
    ensures
        r == (if still_registered {
            Err::<(), RegistrationError>(RegistrationError::StillRegistered)
        } else {
            Ok(())
        }),
{
    if still_registered {
        Err(RegistrationError::StillRegistered)
    } else {
        Ok(())
    }
}

/// Whether `stake_amount` covers the least stake of a registration and the
/// burn.
pub fn enough_stake_to_register(min_stake_to_register: u64, min_burn: u64, stake_amount: u64) -> (r:
    bool)
    ensures
        r == (stake_amount >= min_stake_to_register + min_burn),
{
    stake_amount as u128 >= min_stake_to_register as u128 + min_burn as u128
}

/// `stake` doubled `times` times, and the largest amount that there is once
/// it has grown beyond that.
pub open spec fn doubled(stake: u64, times: nat) -> u64
    decreases times,
{
    if times == 0 {
        stake
    } else {
        let before = doubled(stake, (times - 1) as nat);
        if 2 * before > u64::MAX {
            u64::MAX
        } else {
            (2 * before) as u64
        }
    }
}

/// How many times over the registrations of the current block fill the
/// block's allowance, in whole times.
pub open spec fn registration_factor(registrations: u16, max_registrations: u16) -> nat {
    (Fixed32::of_u16(registrations).div_or_zero(Fixed32::of_u16(max_registrations)).bits as int
        / unit32()) as nat
}

/// The least stake of a registration: the subnet's least stake, doubled for
/// each time that the registrations of the current block fill the block's
/// allowance.
pub fn get_min_stake_to_register(
    min_stake: u64,
    registrations_per_block: u16,
    max_registrations_per_block: u16,
) -> (r: u64)
    ensures
        r == doubled(
            min_stake,
            registration_factor(registrations_per_block, max_registrations_per_block),
        ),
{
    let ratio = Fixed32::from_u16(registrations_per_block).div_or_default(
        Fixed32::from_u16(max_registrations_per_block),
    );
    let factor: i64 = if ratio.bits < 0 {
        0
    } else {
        ratio.bits / 0x1_0000_0000
    };
    assert(ratio.bits >= 0) by {
        let a = Fixed32::of_u16(registrations_per_block);
        let d = Fixed32::of_u16(max_registrations_per_block);
        assert(a.bits >= 0 && d.bits >= 0);
        if d.bits != 0 {
            assert((a.bits * unit32()) / (d.bits as int) >= 0) by (nonlinear_arith)
                requires
                    a.bits >= 0,
                    d.bits > 0,
            ;
        }
    }
    let mut stake = min_stake;
    let mut i: i64 = 0;
    while i < factor
        invariant
            0 <= i <= factor,
            stake == doubled(min_stake, i as nat),
        decreases factor - i,
    {
        stake = if stake > u64::MAX / 2 {
            u64::MAX
        } else {
            stake * 2
        };
        i += 1;
    }
    stake
}

/// The score by which a participant is pruned: its emission, and zero
/// where it has none on record.
pub open spec fn pruning_score(emissions: Seq<u64>, uid: int) -> u64 {
    if 0 <= uid < emissions.len() {
        emissions[uid]
    } else {
        0
    }
}

/// The score by which the participant with uid `uid` is pruned.
pub fn get_pruning_score_for_uid(emissions: &Vec<u64>, uid: u16) -> (r: u64)
    ensures
        r == pruning_score(emissions@, uid as int),
{
    if (uid as usize) < emissions.len() {
        emissions[uid as usize]
    } else {
        0
    }
}

/// Whether the participant with uid `uid` is still immune: it has a block
/// of registration, and fewer blocks than the immunity lasts have passed
/// since.
pub open spec fn immune(
    registration_blocks: Seq<u64>,
    current_block: u64,
    immunity_period: u64,
    uid: int,
) -> bool {
    let registered = if 0 <= uid < registration_blocks.len() {
        registration_blocks[uid]
    } else {
        0
    };
    registered > 0 && (if current_block >= registered {
        current_block - registered
    } else {
        0
    }) < immunity_period
}

/// Of the first `upto` participants the one to prune and its score: the
/// first with the lowest score among those that are not immune. Before any
/// was found the score is the largest there is and the uid is zero.
pub open spec fn lowest_priority(
    emissions: Seq<u64>,
    registration_blocks: Seq<u64>,
    current_block: u64,
    immunity_period: u64,
    upto: int,
) -> (u64, u16)
    decreases upto,
{
    if upto <= 0 {
        (u64::MAX, 0)
    } else {
        let before = lowest_priority(
            emissions,
            registration_blocks,
            current_block,
            immunity_period,
            upto - 1,
        );
        let score = pruning_score(emissions, upto - 1);
        if before.0 > score && !immune(
            registration_blocks,
            current_block,
            immunity_period,
            upto - 1,
        ) {
            (score, (upto - 1) as u16)
        } else {
            before
        }
    }
}

/// The participant that a newcomer replaces on a full subnet of `n`
/// participants, and whether it was taken from the list of those waiting to
/// be deregistered. The first on that list goes first; else the participant
/// with the lowest emission that is no longer immune, and the participant
/// with uid zero where all are immune.
pub fn get_lowest_uid(
    n: u16,
    pending_deregister_uids: &Vec<u16>,
    emissions: &Vec<u64>,
    registration_blocks: &Vec<u64>,
    current_block: u64,
    immunity_period: u64,
) -> (r: (u16, bool))
    ensures
        r == (if pending_deregister_uids@.len() > 0 && pending_deregister_uids@[0] < n {
            (pending_deregister_uids@[0], true)
        } else {
            (
                lowest_priority(
                    emissions@,
                    registration_blocks@,
                    current_block,
                    immunity_period,
                    n as int,
                ).1,
                false,
            )
        }),
{
    if pending_deregister_uids.len() > 0 {
        let uid = pending_deregister_uids[0];
        if uid < n {
            return (uid, true);
        }
    }
    let mut min_score: u64 = u64::MAX;
    let mut lowest_priority_uid: u16 = 0;
    let mut i: u16 = 0;
    while i < n
        invariant
            i <= n,
            (min_score, lowest_priority_uid) == lowest_priority(
                emissions@,
                registration_blocks@,
                current_block,
                immunity_period,
                i as int,
            ),
        decreases n - i,
    {
        let score = get_pruning_score_for_uid(emissions, i);
        if min_score > score {
            let registered: u64 = if (i as usize) < registration_blocks.len() {
                registration_blocks[i as usize]
            } else {
                0
            };
            let in_immunity = registered > 0 && current_block.saturating_sub(registered)
                < immunity_period;
            if !in_immunity {
                lowest_priority_uid = i;
                min_score = score;
            }
        }
        i += 1;
    }
    (lowest_priority_uid, false)
}

/// An index below `n` that changes with the block, and none for `n` zero.
pub fn random_idx(block_number: u64, n: u16) -> (r: Option<u16>)
    ensures
        r == (if n == 0 {
            None
        } else {
            Some(((block_number % 65535) % (n as u64)) as u16)
        }),
{
    if n == 0 {
        None
    } else {
        Some(((block_number % 65535) % (n as u64)) as u16)
    }
}

/// Of the first `upto` subnets the least stake and the subnet that has it,
/// the last of several. Before any subnet was seen the stake is the largest
/// there is and the subnet is `start`.
pub open spec fn least_staked(subnets: Seq<(u16, u64)>, start: u16, upto: int) -> (u64, u16)
    decreases upto,
{
    if upto <= 0 {
        (u64::MAX, start)
    } else {
        let before = least_staked(subnets, start, upto - 1);
        if subnets[upto - 1].1 <= before.0 {
            (subnets[upto - 1].1, subnets[upto - 1].0)
        } else {
            before
        }
    }
}

/// The subnet that a new subnet replaces, where it has to replace one:
/// once there are as many subnets as allowed, the least staked one goes,
/// provided the newcomer brings more stake than it has.
pub fn subnet_to_replace(
    num_subnets: u16,
    max_subnets: u16,
    subnets: &Vec<(u16, u64)>,
    stake: u64,
) -> (r: Result<Option<u16>, RegistrationError>)
    ensures
        ({
            let start = if max_subnets == 0 {
                0u16
            } else {
                (max_subnets - 1) as u16
            };
            let least = least_staked(subnets@, start, subnets@.len() as int);
            r == (if num_subnets < max_subnets {
                Ok::<Option<u16>, RegistrationError>(None)
            } else if stake > least.0 {
                Ok(Some(least.1))
            } else {
                Err(RegistrationError::NotEnoughStakeToStartNetwork)
            })
        }),
{
    if num_subnets < max_subnets {
        return Ok(None);
    }
    let start = max_subnets.saturating_sub(1);
    let mut min_stake: u64 = u64::MAX;
    let mut min_stake_netuid: u16 = start;
    let mut k: usize = 0;
    while k < subnets.len()
        invariant
            k <= subnets.len(),
            (min_stake, min_stake_netuid) == least_staked(subnets@, start, k as int),
        decreases subnets.len() - k,
    {
        if subnets[k].1 <= min_stake {
            min_stake = subnets[k].1;
            min_stake_netuid = subnets[k].0;
        }
        k += 1;
    }
    if stake > min_stake {
        Ok(Some(min_stake_netuid))
    } else {
        Err(RegistrationError::NotEnoughStakeToStartNetwork)
    }
}

} // verus!
