//! Proposals and the votes on them.
//!
//! A proposal collects the stake of those who take part in it. It is
//! accepted once its votes exceed a share of the stake that it speaks for.
use crate::params::AccountKey;
use vstd::prelude::*;

verus! {

/// What a proposal speaks for.
#[derive(Clone, Copy, Debug, PartialEq, Eq, Structural)]
pub enum ProposalMode {
    /// The parameters of the whole network.
    Global,
    /// The parameters of one subnet.
    Subnet,
    /// Anything else.
    Custom,
}

/// A proposal and those who take part in it. The first participant is its
/// owner.
#[derive(Debug)]
pub struct Proposal {
    pub mode: ProposalMode,
    pub netuid: u16,
    pub votes: u64,
    pub participants: Vec<AccountKey>,
    pub accepted: bool,
    pub data: Vec<u8>,
    /// The share of the stake, in percent, that the votes have to exceed.
    pub vote_threshold: u16,
}

/// Where a voter takes part.
#[derive(Clone, Copy, Debug, PartialEq, Eq, Structural)]
pub struct VoterInfo {
    pub proposal_id: u64,
    pub votes: u64,
    pub participant_index: u16,
}

/// Whether there is room for another proposal.
pub fn has_max_proposals(num_proposals: u64, max_proposals: u64) -> (r: bool)
    ensures
        r == (num_proposals < max_proposals),
{
    num_proposals < max_proposals
}

/// Whether `id` is among the first `upto` ids.
pub open spec fn taken(ids: Seq<u64>, id: int) -> bool {
    exists|k: int| 0 <= k < ids.len() && #[trigger] ids[k] == id
}

fn is_taken(ids: &Vec<u64>, id: u64) -> (r: bool)
    ensures
        r == taken(ids@, id as int),
{
    let mut k: usize = 0;
    while k < ids.len()
        invariant
            k <= ids.len(),
            forall|q: int| 0 <= q < k ==> #[trigger] ids@[q] != id,
        decreases ids.len() - k,
    {
        if ids[k] == id {
            return true;
        }
        k += 1;
    }
    false
}

/// The least id that no proposal has. There is none only where every id is
/// taken.
pub fn next_proposal_id(ids: &Vec<u64>) -> (r: Option<u64>)
    ensures
        match r {
            Some(id) => !taken(ids@, id as int) && forall|smaller: int|
                0 <= smaller < id ==> taken(ids@, smaller),
            None => forall|id: int| 0 <= id <= u64::MAX ==> taken(ids@, id),
        },
{
    let mut next: u64 = 0;
    loop
        invariant
            forall|smaller: int| 0 <= smaller < next ==> taken(ids@, smaller),
        decreases u64::MAX - next,
    {
        if !is_taken(ids, next) {
            return Some(next);
        }
        if next == u64::MAX {
            return None;
        }
        next += 1;
    }
}

/// The votes that a voter brings to a proposal: its stake on the subnet for
/// a proposal of a subnet, else its stake on all subnets.
pub fn get_voting_power(mode: ProposalMode, subnet_stake: u64, global_stake: u64) -> (r: u64)
    ensures
        r == (if mode == ProposalMode::Subnet {
            subnet_stake
        } else {
            global_stake
        }),
{
    match mode {
        ProposalMode::Subnet => subnet_stake,
        _ => global_stake,
    }
}

/// The votes that a proposal has to exceed: `vote_threshold` percent of the
/// stake that it speaks for, rounded down.
pub fn get_proposal_vote_threshold(total_stake: u64, vote_threshold: u16) -> (r: u64)
    ensures
        r == (if (total_stake * vote_threshold) / 100 > u64::MAX {
            u64::MAX
        } else {
            ((total_stake * vote_threshold) / 100) as u64
        }),
{
    let stake: u128 = total_stake as u128;
    let share: u128 = vote_threshold as u128;
    assert(stake * share <= 0xffff_ffff_ffff_ffff * 0xffff) by (nonlinear_arith)
        requires
            0 <= stake <= 0xffff_ffff_ffff_ffff,
            0 <= share <= 0xffff,
    ;
    let wide: u128 = stake * share / 100;
    if wide > u64::MAX as u128 {
        u64::MAX
    } else {
        wide as u64
    }
}

/// Whether a proposal with these votes is accepted: they exceed the
/// threshold.
pub fn check_proposal_approval(votes: u64, stake_threshold: u64) -> (r: bool)
    ensures
        r == (votes > stake_threshold),
{
    votes > stake_threshold
}

/// Whether `key` is among the keys.
pub open spec fn holds_key(keys: Seq<AccountKey>, key: AccountKey) -> bool {
    exists|k: int| 0 <= k < keys.len() && (#[trigger] keys[k]).0@ == key.0@
}

/// Whether `key` may still vote on the proposal: it does not take part yet
/// and the proposal is not accepted.
pub fn is_vote_available(key: &AccountKey, proposal: &Proposal) -> (r: bool)
    ensures
        r == (!holds_key(proposal.participants@, *key) && !proposal.accepted),
{
    let mut k: usize = 0;
    while k < proposal.participants.len()
        invariant
            k <= proposal.participants.len(),
            forall|q: int| 0 <= q < k ==> (#[trigger] proposal.participants@[q]).0@ != key.0@,
        decreases proposal.participants.len() - k,
    {
        if proposal.participants[k].same_as(key) {
            return false;
        }
        k += 1;
    }
    !proposal.accepted
}

/// Whether `key` owns the proposal: it is its first participant.
pub fn is_proposal_owner(key: &AccountKey, proposal: &Proposal) -> (r: bool)
    ensures
        r == (proposal.participants@.len() > 0 && proposal.participants@[0].0@ == key.0@),
{
    proposal.participants.len() > 0 && proposal.participants[0].same_as(key)
}

/// Lets a voter take part in a proposal: the voter joins the participants
/// and its votes are added, held at the largest number of votes. What the
/// ledger keeps of the voter comes back.
pub fn register_voter(
    key: &AccountKey,
    proposal_id: u64,
    voting_power: u64,
    proposal: &mut Proposal,
) -> (r: VoterInfo)
    ensures
        final(proposal).participants@ == old(proposal).participants@.push(*key),
        final(proposal).votes == (if old(proposal).votes + voting_power > u64::MAX {
            u64::MAX
        } else {
            (old(proposal).votes + voting_power) as u64
        }),
        final(proposal).mode == old(proposal).mode,
        final(proposal).netuid == old(proposal).netuid,
        final(proposal).accepted == old(proposal).accepted,
        final(proposal).data@ == old(proposal).data@,
        final(proposal).vote_threshold == old(proposal).vote_threshold,
        r.proposal_id == proposal_id,
        r.votes == voting_power,
        r.participant_index == old(proposal).participants@.len() % 65536,
{
    let index = (proposal.participants.len() % 65536) as u16;
    proposal.participants.push(*key);
    proposal.votes = proposal.votes.saturating_add(voting_power);
    VoterInfo { proposal_id, votes: voting_power, participant_index: index }
}

/// Takes a voter out of a proposal: the participant at the voter's index
/// leaves and the voter's votes are taken off. The answer is whether the
/// proposal is to be removed: nobody takes part any more, or no votes are
/// left. A voter whose index names no participant changes nothing.
pub fn unregister_voter(voter: &VoterInfo, proposal: &mut Proposal) -> (r: bool)
    ensures
        final(proposal).participants@ == (if voter.participant_index < old(
            proposal,
        ).participants@.len() {
            old(proposal).participants@.remove(voter.participant_index as int)
        } else {
            old(proposal).participants@
        }),
        final(proposal).votes == (if voter.participant_index < old(proposal).participants@.len() {
            if old(proposal).votes >= voter.votes {
                (old(proposal).votes - voter.votes) as u64
            } else {
                0
            }
        } else {
            old(proposal).votes
        }),
        final(proposal).mode == old(proposal).mode,
        final(proposal).netuid == old(proposal).netuid,
        final(proposal).accepted == old(proposal).accepted,
        final(proposal).data@ == old(proposal).data@,
        final(proposal).vote_threshold == old(proposal).vote_threshold,
        r == (final(proposal).participants@.len() == 0 || final(proposal).votes == 0),
{
    let index = voter.participant_index as usize;
    if index < proposal.participants.len() {
        proposal.participants.remove(index);
        proposal.votes = proposal.votes.saturating_sub(voter.votes);
    }
    proposal.participants.len() == 0 || proposal.votes == 0
}

/// Why a proposal was refused.
#[derive(Clone, Copy, Debug, PartialEq, Eq, Structural)]
pub enum VotingError {
    /// The proposal has no more votes than the one that it would replace.
    NotEnoughVotes,
    /// The subnet of the proposal counts votes in a way that is not known.
    UnknownVoteMode,
    /// A custom proposal without data.
    EmptyData,
    /// The data of the proposal is 256 bytes long or longer.
    DataTooLong,
}

/// What the ledger holds of a proposal: its id, its votes, and whether it
/// is accepted.
#[derive(Clone, Copy, Debug, PartialEq, Eq, Structural)]
pub struct ProposalStanding {
    pub id: u64,
    pub votes: u64,
    pub accepted: bool,
}

/// The first of the proposals that is accepted or has no votes.
pub open spec fn first_spent(proposals: Seq<ProposalStanding>) -> Option<u64>
    decreases proposals.len(),
{
    if proposals.len() == 0 {
        None
    } else if proposals[0].accepted || proposals[0].votes == 0 {
        Some(proposals[0].id)
    } else {
        first_spent(proposals.skip(1))
    }
}

/// The proposal that makes room for a new one: the first that is accepted
/// or has no votes, and the proposal with id zero where there is no such
/// proposal.
pub fn proposal_to_remove(proposals: &Vec<ProposalStanding>) -> (r: u64)
    ensures
        r == (match first_spent(proposals@) {
            Some(id) => id,
            None => 0,
        }),
{
    let mut k: usize = 0;
    assert(proposals@.skip(0) =~= proposals@);
    while k < proposals.len()
        invariant
            k <= proposals.len(),
            first_spent(proposals@) == first_spent(proposals@.skip(k as int)),
        decreases proposals.len() - k,
    {
        assert(proposals@.skip(k as int).skip(1) =~= proposals@.skip(k + 1));
        if proposals[k].accepted || proposals[k].votes == 0 {
            return proposals[k].id;
        }
        k += 1;
    }
    0
}

/// Why a proposal is refused, if it is: the first of the rules, in their
/// order, that it breaks.
pub open spec fn proposal_error(
    mode: ProposalMode,
    votes: u64,
    data_len: nat,
    replaces_another: bool,
    vote_mode_known: bool,
) -> Option<VotingError> {
    if replaces_another && votes == 0 {
        Some(VotingError::NotEnoughVotes)
    } else if mode == ProposalMode::Subnet && !vote_mode_known {
        Some(VotingError::UnknownVoteMode)
    } else if mode == ProposalMode::Custom && data_len == 0 {
        Some(VotingError::EmptyData)
    } else if data_len >= 256 {
        Some(VotingError::DataTooLong)
    } else {
        None
    }
}

/// Checks a proposal: where it replaces another it needs votes; a proposal
/// of a subnet needs a subnet that counts votes by stake or by the square
/// root of stake; a custom proposal needs data; and no proposal may carry
/// 256 bytes of data or more.
pub fn check_proposal(proposal: &Proposal, replaces_another: bool, vote_mode_known: bool) -> (r:
    Result<(), VotingError>)
    ensures
        r == (match proposal_error(
            proposal.mode,
            proposal.votes,
            proposal.data@.len(),
            replaces_another,
            vote_mode_known,
        ) {
            Some(e) => Err::<(), VotingError>(e),
            None => Ok(()),
        }),
{
    if replaces_another && proposal.votes == 0 {
        return Err(VotingError::NotEnoughVotes);
    }
    match proposal.mode {
        ProposalMode::Subnet => {
            if !vote_mode_known {
                return Err(VotingError::UnknownVoteMode);
            }
        },
        ProposalMode::Custom => {
            if proposal.data.len() == 0 {
                return Err(VotingError::EmptyData);
            }
        },
        ProposalMode::Global => {},
    }
    if proposal.data.len() >= 256 {
        return Err(VotingError::DataTooLong);
    }
    Ok(())
}

} // verus!
