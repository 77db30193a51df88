//! The rules by which a participant's weights are taken in.
use vstd::prelude::*;

verus! {

/// Why weights were not taken in.
#[derive(Clone, Copy, Debug, PartialEq, Eq, Structural)]
pub enum WeightsError {
    WeightVecNotEqualSize,
    NotEnoughtStakePerWeight,
    NotEnoughStaketoSetWeights,
    NetworkDoesNotExist,
    NotRegistered,
    DuplicateUids,
    InvalidUid,
    NoSelfWeight,
    NotSettingEnoughWeights,
    TooManyUids,
}

/// What the ledger holds of the participant that sets weights and of its
/// subnet.
#[derive(Clone, Copy, Debug, PartialEq, Eq, Structural)]
pub struct WeightsContext {
    /// The stake of the participant.
    pub stake: u64,
    /// The stake that each weight takes.
    pub min_weight_stake: u64,
    pub subnet_exists: bool,
    /// The uid of the participant, where it is registered on the subnet.
    pub uid: Option<u16>,
    /// The number of participants of the subnet.
    pub n: u16,
    pub min_allowed_weights: u16,
    pub max_allowed_weights: u16,
    pub current_block: u64,
}

/// The weights of a participant as the ledger takes them in.
#[derive(Debug)]
pub struct WeightsSet {
    pub uid: u16,
    pub weights: Vec<(u16, u16)>,
    /// The block that counts as the participant's last update.
    pub last_update: u64,
}

/// Whether some uid of the list names no participant of a subnet with `n`
/// participants.
pub open spec fn has_invalid_uid(n: u16, uids: Seq<u16>) -> bool {
    exists|i: int| 0 <= i < uids.len() && #[trigger] uids[i] >= n
}

/// Whether some uid stands in the list twice.
pub open spec fn has_duplicates(items: Seq<u16>) -> bool {
    exists|i: int, j: int| 0 <= i < j < items.len() && #[trigger] items[i] == #[trigger] items[j]
}

/// The sum of the values.
pub open spec fn value_sum(values: Seq<u16>) -> int
    decreases values.len(),
{
    if values.len() == 0 {
        0
    } else {
        value_sum(values.drop_last()) + values.last()
    }
}

/// The values scaled so that they sum to 65535, each rounded down. Values
/// that sum to zero stay as they are.
pub open spec fn normalized_values(values: Seq<u16>) -> Seq<u16> {
    let sum = value_sum(values);
    if sum == 0 {
        values
    } else {
        Seq::new(values.len(), |i: int| ((values[i] * 65535) / sum) as u16)
    }
}

/// The uids and the values side by side, as long as the shorter of the two.
pub open spec fn zipped(uids: Seq<u16>, values: Seq<u16>) -> Seq<(u16, u16)> {
    Seq::new(
        if uids.len() < values.len() {
            uids.len()
        } else {
            values.len()
        },
        |i: int| (uids[i], values[i]),
    )
}

/// Why the weights are not taken in, if they are not: the first of the
/// rules, in their order, that they break.
pub open spec fn weights_error(ctx: WeightsContext, uids: Seq<u16>, values: Seq<u16>) -> Option<
    WeightsError,
> {
    if uids.len() != values.len() {
        Some(WeightsError::WeightVecNotEqualSize)
    } else if ctx.stake < ctx.min_weight_stake * uids.len() {
        Some(WeightsError::NotEnoughtStakePerWeight)
    } else if ctx.stake == 0 {
        Some(WeightsError::NotEnoughStaketoSetWeights)
    } else if !ctx.subnet_exists {
        Some(WeightsError::NetworkDoesNotExist)
    } else if ctx.uid is None {
        Some(WeightsError::NotRegistered)
    } else if has_duplicates(uids) {
        Some(WeightsError::DuplicateUids)
    } else if has_invalid_uid(ctx.n, uids) {
        Some(WeightsError::InvalidUid)
    } else if uids.contains(ctx.uid->0) {
        Some(WeightsError::NoSelfWeight)
    } else if uids.len() < ctx.min_allowed_weights {
        Some(WeightsError::NotSettingEnoughWeights)
    } else if uids.len() > ctx.max_allowed_weights {
        Some(WeightsError::TooManyUids)
    } else {
        None
    }
}

/// Whether some uid of the list names no participant of a subnet with `n`
/// participants.
pub fn contains_invalid_uids(n: u16, uids: &Vec<u16>) -> (r: bool)
    ensures
        r == has_invalid_uid(n, uids@),
{
    let mut i: usize = 0;
    while i < uids.len()
        invariant
            i <= uids.len(),
            forall|k: int| 0 <= k < i ==> #[trigger] uids@[k] < n,
        decreases uids.len() - i,
    {
        if uids[i] >= n {
            return true;
        }
        i += 1;
    }
    false
}

/// Whether there are as many values as uids.
pub fn uids_match_len(uids: &Vec<u16>, values: &Vec<u16>) -> (r: bool)
    ensures
        r == (uids@.len() == values@.len()),
{
    uids.len() == values.len()
}

/// Whether some uid stands in the list twice.
pub fn has_duplicate_uids(items: &Vec<u16>) -> (r: bool)
    ensures
        r == has_duplicates(items@),
{
    let mut j: usize = 0;
    while j < items.len()
        invariant
            j <= items.len(),
            forall|a: int, b: int| 0 <= a < b < j ==> #[trigger] items@[a] != #[trigger] items@[b],
        decreases items.len() - j,
    {
        let mut i: usize = 0;
        while i < j
            invariant
                i <= j,
                j < items.len(),
                forall|a: int| 0 <= a < i ==> #[trigger] items@[a] != items@[j as int],
            decreases j - i,
        {
            if items[i] == items[j] {
                return true;
            }
            i += 1;
        }
        j += 1;
    }
    false
}

/// Scales the values so that they sum to 65535, each rounded down. Values
/// that sum to zero stay as they are.
pub fn normalize_weights(weights: Vec<u16>) -> (r: Vec<u16>)
    ensures
        r@ == normalized_values(weights@),
{
    let mut sum: u128 = 0;
    let mut i: usize = 0;
    while i < weights.len()
        invariant
            i <= weights.len(),
            sum == value_sum(weights@.take(i as int)),
            sum <= i * 65535,
        decreases weights.len() - i,
    {
        assert(weights@.take(i + 1).drop_last() =~= weights@.take(i as int));
        sum = sum + weights[i] as u128;
        i += 1;
    }
    assert(weights@.take(weights.len() as int) =~= weights@);
    if sum == 0 {
        return weights;
    }
    let mut out: Vec<u16> = Vec::new();
    let mut i: usize = 0;
    while i < weights.len()
        invariant
            i <= weights.len(),
            out.len() == i,
            sum == value_sum(weights@),
            sum > 0,
            forall|k: int| 0 <= k < i ==> #[trigger] out@[k] == normalized_values(weights@)[k],
        decreases weights.len() - i,
    {
        proof {
            lemma_value_le_sum(weights@, i as int);
        }
        let x: u128 = weights[i] as u128;
        assert((x * 65535) / (sum as int) <= 65535) by (nonlinear_arith)
            requires
                0 <= x <= sum,
                sum > 0,
        ;
        out.push((x * 65535 / sum) as u16);
        i += 1;
    }
    assert(out@ =~= normalized_values(weights@));
    out
}

proof fn lemma_value_le_sum(values: Seq<u16>, i: int)
    requires
        0 <= i < values.len(),
    ensures
        values[i] <= value_sum(values),
        0 <= value_sum(values.drop_last()),
    decreases values.len(),
{
    if values.len() > 1 {
        if i < values.len() - 1 {
            lemma_value_le_sum(values.drop_last(), i);
        } else {
            lemma_value_le_sum(values.drop_last(), 0);
        }
    } else {
        assert(value_sum(values.drop_last()) == 0);
    }
}

/// Whether the participant with uid `uid` is among the uids.
pub fn is_self_weight(uid: u16, uids: &Vec<u16>) -> (r: bool)
    ensures
        r == uids@.contains(uid),
{
    let mut i: usize = 0;
    while i < uids.len()
        invariant
            i <= uids.len(),
            forall|k: int| 0 <= k < i ==> #[trigger] uids@[k] != uid,
        decreases uids.len() - i,
    {
        if uids[i] == uid {
            return true;
        }
        i += 1;
    }
    false
}

/// Whether the number of uids is within what the subnet allows.
pub fn check_len_uids_within_allowed(
    min_allowed_weights: u16,
    max_allowed_weights: u16,
    uids: &Vec<u16>,
) -> (r: bool)
    ensures
        r == (min_allowed_weights <= uids@.len() <= max_allowed_weights),
{
    uids.len() <= max_allowed_weights as usize && uids.len() >= min_allowed_weights as usize
}

/// Takes in the weights of a participant: checks them against the rules of
/// the subnet, normalises the values, and puts each next to its uid. With
/// the weights comes the block that from now on counts as the participant's
/// last update.
pub fn do_set_weights(ctx: &WeightsContext, uids: Vec<u16>, values: Vec<u16>) -> (r: Result<
    WeightsSet,
    WeightsError,
>)
    ensures
        match r {
            Ok(set) => {
                &&& weights_error(*ctx, uids@, values@) is None
                &&& Some(set.uid) == ctx.uid
                &&& set.weights@ == zipped(uids@, normalized_values(values@))
                &&& set.last_update == ctx.current_block
            },
            Err(e) => weights_error(*ctx, uids@, values@) == Some(e),
        },
{
    if !uids_match_len(&uids, &values) {
        return Err(WeightsError::WeightVecNotEqualSize);
    }
    let per_weight: u128 = ctx.min_weight_stake as u128;
    let count: u128 = uids.len() as u128;
    assert(per_weight * count <= 0xffff_ffff_ffff_ffff * 0xffff_ffff_ffff_ffff) by (nonlinear_arith)
        requires
            0 <= per_weight <= 0xffff_ffff_ffff_ffff,
            0 <= count <= 0xffff_ffff_ffff_ffff,
    ;
    let needed: u128 = per_weight * count;
    if (ctx.stake as u128) < needed {
        return Err(WeightsError::NotEnoughtStakePerWeight);
    }
    if ctx.stake == 0 {
        return Err(WeightsError::NotEnoughStaketoSetWeights);
    }
    if !ctx.subnet_exists {
        return Err(WeightsError::NetworkDoesNotExist);
    }
    let uid = match ctx.uid {
        Some(uid) => uid,
        None => {
            return Err(WeightsError::NotRegistered);
        },
    };
    if has_duplicate_uids(&uids) {
        return Err(WeightsError::DuplicateUids);
    }
    if contains_invalid_uids(ctx.n, &uids) {
        return Err(WeightsError::InvalidUid);
    }
    if is_self_weight(uid, &uids) {
        return Err(WeightsError::NoSelfWeight);
    }
    if uids.len() < ctx.min_allowed_weights as usize {
        return Err(WeightsError::NotSettingEnoughWeights);
    }
    if uids.len() > ctx.max_allowed_weights as usize {
        return Err(WeightsError::TooManyUids);
    }
    let normalized = normalize_weights(values);
    let mut zipped_weights: Vec<(u16, u16)> = Vec::new();
    let mut i: usize = 0;
    while i < uids.len()
        invariant
            i <= uids.len(),
            uids.len() == normalized.len(),
            zipped_weights.len() == i,
            forall|k: int|
                0 <= k < i ==> #[trigger] zipped_weights@[k] == (uids@[k], normalized@[k]),
        decreases uids.len() - i,
    {
        zipped_weights.push((uids[i], normalized[i]));
        i += 1;
    }
    assert(zipped_weights@ =~= zipped(uids@, normalized@));
    Ok(WeightsSet { uid, weights: zipped_weights, last_update: ctx.current_block })
}

} // verus!
