//! The bonds that a copier starts with where none are on record: the
//! average of the validators' bonds, weighted by stake.
//!
//! The library works out whose bonds count and with which weight, and adds
//! the weighted bonds up target by target. The weighting itself, a product
//! of a bond and a weight rounded to the nearest integer, is left to the
//! caller.
use crate::fixed::Fixed64;
use crate::params::{copy_vec, ModuleKey, ModuleView, YumaParams};
use vstd::prelude::*;

verus! {

/// How the average bonds of a snapshot come about.
#[derive(Debug)]
pub enum BondAveraging {
    /// No validator, or no stake on the validators: no bonds.
    Empty,
    /// One validator: its bonds.
    Sole(Vec<(u16, u16)>),
    /// Several validators: the bonds of each, to be weighted by its share
    /// of their stake.
    Weighted(Vec<(Fixed64, Vec<(u16, u16)>)>),
}

/// The validators among the first `upto` participants, each with its stake
/// and its bonds.
pub open spec fn validators_of(mods: Seq<(ModuleKey, ModuleView)>, upto: int) -> Seq<
    (Fixed64, Seq<(u16, u16)>),
>
    decreases upto,
{
    if upto <= 0 {
        Seq::empty()
    } else {
        let rest = validators_of(mods, upto - 1);
        if mods[upto - 1].1.validator_permit {
            rest.push((mods[upto - 1].1.stake_original, mods[upto - 1].1.bonds))
        } else {
            rest
        }
    }
}

/// The sum of two numbers, or the first where the sum is out of range.
pub open spec fn add_or_keep(a: Fixed64, b: Fixed64) -> Fixed64 {
    if i128::MIN <= a.bits + b.bits <= i128::MAX {
        Fixed64 { bits: (a.bits + b.bits) as i128 }
    } else {
        a
    }
}

/// The stake of the first `upto` validators, a stake that would take the
/// sum out of range left out.
pub open spec fn validator_stake(validators: Seq<(Fixed64, Seq<(u16, u16)>)>, upto: int) -> Fixed64
    decreases upto,
{
    if upto <= 0 {
        Fixed64::zero()
    } else {
        add_or_keep(validator_stake(validators, upto - 1), validators[upto - 1].0)
    }
}

/// The validators with their share of the validators' stake in place of
/// their stake.
pub open spec fn weighted_validators(validators: Seq<(Fixed64, Seq<(u16, u16)>)>) -> Seq<
    (Fixed64, Seq<(u16, u16)>),
> {
    let total = validator_stake(validators, validators.len() as int);
    Seq::new(validators.len(), |i: int| (validators[i].0.div_or_zero(total), validators[i].1))
}

/// Weighted bonds as plain values.
pub open spec fn weighted_view(rows: Seq<(Fixed64, Vec<(u16, u16)>)>) -> Seq<
    (Fixed64, Seq<(u16, u16)>),
> {
    Seq::new(rows.len(), |i: int| (rows[i].0, rows[i].1@))
}

/// Whether `r` is how the average bonds of the participants `mods` come
/// about.
pub open spec fn is_bond_averaging(mods: Seq<(ModuleKey, ModuleView)>, r: BondAveraging) -> bool {
    let validators = validators_of(mods, mods.len() as int);
    let total = validator_stake(validators, validators.len() as int);
    match r {
        BondAveraging::Empty => validators.len() == 0 || (validators.len() > 1 && total.bits == 0),
        BondAveraging::Sole(bonds) => validators.len() == 1 && bonds@ == validators[0].1,
        BondAveraging::Weighted(rows) => validators.len() > 1 && total.bits != 0 && weighted_view(
            rows@,
        ) == weighted_validators(validators),
    }
}

/// Works out whose bonds make the average bonds of a snapshot, and with
/// which weight.
pub fn bond_averaging(consensus_params: &YumaParams) -> (r: BondAveraging)
    ensures
        is_bond_averaging(consensus_params@.modules, r),
{
    let ghost mods = consensus_params@.modules;
    let mut stakes: Vec<Fixed64> = Vec::new();
    let mut bonds: Vec<Vec<(u16, u16)>> = Vec::new();
    let mut i: usize = 0;
    while i < consensus_params.modules.len()
        invariant
            i <= consensus_params.modules.len(),
            mods == consensus_params@.modules,
            stakes.len() == bonds.len(),
            stakes.len() == validators_of(mods, i as int).len(),
            forall|k: int|
                0 <= k < stakes.len() ==> (stakes@[k], (#[trigger] bonds@[k])@) == validators_of(
                    mods,
                    i as int,
                )[k],
        decreases consensus_params.modules.len() - i,
    {
        assert(mods[i as int] == (
            consensus_params.modules@[i as int].0,
            consensus_params.modules@[i as int].1@,
        ));
        if consensus_params.modules[i].1.validator_permit {
            stakes.push(consensus_params.modules[i].1.stake_original);
            bonds.push(copy_vec(&consensus_params.modules[i].1.bonds));
        }
        i += 1;
    }
    let ghost validators = validators_of(mods, mods.len() as int);
    let count = stakes.len();
    assert forall|q: int| 0 <= q < count implies (stakes@[q], (#[trigger] bonds@[q])@)
        == validators[q] by {}
    assert forall|q: int| 0 <= q < count implies #[trigger] stakes@[q] == validators[q].0 by {
        assert((stakes@[q], bonds@[q]@) == validators[q]);
    }
    if count == 0 {
        return BondAveraging::Empty;
    }
    if count == 1 {
        return BondAveraging::Sole(copy_vec(&bonds[0]));
    }
    let mut total = Fixed64::from_bits(0);
    let mut k: usize = 0;
    while k < count
        invariant
            k <= count,
            count == stakes.len(),
            count == validators.len(),
            forall|q: int| 0 <= q < count ==> #[trigger] stakes@[q] == validators[q].0,
            total == validator_stake(validators, k as int),
        decreases count - k,
    {
        total = match total.bits.checked_add(stakes[k].bits) {
            Some(sum) => Fixed64::from_bits(sum),
            None => total,
        };
        k += 1;
    }
    if total.bits == 0 {
        return BondAveraging::Empty;
    }
    let mut rows: Vec<(Fixed64, Vec<(u16, u16)>)> = Vec::new();
    let mut k: usize = 0;
    while k < count
        invariant
            k <= count,
            count == stakes.len(),
            count == bonds.len(),
            count == validators.len(),
            total == validator_stake(validators, count as int),
            forall|q: int|
                0 <= q < count ==> (stakes@[q], (#[trigger] bonds@[q])@) == validators[q],
            rows.len() == k,
            forall|q: int|
                0 <= q < k ==> #[trigger] weighted_view(rows@)[q] == weighted_validators(
                    validators,
                )[q],
        decreases count - k,
    {
        let ghost before = weighted_view(rows@);
        rows.push((stakes[k].div_or_default(total), copy_vec(&bonds[k])));
        assert forall|q: int| 0 <= q < k + 1 implies #[trigger] weighted_view(rows@)[q]
            == weighted_validators(validators)[q] by {
            if q < k {
                assert(weighted_view(rows@)[q] == before[q]);
            }
        }
        k += 1;
    }
    assert(weighted_view(rows@) =~= weighted_validators(validators));
    BondAveraging::Weighted(rows)
}

/// What the entries of a row on the target `t` make of the sum so far:
/// whether the target has occurred, and the sum of its values, held at
/// 65535.
pub open spec fn target_sum_row(row: Seq<(u16, u16)>, t: int, acc: (bool, u16)) -> (bool, u16)
    decreases row.len(),
{
    if row.len() == 0 {
        acc
    } else {
        let before = target_sum_row(row.drop_last(), t, acc);
        if row.last().0 == t {
            (
                true,
                if before.1 + row.last().1 > u16::MAX {
                    u16::MAX
                } else {
                    (before.1 + row.last().1) as u16
                },
            )
        } else {
            before
        }
    }
}

/// Whether the target `t` occurs in the rows, and the sum of its values.
pub open spec fn target_sum(rows: Seq<Seq<(u16, u16)>>, t: int) -> (bool, u16)
    decreases rows.len(),
{
    if rows.len() == 0 {
        (false, 0)
    } else {
        target_sum_row(rows.last(), t, target_sum(rows.drop_last(), t))
    }
}

/// The targets below `upto` that occur in the rows, in ascending order, each
/// with the sum of its values.
pub open spec fn summed_bonds(rows: Seq<Seq<(u16, u16)>>, upto: int) -> Seq<(u16, u16)>
    decreases upto,
{
    if upto <= 0 {
        Seq::empty()
    } else {
        let rest = summed_bonds(rows, upto - 1);
        if target_sum(rows, upto - 1).0 {
            rest.push(((upto - 1) as u16, target_sum(rows, upto - 1).1))
        } else {
            rest
        }
    }
}

/// The rows of bonds as sequences.
pub open spec fn bond_rows(rows: Seq<Vec<(u16, u16)>>) -> Seq<Seq<(u16, u16)>> {
    Seq::new(rows.len(), |i: int| rows[i]@)
}

/// Adds weighted bonds up target by target. The targets come out in
/// ascending order, each with the sum of its bonds, held at 65535.
pub fn sum_weighted_bonds(rows: &Vec<Vec<(u16, u16)>>) -> (r: Vec<(u16, u16)>)
    ensures
        r@ == summed_bonds(bond_rows(rows@), 65536),
{
    let ghost all = bond_rows(rows@);
    let mut seen: Vec<bool> = Vec::new();
    let mut sums: Vec<u16> = Vec::new();
    let mut t: usize = 0;
    while t < 65536
        invariant
            t <= 65536,
            seen.len() == t,
            sums.len() == t,
            forall|q: int| 0 <= q < t ==> !(#[trigger] seen@[q]) && sums@[q] == 0,
        decreases 65536 - t,
    {
        seen.push(false);
        sums.push(0);
        t += 1;
    }
    let mut i: usize = 0;
    while i < rows.len()
        invariant
            i <= rows.len(),
            all == bond_rows(rows@),
            seen.len() == 65536,
            sums.len() == 65536,
            forall|q: int|
                0 <= q < 65536 ==> (#[trigger] seen@[q], sums@[q]) == target_sum(
                    all.take(i as int),
                    q,
                ),
        decreases rows.len() - i,
    {
        let row = &rows[i];
        let ghost seen_before = seen@;
        let ghost sums_before = sums@;
        let mut k: usize = 0;
        while k < row.len()
            invariant
                k <= row.len(),
                seen.len() == 65536,
                sums.len() == 65536,
                seen_before.len() == 65536,
                sums_before.len() == 65536,
                forall|q: int|
                    0 <= q < 65536 ==> (#[trigger] seen@[q], sums@[q]) == target_sum_row(
                        row@.take(k as int),
                        q,
                        (seen_before[q], sums_before[q]),
                    ),
            decreases row.len() - k,
        {
            assert(row@.take(k + 1).drop_last() =~= row@.take(k as int));
            let (target, value) = row[k];
            let j = target as usize;
            let sum = sums[j].saturating_add(value);
            seen[j] = true;
            sums[j] = sum;
            k += 1;
        }
        proof {
            assert(row@.take(row.len() as int) =~= row@);
            assert(all.take(i + 1).drop_last() =~= all.take(i as int));
            assert(all.take(i + 1).last() == row@);
        }
        i += 1;
    }
    assert(all.take(rows.len() as int) =~= all);
    let mut out: Vec<(u16, u16)> = Vec::new();
    let mut t: usize = 0;
    while t < 65536
        invariant
            t <= 65536,
            seen.len() == 65536,
            sums.len() == 65536,
            forall|q: int| 0 <= q < 65536 ==> (#[trigger] seen@[q], sums@[q]) == target_sum(all, q),
            out@ == summed_bonds(all, t as int),
        decreases 65536 - t,
    {
        if seen[t] {
            out.push((t as u16, sums[t]));
        }
        t += 1;
    }
    out
}

} // verus!
