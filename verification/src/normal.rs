//! What normalisation guarantees.
//!
//! A vector of numbers that are not negative, whose sum the type can hold,
//! sums after normalisation to one, or to zero where every number was zero.
//! Each quotient is rounded down by less than `2^-32`, so the sum falls
//! short of one by less than `2^-32` times the length of the vector.
use crate::fixed::{trunc_div, unit32, Fixed32};
use crate::math::{all_zero, flagged, masked, normalized, normalized_by, sum32};
use crate::sparse::{
    filter_map_row, filter_map_rows, newer_than, off_diagonal, row_normalized, row_sums,
    rows_masked, scaled_by_row, values_of, Entry,
};
use crate::params::fixed_row;
use crate::yuma::{active_stake_of, counted_weights};
use vstd::arithmetic::div_mod::{
    lemma_div_is_ordered, lemma_div_multiples_vanish, lemma_fundamental_div_mod, lemma_mod_bound,
};
use vstd::prelude::*;

verus! {

/// The sum of the raw bits of the numbers.
pub open spec fn bit_sum(s: Seq<Fixed32>) -> int
    decreases s.len(),
{
    if s.len() == 0 {
        0
    } else {
        bit_sum(s.drop_last()) + s.last().bits
    }
}

/// Whether no number of `s` is negative.
pub open spec fn non_negative(s: Seq<Fixed32>) -> bool {
    forall|i: int| 0 <= i < s.len() ==> (#[trigger] s[i]).bits >= 0
}

/// Whether the numbers are not negative and their sum is in the range of the
/// type.
pub open spec fn summable(s: Seq<Fixed32>) -> bool {
    non_negative(s) && bit_sum(s) <= i64::MAX
}

/// Whether the numbers sum to zero, or to one within `2^-32` for each of
/// them.
pub open spec fn sums_to_one_or_zero(s: Seq<Fixed32>) -> bool {
    bit_sum(s) == 0 || unit32() - s.len() < bit_sum(s) <= unit32()
}

pub(crate) proof fn lemma_bit_sum_bounds(s: Seq<Fixed32>, i: int)
    requires
        non_negative(s),
        0 <= i < s.len(),
    ensures
        0 <= s[i].bits <= bit_sum(s),
        0 <= bit_sum(s.drop_last()) <= bit_sum(s),
    decreases s.len(),
{
    if s.len() > 1 {
        if i < s.len() - 1 {
            lemma_bit_sum_bounds(s.drop_last(), i);
        } else {
            lemma_bit_sum_bounds(s.drop_last(), 0);
        }
    } else {
        assert(s.drop_last().len() == 0);
        assert(bit_sum(s.drop_last()) == 0);
    }
    assert(s.last() == s[s.len() - 1]);
    assert(forall|j: int| 0 <= j < s.len() - 1 ==> s.drop_last()[j] == s[j]);
}

/// The sum of numbers that can be summed is exact.
pub proof fn lemma_sum_exact(s: Seq<Fixed32>)
    requires
        summable(s),
    ensures
        sum32(s).bits == bit_sum(s),
        bit_sum(s) >= 0,
    decreases s.len(),
{
    if s.len() > 0 {
        lemma_bit_sum_bounds(s, 0);
        lemma_sum_exact(s.drop_last());
    }
}

pub(crate) proof fn lemma_quotient_bounds(a: Fixed32, d: Fixed32)
    requires
        0 <= a.bits <= d.bits,
        0 < d.bits,
    ensures
        0 <= a.div_or_zero(d).bits <= unit32(),
        d.bits * a.div_or_zero(d).bits <= a.bits * unit32(),
        a.bits * unit32() <= d.bits * a.div_or_zero(d).bits + d.bits - 1,
{
    let n = a.bits * unit32();
    let dd = d.bits as int;
    let q = n / dd;
    assert(trunc_div(n, dd) == q);
    lemma_fundamental_div_mod(n, dd);
    lemma_mod_bound(n, dd);
    assert(n <= dd * unit32()) by (nonlinear_arith)
        requires
            n == a.bits * unit32(),
            a.bits <= dd,
    ;
    lemma_div_is_ordered(n, dd * unit32(), dd);
    lemma_div_multiples_vanish(unit32(), dd);
    assert((dd * unit32()) / dd == unit32());
    assert(q >= 0) by (nonlinear_arith)
        requires
            n >= 0,
            dd > 0,
            q == n / dd,
    ;
}

pub(crate) proof fn lemma_normalized_prefix(s: Seq<Fixed32>, d: Fixed32, k: int)
    requires
        non_negative(s),
        0 < d.bits,
        forall|i: int| 0 <= i < s.len() ==> (#[trigger] s[i]).bits <= d.bits,
        0 <= k <= s.len(),
    ensures
        non_negative(normalized_by(s, d).take(k)),
        d.bits * bit_sum(normalized_by(s, d).take(k)) <= unit32() * bit_sum(s.take(k)),
        unit32() * bit_sum(s.take(k)) <= d.bits * bit_sum(normalized_by(s, d).take(k)) + k * (
        d.bits - 1),
    decreases k,
{
    let t = normalized_by(s, d);
    if k > 0 {
        lemma_normalized_prefix(s, d, k - 1);
        assert(t.take(k).drop_last() =~= t.take(k - 1));
        assert(s.take(k).drop_last() =~= s.take(k - 1));
        lemma_quotient_bounds(s[k - 1], d);
        let q = t[k - 1].bits as int;
        let a = s[k - 1].bits as int;
        let qs = bit_sum(t.take(k - 1));
        let ss = bit_sum(s.take(k - 1));
        let dd = d.bits as int;
        assert(bit_sum(t.take(k)) == qs + q);
        assert(bit_sum(s.take(k)) == ss + a);
        assert(dd * (qs + q) == dd * qs + dd * q) by (nonlinear_arith);
        assert(unit32() * (ss + a) == unit32() * ss + a * unit32()) by (nonlinear_arith);
        assert(k * (dd - 1) == (k - 1) * (dd - 1) + (dd - 1)) by (nonlinear_arith);
        assert forall|i: int| 0 <= i < t.take(k).len() implies (#[trigger] t.take(k)[i]).bits
            >= 0 by {
            if i < k - 1 {
                assert(t.take(k)[i] == t.take(k - 1)[i]);
            }
        }
    }
}

/// Numbers that can be summed sum to zero exactly where each of them is
/// zero.
pub proof fn lemma_zero_sum(s: Seq<Fixed32>)
    requires
        summable(s),
    ensures
        sum32(s).bits == 0 <==> all_zero(s),
    decreases s.len(),
{
    lemma_sum_exact(s);
    if s.len() > 0 {
        lemma_bit_sum_bounds(s, 0);
        lemma_zero_sum(s.drop_last());
        lemma_sum_exact(s.drop_last());
        assert(s.last() == s[s.len() - 1]);
        if all_zero(s.drop_last()) && s.last().bits == 0 {
            assert forall|i: int| 0 <= i < s.len() implies (#[trigger] s[i]).bits == 0 by {
                if i < s.len() - 1 {
                    assert(s.drop_last()[i] == s[i]);
                }
            }
        }
        if all_zero(s) {
            assert forall|i: int| 0 <= i < s.drop_last().len() implies (
            #[trigger] s.drop_last()[i]).bits == 0 by {
                assert(s.drop_last()[i] == s[i]);
            }
        }
    }
}

/// A vector of numbers that can be summed sums after normalisation to one
/// or to zero: to zero where every number is zero, and else to one, short
/// of it by less than `2^-32` for each number. No number is above one.
pub proof fn lemma_normalized_sums_to_one(s: Seq<Fixed32>)
    requires
        summable(s),
    ensures
        normalized(s).len() == s.len(),
        non_negative(normalized(s)),
        sums_to_one_or_zero(normalized(s)),
        all_zero(s) ==> bit_sum(normalized(s)) == 0,
        !all_zero(s) ==> unit32() - s.len() < bit_sum(normalized(s)) <= unit32(),
        forall|i: int| 0 <= i < s.len() ==> 0 <= (#[trigger] normalized(s)[i]).bits <= unit32(),
{
    lemma_zero_sum(s);
    assert forall|i: int| 0 <= i < s.len() implies 0 <= (#[trigger] normalized(s)[i]).bits
        <= unit32() by {
        lemma_sum_exact(s);
        lemma_bit_sum_bounds(s, i);
        if sum32(s).bits != 0 {
            lemma_quotient_bounds(s[i], sum32(s));
        }
    }
    lemma_sum_exact(s);
    let d = sum32(s);
    if d.bits != 0 {
        let n = s.len() as int;
        assert forall|i: int| 0 <= i < s.len() implies (#[trigger] s[i]).bits <= d.bits by {
            lemma_bit_sum_bounds(s, i);
        }
        lemma_normalized_prefix(s, d, n);
        let t = normalized(s);
        assert(t.take(n) =~= t);
        assert(s.take(n) =~= s);
        let q = bit_sum(t);
        let dd = d.bits as int;
        assert(q <= unit32()) by (nonlinear_arith)
            requires
                dd * q <= unit32() * dd,
                dd > 0,
        ;
        assert(n > 0);
        assert(q > unit32() - n) by (nonlinear_arith)
            requires
                unit32() * dd <= dd * q + n * (dd - 1),
                dd > 0,
                n > 0,
        ;
    }
}

pub(crate) proof fn lemma_masked_summable(mask: Seq<bool>, s: Seq<Fixed32>, k: int)
    requires
        non_negative(s),
        0 <= k <= s.len(),
    ensures
        non_negative(masked(mask, s)),
        0 <= bit_sum(masked(mask, s).take(k)) <= bit_sum(s.take(k)),
    decreases k,
{
    if k > 0 {
        lemma_masked_summable(mask, s, k - 1);
        assert(masked(mask, s).take(k).drop_last() =~= masked(mask, s).take(k - 1));
        assert(s.take(k).drop_last() =~= s.take(k - 1));
    }
}

/// The stake that is kept for an epoch: that of the active participants,
/// and only of validators where validators are limited.
pub open spec fn kept_stake(
    stake: Seq<Fixed32>,
    inactive: Seq<bool>,
    restricted: bool,
    forbid: Seq<bool>,
) -> Seq<Fixed32> {
    if restricted {
        masked(forbid, masked(inactive, stake))
    } else {
        masked(inactive, stake)
    }
}

/// Normalisation keeps proportions: for two numbers of a vector, the one
/// normalised times the other differs from the other normalised times the
/// one by less than one of the two numbers.
pub proof fn lemma_normalized_keeps_proportions(s: Seq<Fixed32>, i: int, k: int)
    requires
        summable(s),
        0 <= i < s.len(),
        0 <= k < s.len(),
    ensures
        -s[k].bits <= normalized(s)[i].bits * s[k].bits - normalized(s)[k].bits * s[i].bits
            <= s[i].bits,
{
    lemma_sum_exact(s);
    lemma_bit_sum_bounds(s, i);
    lemma_bit_sum_bounds(s, k);
    let d = sum32(s);
    if d.bits != 0 {
        lemma_quotient_bounds(s[i], d);
        lemma_quotient_bounds(s[k], d);
        let ri = normalized(s)[i].bits as int;
        let rk = normalized(s)[k].bits as int;
        let si = s[i].bits as int;
        let sk = s[k].bits as int;
        let dd = d.bits as int;
        assert(ri * sk - rk * si <= si && ri * sk - rk * si >= -sk) by (nonlinear_arith)
            requires
                dd > 0,
                0 <= si,
                0 <= sk,
                0 <= ri,
                0 <= rk,
                dd * ri <= si * unit32(),
                si * unit32() <= dd * ri + dd - 1,
                dd * rk <= sk * unit32(),
                sk * unit32() <= dd * rk + dd - 1,
        ;
    }
}

/// The active stake of an epoch sums to one, or to zero where no stake is
/// active, whenever the stake of the snapshot can be summed. It is zero for
/// every participant that is left out, and sums to zero exactly where no
/// participant that is kept has stake.
pub proof fn lemma_active_stake_sums_to_one(
    stake: Seq<Fixed32>,
    inactive: Seq<bool>,
    restricted: bool,
    forbid: Seq<bool>,
)
    requires
        summable(stake),
    ensures
        active_stake_of(stake, inactive, restricted, forbid).len() == stake.len(),
        active_stake_of(stake, inactive, restricted, forbid) == normalized(
            kept_stake(stake, inactive, restricted, forbid),
        ),
        summable(kept_stake(stake, inactive, restricted, forbid)),
        non_negative(active_stake_of(stake, inactive, restricted, forbid)),
        sums_to_one_or_zero(active_stake_of(stake, inactive, restricted, forbid)),
        forall|i: int|
            0 <= i < stake.len() ==> 0 <= (#[trigger] active_stake_of(
                stake,
                inactive,
                restricted,
                forbid,
            )[i]).bits <= unit32(),
        forall|i: int|
            0 <= i < stake.len() && (flagged(inactive, i) || (restricted && flagged(forbid, i)))
                ==> (#[trigger] active_stake_of(stake, inactive, restricted, forbid)[i]).bits == 0,
        all_zero(kept_stake(stake, inactive, restricted, forbid)) ==> bit_sum(
            active_stake_of(stake, inactive, restricted, forbid),
        ) == 0,
        !all_zero(kept_stake(stake, inactive, restricted, forbid)) ==> unit32() - stake.len()
            < bit_sum(active_stake_of(stake, inactive, restricted, forbid)) <= unit32(),
{
    lemma_kept_stake(stake, inactive, restricted, forbid);
    let n = stake.len() as int;
    let active = masked(inactive, stake);
    lemma_masked_summable(inactive, stake, n);
    assert(active.take(n) =~= active);
    assert(stake.take(n) =~= stake);
    if restricted {
        let permitted = masked(forbid, active);
        lemma_masked_summable(forbid, active, n);
        assert(permitted.take(n) =~= permitted);
        lemma_normalized_sums_to_one(permitted);
    } else {
        lemma_normalized_sums_to_one(active);
    }
}

/// Whether `f` only drops entries of row `i`: an entry that it keeps, it
/// keeps as it is.
pub open spec fn only_drops(f: spec_fn(int, Entry) -> Option<Entry>, i: int) -> bool {
    forall|e: Entry| #[trigger] f(i, e) is None || f(i, e) == Some(e)
}

pub(crate) proof fn lemma_dropping_keeps_summable(
    row: Seq<Entry>,
    i: int,
    f: spec_fn(int, Entry) -> Option<Entry>,
)
    requires
        only_drops(f, i),
        non_negative(values_of(row)),
    ensures
        non_negative(values_of(filter_map_row(row, i, f))),
        0 <= bit_sum(values_of(filter_map_row(row, i, f))) <= bit_sum(values_of(row)),
    decreases row.len(),
{
    let kept = filter_map_row(row, i, f);
    if row.len() > 0 {
        let rest = filter_map_row(row.drop_last(), i, f);
        assert(values_of(row).drop_last() =~= values_of(row.drop_last()));
        assert forall|k: int| 0 <= k < values_of(row.drop_last()).len() implies (
        #[trigger] values_of(row.drop_last())[k]).bits >= 0 by {
            assert(values_of(row.drop_last())[k] == values_of(row)[k]);
        }
        lemma_dropping_keeps_summable(row.drop_last(), i, f);
        assert(values_of(row).last() == row.last().1);
        assert(values_of(row)[row.len() - 1].bits >= 0);
        assert(f(i, row.last()) is None || f(i, row.last()) == Some(row.last()));
        if f(i, row.last()) is Some {
            assert(kept == rest.push(row.last()));
            assert(values_of(kept).drop_last() =~= values_of(rest));
            assert(values_of(kept).last() == row.last().1);
            assert forall|k: int| 0 <= k < values_of(kept).len() implies (#[trigger] values_of(
                kept,
            )[k]).bits >= 0 by {
                if k < rest.len() {
                    assert(values_of(kept)[k] == values_of(rest)[k]);
                }
            }
        }
    }
}

pub(crate) proof fn lemma_scaled_row(row: Seq<Entry>, i: int, sums: Seq<Fixed32>, k: int)
    requires
        0 <= k <= row.len(),
        0 <= i < sums.len(),
        sums[i].bits >= 0,
    ensures
        values_of(filter_map_row(row.take(k), i, scaled_by_row(sums))) == normalized_by(
            values_of(row),
            sums[i],
        ).take(k),
    decreases k,
{
    let f = scaled_by_row(sums);
    if k > 0 {
        lemma_scaled_row(row, i, sums, k - 1);
        assert(row.take(k).drop_last() =~= row.take(k - 1));
        assert(row.take(k).last() == row[k - 1]);
        let before = filter_map_row(row.take(k - 1), i, f);
        let now = filter_map_row(row.take(k), i, f);
        assert(f(i, row[k - 1]) is Some);
        let scaled = f(i, row[k - 1])->0;
        assert(now == before.push(scaled));
        assert(values_of(now) =~= values_of(before).push(scaled.1));
        assert(values_of(now) =~= normalized_by(values_of(row), sums[i]).take(k));
    } else {
        assert(values_of(filter_map_row(row.take(0), i, f)) =~= normalized_by(
            values_of(row),
            sums[i],
        ).take(0));
    }
}

/// A row of weights that can be summed sums after the normalisation of the
/// rows to one, or to zero where it held no weight.
pub proof fn lemma_row_normalized_sums_to_one(m: Seq<Seq<Entry>>, i: int)
    requires
        0 <= i < m.len(),
        summable(values_of(m[i])),
    ensures
        non_negative(values_of(row_normalized(m)[i])),
        sums_to_one_or_zero(values_of(row_normalized(m)[i])),
{
    let row = m[i];
    let sums = row_sums(m);
    lemma_sum_exact(values_of(row));
    lemma_scaled_row(row, i, sums, row.len() as int);
    assert(row.take(row.len() as int) =~= row);
    assert(normalized_by(values_of(row), sums[i]).take(row.len() as int) =~= normalized(
        values_of(row),
    ));
    lemma_normalized_sums_to_one(values_of(row));
}

/// Every row of the weights that count in an epoch sums to one or to zero,
/// whenever the row that the epoch was given can be summed.
pub proof fn lemma_counted_weights_sum_to_one(
    raw: Seq<Seq<Entry>>,
    restricted: bool,
    forbid: Seq<bool>,
    last_update: Seq<u64>,
    registration: Seq<u64>,
    i: int,
)
    requires
        0 <= i < raw.len(),
        summable(values_of(raw[i])),
    ensures
        non_negative(
            values_of(counted_weights(raw, restricted, forbid, last_update, registration)[i]),
        ),
        sums_to_one_or_zero(
            values_of(counted_weights(raw, restricted, forbid, last_update, registration)[i]),
        ),
        forall|k: int|
            0 <= k < counted_weights(raw, restricted, forbid, last_update, registration)[i].len()
                ==> 0 <= (#[trigger] counted_weights(
                raw,
                restricted,
                forbid,
                last_update,
                registration,
            )[i][k]).1.bits <= unit32(),
{
    assert forall|k: int|
        0 <= k < counted_weights(raw, restricted, forbid, last_update, registration)[i].len()
        implies 0 <= (#[trigger] counted_weights(
        raw,
        restricted,
        forbid,
        last_update,
        registration,
    )[i][k]).1.bits <= unit32() by {
        lemma_counted_entries(raw, restricted, forbid, last_update, registration, i, k);
    }
    lemma_counted_row(raw, restricted, forbid, last_update, registration, i);
}

proof fn lemma_kept_stake(
    stake: Seq<Fixed32>,
    inactive: Seq<bool>,
    restricted: bool,
    forbid: Seq<bool>,
)
    requires
        summable(stake),
    ensures
        summable(kept_stake(stake, inactive, restricted, forbid)),
        forall|i: int|
            0 <= i < stake.len() && (flagged(inactive, i) || (restricted && flagged(forbid, i)))
                ==> (#[trigger] normalized(kept_stake(stake, inactive, restricted, forbid))[i]).bits
                == 0,
{
    let n = stake.len() as int;
    let active = masked(inactive, stake);
    lemma_masked_summable(inactive, stake, n);
    assert(active.take(n) =~= active);
    assert(stake.take(n) =~= stake);
    let kept = kept_stake(stake, inactive, restricted, forbid);
    if restricted {
        lemma_masked_summable(forbid, active, n);
        assert(kept.take(n) =~= kept);
    }
    lemma_sum_exact(kept);
    assert forall|i: int|
        0 <= i < stake.len() && (flagged(inactive, i) || (restricted && flagged(
            forbid,
            i,
        ))) implies (#[trigger] normalized(kept)[i]).bits == 0 by {
        assert(kept[i].bits == 0);
        if sum32(kept).bits != 0 {
            lemma_quotient_bounds(kept[i], sum32(kept));
        }
    }
}

/// Shares of a whole, fewer than `2^31` of them, can be summed.
pub proof fn lemma_shares_summable(s: Seq<Fixed32>)
    requires
        s.len() < 0x8000_0000,
        forall|i: int| 0 <= i < s.len() ==> 0 <= (#[trigger] s[i]).bits <= unit32(),
    ensures
        summable(s),
    decreases s.len(),
{
    if s.len() > 0 {
        assert forall|i: int| 0 <= i < s.drop_last().len() implies 0 <= (
        #[trigger] s.drop_last()[i]).bits <= unit32() by {
            assert(s.drop_last()[i] == s[i]);
        }
        lemma_shares_summable(s.drop_last());
        lemma_values_bound(s, unit32());
    }
}

/// A row of at most 32768 weights, as the ledger holds them, can be summed.
pub proof fn lemma_weight_row_summable(row: Seq<(u16, u16)>)
    requires
        row.len() <= 32768,
    ensures
        summable(values_of(fixed_row(row))),
{
    let values = values_of(fixed_row(row));
    assert forall|i: int| 0 <= i < values.len() implies 0 <= (#[trigger] values[i]).bits <= 65535
        * unit32() by {
        assert(values[i].bits == row[i].1 * unit32());
        assert(0 <= row[i].1 * unit32() <= 65535 * unit32()) by (nonlinear_arith)
            requires
                0 <= row[i].1 <= 65535,
                unit32() == 0x1_0000_0000,
        ;
    }
    lemma_values_bound(values, 65535 * unit32());
    assert(values.len() * (65535 * unit32()) <= 32768 * (65535 * unit32())) by (nonlinear_arith)
        requires
            values.len() <= 32768,
            unit32() == 0x1_0000_0000,
    ;
}

proof fn lemma_values_bound(s: Seq<Fixed32>, bound: int)
    requires
        forall|i: int| 0 <= i < s.len() ==> 0 <= (#[trigger] s[i]).bits <= bound,
    ensures
        non_negative(s),
        0 <= bit_sum(s) <= s.len() * bound,
    decreases s.len(),
{
    if s.len() > 0 {
        assert forall|i: int| 0 <= i < s.drop_last().len() implies 0 <= (
        #[trigger] s.drop_last()[i]).bits <= bound by {
            assert(s.drop_last()[i] == s[i]);
        }
        lemma_values_bound(s.drop_last(), bound);
        assert(s.last() == s[s.len() - 1]);
        assert(s.len() * bound == (s.len() - 1) * bound + bound) by (nonlinear_arith);
    }
}

proof fn lemma_counted_entries(
    raw: Seq<Seq<Entry>>,
    restricted: bool,
    forbid: Seq<bool>,
    last_update: Seq<u64>,
    registration: Seq<u64>,
    i: int,
    k: int,
)
    requires
        0 <= i < raw.len(),
        summable(values_of(raw[i])),
        0 <= k < counted_weights(raw, restricted, forbid, last_update, registration)[i].len(),
    ensures
        0 <= counted_weights(raw, restricted, forbid, last_update, registration)[i][k].1.bits
            <= unit32(),
{
    let row = counted_weights(raw, restricted, forbid, last_update, registration)[i];
    lemma_counted_row(raw, restricted, forbid, last_update, registration, i);
    lemma_bit_sum_bounds(values_of(row), k);
    assert(values_of(row)[k] == row[k].1);
}

proof fn lemma_counted_row(
    raw: Seq<Seq<Entry>>,
    restricted: bool,
    forbid: Seq<bool>,
    last_update: Seq<u64>,
    registration: Seq<u64>,
    i: int,
)
    requires
        0 <= i < raw.len(),
        summable(values_of(raw[i])),
    ensures
        non_negative(
            values_of(counted_weights(raw, restricted, forbid, last_update, registration)[i]),
        ),
        sums_to_one_or_zero(
            values_of(counted_weights(raw, restricted, forbid, last_update, registration)[i]),
        ),
{
    let permitted = if restricted {
        rows_masked(forbid, raw)
    } else {
        raw
    };
    assert(bit_sum(values_of(Seq::<Entry>::empty())) == 0);
    assert(summable(values_of(permitted[i])));
    let off = filter_map_rows(permitted, off_diagonal());
    lemma_dropping_keeps_summable(permitted[i], i, off_diagonal());
    let fresh = filter_map_rows(off, newer_than(last_update, registration));
    lemma_dropping_keeps_summable(off[i], i, newer_than(last_update, registration));
    lemma_row_normalized_sums_to_one(fresh, i);
}

} // verus!
