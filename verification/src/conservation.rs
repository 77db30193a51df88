//! An epoch hands out no more than it has.
//!
//! Where the stake of a snapshot is normalised and the weights that the
//! epoch is given can be summed row by row, incentive and dividends each sum
//! to one at most, and so do the shares of the emission. Each share is
//! turned into tokens by rounding down, so the tokens sum to the emission at
//! most.
use crate::fixed::{trunc_div, unit32, unit64, Fixed32, Fixed64};
use crate::math::{at_or_zero, normalized, normalized_by, sum32, sum64};
use crate::normal::{
    bit_sum, lemma_bit_sum_bounds, lemma_normalized_prefix, lemma_normalized_sums_to_one,
    lemma_sum_exact, non_negative, summable,
};
use crate::normal::lemma_quotient_bounds;
use crate::sparse::{
    add_scaled, add_value, clipped_to, col_normalized, col_sums, dot_row, filter_map_row,
    fold_col, fold_row_col, mat_ema, matmul, matmul_transpose, scaled_by_col, sparsified,
    values_of, Entry,
};
use crate::median::weighted_median_cols;
use crate::normal::{lemma_active_stake_sums_to_one, lemma_counted_weights_sum_to_one};
use crate::params::{
    bond_rows_of, forbids_of, last_updates_of, registrations_of, stake_shares, stakes_of,
    Snapshot,
};
use crate::sparse::{ema_row, filter_map_rows, row_or_empty, square_columns};
use crate::yuma::{
    active_stake_of, bonds_delta, conserves, counted_weights, ema_alpha, ema_bonds_of,
    emission_sum, emitted, epoch, fallback_shares, inactive_flags, prepared_weights,
    prior_bonds, server_shares_of, sums_of, token_amounts, tokens_of, total,
    validator_shares_of,
};
use vstd::arithmetic::div_mod::{
    lemma_div_is_ordered, lemma_div_multiples_vanish, lemma_fundamental_div_mod, lemma_mod_bound,
};
use vstd::prelude::*;

verus! {

/// Whether the numbers are not negative and sum to one at most.
pub open spec fn at_most_one(s: Seq<Fixed32>) -> bool {
    non_negative(s) && bit_sum(s) <= unit32()
}

/// The tokens that shares make are at most the shares' part of the pool.
pub proof fn lemma_tokens_within_shares(s: Seq<Fixed32>, pool: u64)
    requires
        non_negative(s),
    ensures
        0 <= total(token_amounts(s, pool)),
        unit32() * total(token_amounts(s, pool)) <= pool * bit_sum(s),
    decreases s.len(),
{
    let t = token_amounts(s, pool);
    if s.len() > 0 {
        lemma_bit_sum_bounds(s, 0);
        assert(non_negative(s.drop_last())) by {
            assert forall|i: int| 0 <= i < s.drop_last().len() implies (
            #[trigger] s.drop_last()[i]).bits >= 0 by {
                assert(s.drop_last()[i] == s[i]);
            }
        }
        lemma_tokens_within_shares(s.drop_last(), pool);
        assert(t.drop_last() =~= token_amounts(s.drop_last(), pool));
        let f = s.last().bits as int;
        let amount = tokens_of(s.last(), pool) as int;
        assert(s[s.len() - 1].bits >= 0);
        assert(unit32() * amount <= pool * f) by {
            if f > 0 {
                let n = f * pool;
                lemma_fundamental_div_mod(n, unit32());
                lemma_mod_bound(n, unit32());
                assert(amount <= n / unit32());
                assert(unit32() * amount <= unit32() * (n / unit32())) by (nonlinear_arith)
                    requires
                        amount <= n / unit32(),
                ;
                assert(f * pool == pool * f) by (nonlinear_arith);
            } else {
                assert(pool * f == 0) by (nonlinear_arith)
                    requires
                        f == 0,
                ;
            }
        }
        let rest = total(t.drop_last());
        let sum = bit_sum(s.drop_last());
        assert(total(t) == rest + amount);
        assert(bit_sum(s) == sum + f);
        assert(unit32() * (rest + amount) == unit32() * rest + unit32() * amount)
            by (nonlinear_arith);
        assert(pool * (sum + f) == pool * sum + pool * f) by (nonlinear_arith);
    } else {
        assert(pool * bit_sum(s) == 0) by (nonlinear_arith)
            requires
                bit_sum(s) == 0,
        ;
    }
}

/// Shares that sum to one at most make no more tokens than the pool holds.
pub proof fn lemma_tokens_within_pool(s: Seq<Fixed32>, pool: u64)
    requires
        at_most_one(s),
    ensures
        0 <= total(token_amounts(s, pool)) <= pool,
{
    lemma_tokens_within_shares(s, pool);
    lemma_sum_exact(s);
    let t = total(token_amounts(s, pool));
    let b = bit_sum(s);
    assert(t <= pool) by (nonlinear_arith)
        requires
            unit32() * t <= pool * b,
            0 <= b <= unit32(),
            0 <= pool,
            unit32() == 0x1_0000_0000,
    ;
}

proof fn lemma_sums_of_exact(a: Seq<Fixed32>, b: Seq<Fixed32>, k: int)
    requires
        at_most_one(a),
        at_most_one(b),
        a.len() == b.len(),
        0 <= k <= a.len(),
    ensures
        non_negative(sums_of(a, b)),
        bit_sum(sums_of(a, b).take(k)) == bit_sum(a.take(k)) + bit_sum(b.take(k)),
        forall|i: int|
            0 <= i < a.len() ==> (#[trigger] sums_of(a, b)[i]).bits == a[i].bits + b[i].bits,
    decreases k,
{
    assert forall|i: int| 0 <= i < a.len() implies (#[trigger] sums_of(a, b)[i]).bits == a[i].bits
        + b[i].bits by {
        lemma_bit_sum_bounds(a, i);
        lemma_bit_sum_bounds(b, i);
    }
    if k > 0 {
        lemma_sums_of_exact(a, b, k - 1);
        assert(sums_of(a, b).take(k).drop_last() =~= sums_of(a, b).take(k - 1));
        assert(a.take(k).drop_last() =~= a.take(k - 1));
        assert(b.take(k).drop_last() =~= b.take(k - 1));
    }
}

/// Incentive and dividends that each sum to one at most make shares for
/// servers and validators that together sum to one at most.
pub proof fn lemma_split_shares(incentives: Seq<Fixed32>, dividends: Seq<Fixed32>)
    requires
        at_most_one(incentives),
        at_most_one(dividends),
        incentives.len() == dividends.len(),
    ensures
        ({
            let sum = sum32(sums_of(incentives, dividends));
            let server = normalized_by(incentives, sum);
            let validator = normalized_by(dividends, sum);
            &&& non_negative(server)
            &&& non_negative(validator)
            &&& sum.bits != 0 ==> bit_sum(server) + bit_sum(validator) <= unit32()
            &&& sum.bits == 0 ==> bit_sum(server) == 0
        }),
{
    let n = incentives.len() as int;
    let both = sums_of(incentives, dividends);
    lemma_sums_of_exact(incentives, dividends, n);
    assert(both.take(n) =~= both);
    assert(incentives.take(n) =~= incentives);
    assert(dividends.take(n) =~= dividends);
    lemma_sum_exact(both);
    let sum = sum32(both);
    let server = normalized_by(incentives, sum);
    let validator = normalized_by(dividends, sum);
    if n > 0 {
        lemma_bit_sum_bounds(incentives, 0);
        lemma_bit_sum_bounds(dividends, 0);
    }
    if sum.bits != 0 {
        assert forall|i: int| 0 <= i < n implies (#[trigger] incentives[i]).bits <= sum.bits by {
            lemma_bit_sum_bounds(incentives, i);
        }
        assert forall|i: int| 0 <= i < n implies (#[trigger] dividends[i]).bits <= sum.bits by {
            lemma_bit_sum_bounds(dividends, i);
        }
        lemma_normalized_prefix(incentives, sum, n);
        lemma_normalized_prefix(dividends, sum, n);
        assert(server.take(n) =~= server);
        assert(validator.take(n) =~= validator);
        let d = sum.bits as int;
        let qs = bit_sum(server);
        let qv = bit_sum(validator);
        let si = bit_sum(incentives);
        let sd = bit_sum(dividends);
        assert(qs + qv <= unit32()) by (nonlinear_arith)
            requires
                d * qs <= unit32() * si,
                d * qv <= unit32() * sd,
                d == si + sd,
                d > 0,
        ;
    } else {
        assert(bit_sum(incentives) == 0);
    }
}

/// The tokens of servers and validators together do not exceed the pool,
/// where incentive, dividends, stake and active stake each sum to one at
/// most.
pub proof fn lemma_emission_within_pool(
    stake: Seq<Fixed32>,
    active_stake: Seq<Fixed32>,
    incentives: Seq<Fixed32>,
    dividends: Seq<Fixed32>,
    pool: u64,
)
    requires
        at_most_one(stake),
        at_most_one(active_stake),
        at_most_one(incentives),
        at_most_one(dividends),
        incentives.len() == dividends.len(),
    ensures
        total(token_amounts(server_shares_of(incentives, dividends), pool)) + total(
            token_amounts(validator_shares_of(stake, active_stake, incentives, dividends), pool),
        ) <= pool,
{
    let server = server_shares_of(incentives, dividends);
    let validator = validator_shares_of(stake, active_stake, incentives, dividends);
    lemma_split_shares(incentives, dividends);
    lemma_tokens_within_shares(server, pool);
    let ts = total(token_amounts(server, pool));
    let tv = total(token_amounts(validator, pool));
    if emission_sum(incentives, dividends).bits == 0 {
        assert(validator == fallback_shares(stake, active_stake));
        lemma_tokens_within_pool(validator, pool);
        assert(ts <= 0) by (nonlinear_arith)
            requires
                unit32() * ts <= pool * bit_sum(server),
                bit_sum(server) == 0,
                unit32() == 0x1_0000_0000,
        ;
    } else {
        lemma_tokens_within_shares(validator, pool);
        let qs = bit_sum(server);
        let qv = bit_sum(validator);
        assert(ts + tv <= pool) by (nonlinear_arith)
            requires
                unit32() * ts <= pool * qs,
                unit32() * tv <= pool * qv,
                qs + qv <= unit32(),
                0 <= pool,
                unit32() == 0x1_0000_0000,
        ;
    }
}

/// Whether the values of a row are not negative and sum to one at most.
pub open spec fn row_at_most_one(row: Seq<Entry>) -> bool {
    at_most_one(values_of(row))
}

/// Whether `f` keeps no value of row `i` above what it was, and none below
/// zero.
pub open spec fn shrinks(f: spec_fn(int, Entry) -> Option<Entry>, i: int) -> bool {
    forall|e: Entry|
        e.1.bits >= 0 ==> #[trigger] f(i, e) is None || 0 <= (f(i, e)->0).1.bits <= e.1.bits
}

proof fn lemma_values_drop_last(row: Seq<Entry>)
    requires
        row.len() > 0,
        non_negative(values_of(row)),
    ensures
        values_of(row).drop_last() == values_of(row.drop_last()),
        non_negative(values_of(row.drop_last())),
        row.last().1.bits >= 0,
        bit_sum(values_of(row)) == bit_sum(values_of(row.drop_last())) + row.last().1.bits,
        0 <= bit_sum(values_of(row.drop_last())) <= bit_sum(values_of(row)),
{
    assert(values_of(row).drop_last() =~= values_of(row.drop_last()));
    assert(values_of(row).last() == row.last().1);
    assert(values_of(row)[row.len() - 1].bits >= 0);
    assert forall|k: int| 0 <= k < values_of(row.drop_last()).len() implies (#[trigger] values_of(
        row.drop_last(),
    )[k]).bits >= 0 by {
        assert(values_of(row.drop_last())[k] == values_of(row)[k]);
    }
    lemma_bit_sum_bounds(values_of(row), 0);
}

proof fn lemma_shrinking_row(row: Seq<Entry>, i: int, f: spec_fn(int, Entry) -> Option<Entry>)
    requires
        shrinks(f, i),
        non_negative(values_of(row)),
    ensures
        non_negative(values_of(filter_map_row(row, i, f))),
        0 <= bit_sum(values_of(filter_map_row(row, i, f))) <= bit_sum(values_of(row)),
    decreases row.len(),
{
    let kept = filter_map_row(row, i, f);
    if row.len() > 0 {
        lemma_values_drop_last(row);
        let rest = filter_map_row(row.drop_last(), i, f);
        lemma_shrinking_row(row.drop_last(), i, f);
        assert(f(i, row.last()) is None || 0 <= (f(i, row.last())->0).1.bits <= row.last().1.bits);
        if f(i, row.last()) is Some {
            let e = f(i, row.last())->0;
            assert(kept == rest.push(e));
            assert(values_of(kept).drop_last() =~= values_of(rest));
            assert(values_of(kept).last() == e.1);
            assert forall|k: int| 0 <= k < values_of(kept).len() implies (#[trigger] values_of(
                kept,
            )[k]).bits >= 0 by {
                if k < rest.len() {
                    assert(values_of(kept)[k] == values_of(rest)[k]);
                }
            }
        }
    }
}

/// Weights clipped to a consensus stay weights: none is negative, and a row
/// sums to no more than before.
pub proof fn lemma_clipped_row(row: Seq<Entry>, i: int, consensus: Seq<Fixed32>)
    requires
        row_at_most_one(row),
    ensures
        row_at_most_one(filter_map_row(row, i, clipped_to(consensus))),
{
    lemma_shrinking_row(row, i, clipped_to(consensus));
}

proof fn lemma_product_bound(s: Fixed32, v: Fixed32)
    requires
        0 <= s.bits <= unit32(),
        0 <= v.bits <= unit32(),
    ensures
        0 <= s.mul_spec(v).bits <= s.bits,
        0 <= s.mul_spec(v).bits <= v.bits,
        unit32() * s.mul_spec(v).bits <= s.bits * v.bits,
{
    let n = s.bits * v.bits;
    assert(0 <= n <= s.bits * unit32()) by (nonlinear_arith)
        requires
            n == s.bits * v.bits,
            0 <= s.bits,
            0 <= v.bits <= unit32(),
    ;
    assert(n <= v.bits * unit32()) by (nonlinear_arith)
        requires
            n == s.bits * v.bits,
            0 <= v.bits,
            0 <= s.bits <= unit32(),
    ;
    lemma_fundamental_div_mod(n, unit32());
    lemma_mod_bound(n, unit32());
    let q = n / unit32();
    assert(unit32() * q <= n);
    assert(q <= s.bits) by (nonlinear_arith)
        requires
            unit32() * q <= n,
            n <= s.bits * unit32(),
            unit32() == 0x1_0000_0000,
    ;
    assert(q <= v.bits) by (nonlinear_arith)
        requires
            unit32() * q <= n,
            n <= v.bits * unit32(),
            unit32() == 0x1_0000_0000,
    ;
    assert(q >= 0) by (nonlinear_arith)
        requires
            n >= 0,
            q == n / unit32(),
            unit32() == 0x1_0000_0000,
    ;
}

proof fn lemma_row_rank(row: Seq<Entry>, j: int, i: int, stake: Seq<Fixed32>, acc: Fixed32)
    requires
        row_at_most_one(row),
        0 <= at_or_zero(stake, i).bits <= unit32(),
        0 <= acc.bits,
        acc.bits + at_or_zero(stake, i).bits <= i64::MAX,
    ensures
        acc.bits <= fold_row_col(row, j, i, add_scaled(stake), acc).bits,
        unit32() * (fold_row_col(row, j, i, add_scaled(stake), acc).bits - acc.bits) <= at_or_zero(
            stake,
            i,
        ).bits * bit_sum(values_of(row)),
        fold_row_col(row, j, i, add_scaled(stake), acc).bits <= acc.bits + at_or_zero(
            stake,
            i,
        ).bits,
    decreases row.len(),
{
    let s = at_or_zero(stake, i);
    let f = add_scaled(stake);
    let now = fold_row_col(row, j, i, f, acc);
    let whole = bit_sum(values_of(row));
    if row.len() > 0 {
        lemma_values_drop_last(row);
        lemma_row_rank(row.drop_last(), j, i, stake, acc);
        let before = fold_row_col(row.drop_last(), j, i, f, acc);
        let part = bit_sum(values_of(row.drop_last()));
        let v = row.last().1;
        assert(v.bits <= whole);
        if row.last().0 == j {
            lemma_product_bound(s, v);
            let p = s.mul_spec(v).bits as int;
            assert(now == before.add_spec(s.mul_spec(v)));
            assert(s.bits * whole == s.bits * part + s.bits * v.bits) by (nonlinear_arith)
                requires
                    whole == part + v.bits,
            ;
            assert(unit32() * (before.bits + p - acc.bits) == unit32() * (before.bits - acc.bits)
                + unit32() * p) by (nonlinear_arith);
            assert(before.bits + p - acc.bits <= s.bits) by (nonlinear_arith)
                requires
                    unit32() * (before.bits + p - acc.bits) <= s.bits * whole,
                    0 <= whole <= unit32(),
                    0 <= s.bits,
                    unit32() == 0x1_0000_0000,
            ;
        } else {
            assert(s.bits * part <= s.bits * whole) by (nonlinear_arith)
                requires
                    part <= whole,
                    0 <= s.bits,
            ;
        }
    } else {
        assert(s.bits * whole == 0) by (nonlinear_arith)
            requires
                whole == 0,
        ;
    }
    assert(now.bits - acc.bits <= s.bits) by (nonlinear_arith)
        requires
            unit32() * (now.bits - acc.bits) <= s.bits * whole,
            0 <= whole <= unit32(),
            0 <= s.bits,
            unit32() == 0x1_0000_0000,
    ;
}

proof fn lemma_prefix_sum_step(s: Seq<Fixed32>, k: int)
    requires
        non_negative(s),
        0 <= k < s.len(),
    ensures
        bit_sum(s.take(k + 1)) == bit_sum(s.take(k)) + s[k].bits,
        0 <= bit_sum(s.take(k)),
        bit_sum(s.take(k + 1)) <= bit_sum(s),
    decreases s.len() - k,
{
    assert(s.take(k + 1).drop_last() =~= s.take(k));
    assert(non_negative(s.take(k))) by {
        assert forall|q: int| 0 <= q < s.take(k).len() implies (#[trigger] s.take(k)[q]).bits
            >= 0 by {
            assert(s.take(k)[q] == s[q]);
        }
    }
    if k > 0 {
        lemma_bit_sum_bounds(s.take(k), 0);
    }
    if k + 1 < s.len() {
        lemma_prefix_sum_step(s, k + 1);
    } else {
        assert(s.take(k + 1) =~= s);
    }
}

proof fn lemma_rank_bound(m: Seq<Seq<Entry>>, stake: Seq<Fixed32>, j: int, upto: int)
    requires
        at_most_one(stake),
        m.len() == stake.len(),
        0 <= upto <= m.len(),
        forall|i: int| 0 <= i < m.len() ==> row_at_most_one(#[trigger] m[i]),
    ensures
        0 <= fold_col(m.take(upto), j, add_scaled(stake)).bits <= bit_sum(stake.take(upto)),
        bit_sum(stake.take(upto)) <= unit32(),
    decreases upto,
{
    if upto > 0 {
        lemma_rank_bound(m, stake, j, upto - 1);
        lemma_prefix_sum_step(stake, upto - 1);
        assert(m.take(upto).drop_last() =~= m.take(upto - 1));
        assert(m.take(upto).last() == m[upto - 1]);
        let acc = fold_col(m.take(upto - 1), j, add_scaled(stake));
        lemma_bit_sum_bounds(stake, upto - 1);
        lemma_row_rank(m[upto - 1], j, upto - 1, stake, acc);
    } else {
        assert(stake.take(0).len() == 0);
        lemma_sum_exact(stake);
    }
}

proof fn lemma_bounded_sum(s: Seq<Fixed32>, bound: int)
    requires
        forall|i: int| 0 <= i < s.len() ==> 0 <= (#[trigger] s[i]).bits <= bound,
    ensures
        non_negative(s),
        0 <= bit_sum(s) <= s.len() * bound,
    decreases s.len(),
{
    if s.len() > 0 {
        assert forall|i: int| 0 <= i < s.drop_last().len() implies 0 <= (
        #[trigger] s.drop_last()[i]).bits <= bound by {
            assert(s.drop_last()[i] == s[i]);
        }
        lemma_bounded_sum(s.drop_last(), bound);
        assert(s.last() == s[s.len() - 1]);
        assert(s.len() * bound == (s.len() - 1) * bound + bound) by (nonlinear_arith);
    }
}

/// The incentive of an epoch sums to one at most, where the active stake
/// and every row of the weights do.
pub proof fn lemma_incentive_at_most_one(m: Seq<Seq<Entry>>, stake: Seq<Fixed32>)
    requires
        at_most_one(stake),
        m.len() == stake.len(),
        m.len() <= 65535,
        forall|i: int| 0 <= i < m.len() ==> row_at_most_one(#[trigger] m[i]),
    ensures
        at_most_one(normalized(matmul(m, stake, m.len()))),
{
    let ranks = matmul(m, stake, m.len());
    assert forall|j: int| 0 <= j < ranks.len() implies 0 <= (#[trigger] ranks[j]).bits
        <= unit32() by {
        lemma_rank_bound(m, stake, j, m.len() as int);
        assert(m.take(m.len() as int) =~= m);
    }
    lemma_bounded_sum(ranks, unit32());
    assert(ranks.len() * unit32() <= 65535 * unit32()) by (nonlinear_arith)
        requires
            ranks.len() <= 65535,
            unit32() == 0x1_0000_0000,
    ;
    lemma_normalized_sums_to_one(ranks);
}

/// Whether the entries of a row name columns below `n` in ascending order,
/// each once, with values above zero.
pub open spec fn ascending_positive(row: Seq<Entry>, n: int) -> bool {
    &&& forall|k: int| 0 <= k < row.len() ==> (#[trigger] row[k]).0 < n && row[k].1.bits > 0
    &&& forall|a: int, b: int|
        0 <= a < b < row.len() ==> (#[trigger] row[a]).0 < (#[trigger] row[b]).0
}

/// Whether the entries of a row name columns below `n` in ascending order,
/// each once, with values from zero to one.
pub open spec fn ascending_unit(row: Seq<Entry>, n: int) -> bool {
    &&& forall|k: int|
        0 <= k < row.len() ==> (#[trigger] row[k]).0 < n && 0 <= row[k].1.bits <= unit32()
    &&& forall|a: int, b: int|
        0 <= a < b < row.len() ==> (#[trigger] row[a]).0 < (#[trigger] row[b]).0
}

proof fn lemma_sparsified_ascending(dense: Seq<Fixed32>)
    requires
        dense.len() <= 65536,
    ensures
        ascending_positive(sparsified(dense), dense.len() as int),
    decreases dense.len(),
{
    if dense.len() > 0 {
        lemma_sparsified_ascending(dense.drop_last());
        let rest = sparsified(dense.drop_last());
        let row = sparsified(dense);
        if dense.last().bits > 0 {
            assert(row == rest.push(((dense.len() - 1) as u16, dense.last())));
            assert forall|k: int| 0 <= k < row.len() implies (#[trigger] row[k]).0 < dense.len()
                && row[k].1.bits > 0 by {
                if k < rest.len() {
                    assert(row[k] == rest[k]);
                }
            }
            assert forall|a: int, b: int| 0 <= a < b < row.len() implies (#[trigger] row[a]).0 < (
            #[trigger] row[b]).0 by {
                assert(row[a] == rest[a]);
                if b < rest.len() {
                    assert(row[b] == rest[b]);
                }
            }
        }
    }
}

/// Whether no value of the matrix is negative.
pub open spec fn entries_non_negative(m: Seq<Seq<Entry>>) -> bool {
    forall|i: int, k: int|
        0 <= i < m.len() && 0 <= k < m[i].len() ==> (#[trigger] m[i][k]).1.bits >= 0
}

proof fn lemma_row_sum_dominates(row: Seq<Entry>, j: int, i: int, acc: Fixed32, k: int)
    requires
        forall|q: int| 0 <= q < row.len() ==> (#[trigger] row[q]).1.bits >= 0,
        acc.bits >= 0,
        -1 <= k < row.len(),
    ensures
        fold_row_col(row, j, i, add_value(), acc).bits >= acc.bits,
        0 <= k && row[k].0 == j ==> fold_row_col(row, j, i, add_value(), acc).bits
            >= row[k].1.bits,
    decreases row.len(),
{
    if row.len() > 0 {
        assert forall|q: int| 0 <= q < row.drop_last().len() implies (
        #[trigger] row.drop_last()[q]).1.bits >= 0 by {
            assert(row.drop_last()[q] == row[q]);
        }
        assert(row.last() == row[row.len() - 1]);
        if k < row.len() - 1 {
            lemma_row_sum_dominates(row.drop_last(), j, i, acc, k);
            if k >= 0 {
                assert(row.drop_last()[k] == row[k]);
            }
        } else {
            lemma_row_sum_dominates(row.drop_last(), j, i, acc, -1);
        }
    }
}

proof fn lemma_col_sum_dominates(m: Seq<Seq<Entry>>, j: int, i: int, k: int)
    requires
        entries_non_negative(m),
        -1 <= i < m.len(),
        i >= 0 ==> 0 <= k < m[i].len() && m[i][k].0 == j,
    ensures
        fold_col(m, j, add_value()).bits >= 0,
        i >= 0 ==> fold_col(m, j, add_value()).bits >= m[i][k].1.bits,
    decreases m.len(),
{
    if m.len() > 0 {
        assert(entries_non_negative(m.drop_last())) by {
            assert forall|r: int, q: int|
                0 <= r < m.drop_last().len() && 0 <= q < m.drop_last()[r].len() implies (
            #[trigger] m.drop_last()[r][q]).1.bits >= 0 by {
                assert(m.drop_last()[r][q] == m[r][q]);
            }
        }
        let last = m.len() - 1;
        assert(m.last() == m[last]);
        assert forall|q: int| 0 <= q < m[last].len() implies (#[trigger] m[last][q]).1.bits
            >= 0 by {}
        if i < last {
            lemma_col_sum_dominates(m.drop_last(), j, i, k);
            if i >= 0 {
                assert(m.drop_last()[i] == m[i]);
            }
            lemma_row_sum_dominates(m[last], j, last, fold_col(m.drop_last(), j, add_value()), -1);
        } else {
            lemma_col_sum_dominates(m.drop_last(), j, -1, 0);
            lemma_row_sum_dominates(m[last], j, last, fold_col(m.drop_last(), j, add_value()), k);
        }
    }
}

proof fn lemma_col_scaled_row(m: Seq<Seq<Entry>>, n: nat, i: int, k: int)
    requires
        0 <= i < m.len(),
        0 <= k <= m[i].len(),
        forall|r: int| 0 <= r < m.len() ==> ascending_positive(#[trigger] m[r], n as int),
    ensures
        filter_map_row(m[i].take(k), i, scaled_by_col(col_sums(m, n))).len() == k,
        forall|q: int|
            0 <= q < k ==> (#[trigger] filter_map_row(
                m[i].take(k),
                i,
                scaled_by_col(col_sums(m, n)),
            )[q]).0 == m[i][q].0 && 0 <= filter_map_row(
                m[i].take(k),
                i,
                scaled_by_col(col_sums(m, n)),
            )[q].1.bits <= unit32(),
    decreases k,
{
    let f = scaled_by_col(col_sums(m, n));
    let row = m[i];
    if k > 0 {
        lemma_col_scaled_row(m, n, i, k - 1);
        assert(row.take(k).drop_last() =~= row.take(k - 1));
        assert(row.take(k).last() == row[k - 1]);
        let e = row[k - 1];
        let j = e.0 as int;
        assert(entries_non_negative(m)) by {
            assert forall|r: int, q: int| 0 <= r < m.len() && 0 <= q < m[r].len() implies (
            #[trigger] m[r][q]).1.bits >= 0 by {
                assert(ascending_positive(m[r], n as int));
            }
        }
        lemma_col_sum_dominates(m, j, i, k - 1);
        let d = col_sums(m, n)[j];
        assert(d == fold_col(m, j, add_value()));
        lemma_quotient_bounds(e.1, d);
        let before = filter_map_row(row.take(k - 1), i, f);
        let now = filter_map_row(row.take(k), i, f);
        assert(f(i, e) == Some((e.0, e.1.div_or_zero(d))));
        assert(now == before.push((e.0, e.1.div_or_zero(d))));
        assert forall|q: int| 0 <= q < k implies (#[trigger] now[q]).0 == row[q].0 && 0
            <= now[q].1.bits <= unit32() by {
            if q < k - 1 {
                assert(now[q] == before[q]);
            }
        }
    }
}

/// A matrix of bonds whose columns have been normalised holds shares: each
/// row names its columns once, in ascending order, with values from zero
/// to one.
pub proof fn lemma_col_normalized_unit(m: Seq<Seq<Entry>>, n: nat, i: int)
    requires
        0 <= i < m.len(),
        forall|r: int| 0 <= r < m.len() ==> ascending_positive(#[trigger] m[r], n as int),
    ensures
        ascending_unit(col_normalized(m, n)[i], n as int),
{
    let row = m[i];
    lemma_col_scaled_row(m, n, i, row.len() as int);
    assert(row.take(row.len() as int) =~= row);
    let scaled = col_normalized(m, n)[i];
    assert(ascending_positive(row, n as int));
    assert forall|a: int, b: int| 0 <= a < b < scaled.len() implies (#[trigger] scaled[a]).0 < (
    #[trigger] scaled[b]).0 by {
        assert(row[a].0 < row[b].0);
    }
    assert forall|k: int| 0 <= k < scaled.len() implies (#[trigger] scaled[k]).0 < n && 0
        <= scaled[k].1.bits <= unit32() by {
        assert(row[k].0 < n);
    }
}

proof fn lemma_prefix_monotone(s: Seq<Fixed32>, a: int, b: int)
    requires
        non_negative(s),
        0 <= a <= b <= s.len(),
    ensures
        0 <= bit_sum(s.take(a)) <= bit_sum(s.take(b)),
        bit_sum(s.take(b)) <= bit_sum(s),
    decreases b - a,
{
    if a < b {
        lemma_prefix_sum_step(s, a);
        lemma_prefix_monotone(s, a + 1, b);
    } else {
        if b < s.len() {
            lemma_prefix_sum_step(s, b);
        } else {
            assert(s.take(b) =~= s);
            if s.len() > 0 {
                lemma_bit_sum_bounds(s, 0);
            }
        }
    }
}

proof fn lemma_dot_row_bound(row: Seq<Entry>, vector: Seq<Fixed32>)
    requires
        ascending_unit(row, vector.len() as int),
        at_most_one(vector),
    ensures
        0 <= dot_row(row, vector).bits,
        row.len() == 0 ==> dot_row(row, vector).bits == 0,
        row.len() > 0 ==> dot_row(row, vector).bits <= bit_sum(
            vector.take(row.last().0 as int + 1),
        ),
        dot_row(row, vector).bits <= bit_sum(vector),
    decreases row.len(),
{
    lemma_sum_exact(vector);
    if row.len() > 0 {
        let rest = row.drop_last();
        assert(ascending_unit(rest, vector.len() as int)) by {
            assert forall|k: int| 0 <= k < rest.len() implies (#[trigger] rest[k]).0 < vector.len()
                && 0 <= rest[k].1.bits <= unit32() by {
                assert(rest[k] == row[k]);
            }
            assert forall|a: int, b: int| 0 <= a < b < rest.len() implies (#[trigger] rest[a]).0 < (
            #[trigger] rest[b]).0 by {
                assert(rest[a] == row[a]);
                assert(rest[b] == row[b]);
            }
        }
        lemma_dot_row_bound(rest, vector);
        let last = row.len() - 1;
        assert(row.last() == row[last]);
        let j = row[last].0 as int;
        let e = row[last].1;
        let x = vector[j];
        lemma_bit_sum_bounds(vector, j);
        assert(at_or_zero(vector, j) == x);
        lemma_product_bound(x, e);
        let before = dot_row(rest, vector).bits as int;
        lemma_prefix_sum_step(vector, j);
        lemma_prefix_monotone(vector, j + 1, vector.len() as int);
        if rest.len() > 0 {
            assert(rest.last() == row[last - 1]);
            let c = row[last - 1].0 as int;
            assert(c < j);
            lemma_prefix_monotone(vector, c + 1, j);
        } else {
            lemma_prefix_monotone(vector, 0, j);
        }
        assert(before <= bit_sum(vector.take(j)));
    }
}

/// The dividends of an epoch sum to one at most, where the incentive does
/// and the bonds are shares of their columns.
pub proof fn lemma_dividends_at_most_one(bonds: Seq<Seq<Entry>>, incentives: Seq<Fixed32>)
    requires
        at_most_one(incentives),
        bonds.len() <= 65535,
        forall|i: int|
            0 <= i < bonds.len() ==> ascending_unit(#[trigger] bonds[i], incentives.len() as int),
    ensures
        at_most_one(normalized(matmul_transpose(bonds, incentives))),
{
    let raw = matmul_transpose(bonds, incentives);
    assert forall|i: int| 0 <= i < raw.len() implies 0 <= (#[trigger] raw[i]).bits
        <= unit32() by {
        assert(ascending_unit(bonds[i], incentives.len() as int));
        lemma_dot_row_bound(bonds[i], incentives);
    }
    lemma_bounded_sum(raw, unit32());
    assert(raw.len() * unit32() <= 65535 * unit32()) by (nonlinear_arith)
        requires
            raw.len() <= 65535,
            unit32() == 0x1_0000_0000,
    ;
    lemma_normalized_sums_to_one(raw);
}

/// Whether an epoch on the snapshot `p` with the weights `input` is sure to
/// hand out no more than it has: the participants stand at their uids, the
/// stake is normalised, and each row of weights can be summed.
pub open spec fn fit_for_epoch(p: Snapshot, input: Seq<(u16, Seq<(u16, u16)>)>) -> bool {
    &&& p.well_formed()
    &&& at_most_one(stakes_of(p.modules))
    &&& forall|i: int|
        0 <= i < p.modules.len() ==> summable(
            values_of(#[trigger] prepared_weights(input, p.modules.len())[i]),
        )
}

/// An epoch hands out no more than its emission: on a snapshot whose stake
/// is normalised, with weights that can be summed row by row, the tokens of
/// servers and validators together do not exceed the emission of the
/// participants.
pub proof fn lemma_epoch_conserves(p: Snapshot, input: Seq<(u16, Seq<(u16, u16)>)>)
    requires
        fit_for_epoch(p, input),
    ensures
        emitted(p, epoch(p, input)) <= p.token_emission,
        conserves(p, epoch(p, input)),
{
    let mods = p.modules;
    let n = mods.len();
    let restricted = p.max_allowed_validators is Some;
    let last_update = last_updates_of(mods);
    let registration = registrations_of(mods);
    let forbid = forbids_of(mods);
    let inactive = inactive_flags(last_update, p.activity_cutoff, p.current_block);
    let raw = prepared_weights(input, n);
    let counted = counted_weights(raw, restricted, forbid, last_update, registration);
    let stake = stakes_of(mods);
    let active = active_stake_of(stake, inactive, restricted, forbid);
    lemma_sum_exact(stake);
    lemma_active_stake_sums_to_one(stake, inactive, restricted, forbid);
    assert(at_most_one(active));
    let consensus = weighted_median_cols(active, counted, n, p.kappa);
    let weights = filter_map_rows(counted, clipped_to(consensus));
    assert forall|i: int| 0 <= i < weights.len() implies row_at_most_one(
        #[trigger] weights[i],
    ) by {
        assert(summable(values_of(raw[i])));
        lemma_counted_weights_sum_to_one(raw, restricted, forbid, last_update, registration, i);
        lemma_clipped_row(counted[i], i, consensus);
    }
    lemma_incentive_at_most_one(weights, active);
    let incentives = normalized(matmul(weights, active, n));
    let delta = bonds_delta(weights, active, n);
    let prior = prior_bonds(bond_rows_of(mods), last_update, registration, n);
    let alpha = ema_alpha(p.bonds_moving_average);
    let mixed = mat_ema(delta, prior, alpha);
    let ema = ema_bonds_of(delta, prior, alpha, n);
    assert(delta.len() == n);
    assert(square_columns(delta.len()) == n);
    assert forall|r: int| 0 <= r < mixed.len() implies ascending_positive(
        #[trigger] mixed[r],
        n as int,
    ) by {
        lemma_sparsified_ascending(ema_row(delta[r], row_or_empty(prior, r), r, alpha, n));
    }
    assert forall|i: int| 0 <= i < ema.len() implies ascending_unit(
        #[trigger] ema[i],
        incentives.len() as int,
    ) by {
        lemma_col_normalized_unit(mixed, n, i);
    }
    lemma_dividends_at_most_one(ema, incentives);
    let dividends = normalized(matmul_transpose(ema, incentives));
    lemma_emission_within_pool(stake, active, incentives, dividends, p.token_emission);
    let e = epoch(p, input);
    assert(e.server_shares == server_shares_of(incentives, dividends));
    assert(e.validator_shares == validator_shares_of(stake, active, incentives, dividends));
}

/// The amounts of stake as fixed-point numbers.
pub open spec fn wide_stake(stake: Seq<u64>) -> Seq<Fixed64> {
    Seq::new(stake.len(), |i: int| Fixed64::of_u64(stake[i]))
}

proof fn lemma_total_bounds(stake: Seq<u64>, i: int)
    requires
        0 <= i < stake.len(),
    ensures
        0 <= stake[i] <= total(stake),
        0 <= total(stake.drop_last()) <= total(stake),
    decreases stake.len(),
{
    if stake.len() > 1 {
        if i < stake.len() - 1 {
            lemma_total_bounds(stake.drop_last(), i);
        } else {
            lemma_total_bounds(stake.drop_last(), 0);
        }
    } else {
        assert(total(stake.drop_last()) == 0);
    }
    assert(stake.last() == stake[stake.len() - 1]);
    assert(forall|j: int| 0 <= j < stake.len() - 1 ==> stake.drop_last()[j] == stake[j]);
}

proof fn lemma_wide_sum_exact(stake: Seq<u64>)
    requires
        total(stake) <= i64::MAX,
    ensures
        sum64(wide_stake(stake)).bits == total(stake) * unit64(),
        total(stake) >= 0,
    decreases stake.len(),
{
    if stake.len() > 0 {
        lemma_total_bounds(stake, 0);
        lemma_total_bounds(stake, stake.len() - 1);
        lemma_wide_sum_exact(stake.drop_last());
        assert(wide_stake(stake).drop_last() =~= wide_stake(stake.drop_last()));
        let v = stake.last() as int;
        let rest = total(stake.drop_last());
        assert(wide_stake(stake).last().bits == v * unit64());
        assert((rest + v) * unit64() == rest * unit64() + v * unit64()) by (nonlinear_arith);
        assert((rest + v) * unit64() <= i128::MAX) by (nonlinear_arith)
            requires
                0 <= rest + v <= 0x7fff_ffff_ffff_ffff,
                unit64() == 0x1_0000_0000_0000_0000,
        ;
        assert(rest * unit64() >= 0 && v * unit64() >= 0) by (nonlinear_arith)
            requires
                rest >= 0,
                v >= 0,
                unit64() == 0x1_0000_0000_0000_0000,
        ;
    } else {
        assert(total(stake) * unit64() == 0) by (nonlinear_arith)
            requires
                total(stake) == 0,
        ;
    }
}

proof fn lemma_share_bounds(v: int, whole: int)
    requires
        0 <= v <= whole,
        0 < whole <= i64::MAX,
    ensures
        ({
            let share = Fixed32::of_fixed64(
                Fixed64 { bits: (v * unit64()) as i128 }.div_or_zero(
                    Fixed64 { bits: (whole * unit64()) as i128 },
                ),
            );
            &&& 0 <= share.bits <= unit32()
            &&& whole * share.bits <= v * unit32()
        }),
{
    let a = v * unit64();
    let d = whole * unit64();
    assert(0 <= a <= d && d <= i128::MAX && d > 0) by (nonlinear_arith)
        requires
            0 <= v <= whole,
            0 < whole <= 0x7fff_ffff_ffff_ffff,
            a == v * unit64(),
            d == whole * unit64(),
            unit64() == 0x1_0000_0000_0000_0000,
    ;
    let n = a * unit64();
    let w = n / d;
    assert(n >= 0 && n <= d * unit64()) by (nonlinear_arith)
        requires
            0 <= a <= d,
            n == a * unit64(),
            unit64() == 0x1_0000_0000_0000_0000,
    ;
    assert(trunc_div(n, d) == w);
    lemma_fundamental_div_mod(n, d);
    lemma_mod_bound(n, d);
    lemma_div_is_ordered(n, d * unit64(), d);
    lemma_div_multiples_vanish(unit64(), d);
    assert((d * unit64()) / d == unit64());
    assert(w >= 0) by (nonlinear_arith)
        requires
            n >= 0,
            d > 0,
            w == n / d,
    ;
    assert(d * w <= n);
    let x = w / unit32();
    lemma_fundamental_div_mod(w, unit32());
    lemma_mod_bound(w, unit32());
    assert(unit32() * x <= w);
    assert(0 <= x <= unit32()) by (nonlinear_arith)
        requires
            unit32() * x <= w,
            0 <= w <= unit64(),
            x == w / unit32(),
            unit32() == 0x1_0000_0000,
            unit64() == 0x1_0000_0000_0000_0000,
    ;
    assert(whole * x <= v * unit32()) by (nonlinear_arith)
        requires
            d * w <= n,
            n == a * unit64(),
            a == v * unit64(),
            d == whole * unit64(),
            unit32() * x <= w,
            whole > 0,
            x >= 0,
            w >= 0,
            v >= 0,
            unit32() == 0x1_0000_0000,
            unit64() == 0x1_0000_0000_0000_0000,
    ;
}

proof fn lemma_stake_shares_prefix(stake: Seq<u64>, k: int)
    requires
        0 < total(stake) <= i64::MAX,
        0 <= k <= stake.len(),
    ensures
        non_negative(stake_shares(stake).take(k)),
        total(stake) * bit_sum(stake_shares(stake).take(k)) <= unit32() * total(stake.take(k)),
        0 <= total(stake.take(k)) <= total(stake),
    decreases k,
{
    let shares = stake_shares(stake);
    if k > 0 {
        lemma_stake_shares_prefix(stake, k - 1);
        lemma_wide_sum_exact(stake);
        lemma_total_bounds(stake, k - 1);
        assert(shares.take(k).drop_last() =~= shares.take(k - 1));
        assert(stake.take(k).drop_last() =~= stake.take(k - 1));
        let v = stake[k - 1] as int;
        let whole = total(stake);
        lemma_share_bounds(v, whole);
        let wide = wide_stake(stake);
        assert(wide[k - 1].bits == v * unit64()) by {
            assert(v * unit64() <= i128::MAX) by (nonlinear_arith)
                requires
                    0 <= v <= 0x7fff_ffff_ffff_ffff,
                    unit64() == 0x1_0000_0000_0000_0000,
            ;
        }
        assert(sum64(wide).bits != 0) by (nonlinear_arith)
            requires
                sum64(wide).bits == whole * unit64(),
                whole > 0,
                unit64() == 0x1_0000_0000_0000_0000,
        ;
        let x = shares[k - 1].bits as int;
        assert(shares[k - 1] == Fixed32::of_fixed64(wide[k - 1].div_or_zero(sum64(wide))));
        let before = bit_sum(shares.take(k - 1));
        let part = total(stake.take(k - 1));
        assert(bit_sum(shares.take(k)) == before + x);
        assert(total(stake.take(k)) == part + v);
        assert(whole * (before + x) == whole * before + whole * x) by (nonlinear_arith);
        assert(unit32() * (part + v) == unit32() * part + v * unit32()) by (nonlinear_arith);
        assert forall|i: int| 0 <= i < shares.take(k).len() implies (#[trigger] shares.take(
            k,
        )[i]).bits >= 0 by {
            if i < k - 1 {
                assert(shares.take(k)[i] == shares.take(k - 1)[i]);
            }
        }
        lemma_total_prefix(stake, k);
    } else {
        assert(stake.take(0).len() == 0);
        assert(total(stake) * bit_sum(shares.take(0)) == 0) by (nonlinear_arith)
            requires
                bit_sum(shares.take(0)) == 0,
        ;
    }
}

proof fn lemma_total_prefix(stake: Seq<u64>, k: int)
    requires
        0 <= k <= stake.len(),
    ensures
        0 <= total(stake.take(k)) <= total(stake),
    decreases stake.len() - k,
{
    if k < stake.len() {
        lemma_total_prefix(stake, k + 1);
        assert(stake.take(k + 1).drop_last() =~= stake.take(k));
        if k > 0 {
            lemma_total_bounds(stake.take(k), 0);
        }
    } else {
        assert(stake.take(k) =~= stake);
        if k > 0 {
            lemma_total_bounds(stake, 0);
        }
    }
}

/// The shares of the stake that a snapshot is given sum to one at most,
/// where the stake in tokens sums to less than `2^63`.
pub proof fn lemma_stake_shares_at_most_one(stake: Seq<u64>)
    requires
        total(stake) <= i64::MAX,
    ensures
        at_most_one(stake_shares(stake)),
{
    let shares = stake_shares(stake);
    let n = stake.len() as int;
    lemma_wide_sum_exact(stake);
    let wide = wide_stake(stake);
    if total(stake) == 0 {
        assert forall|i: int| 0 <= i < n implies (#[trigger] shares[i]).bits == 0 by {
            lemma_total_bounds(stake, i);
            assert(wide[i].bits == 0);
        }
        lemma_bounded_sum(shares, 0);
    } else {
        lemma_stake_shares_prefix(stake, n);
        assert(shares.take(n) =~= shares);
        assert(stake.take(n) =~= stake);
        let whole = total(stake);
        let q = bit_sum(shares);
        assert(q <= unit32()) by (nonlinear_arith)
            requires
                whole * q <= unit32() * whole,
                whole > 0,
        ;
    }
}

} // verus!
