//! The stake-weighted median of each column of a score matrix.
//!
//! Only rows with stake above zero take part. Their stake is normalised to
//! weights that sum to one. The median of a column at the quantile that
//! `majority` names is the least score of the column at or below which more
//! than `1 - majority` of the weight lies.
use crate::fixed::{unit32, Fixed32};
use crate::math::{inplace_normalize, normalized, sum32, vec_sum};
use crate::sparse::{fold_row_col, last_value, lemma_fold_row_step, rows_of, zeros, Entry};
use vstd::prelude::*;

verus! {

/// `stake` with each number that is not above zero set to zero.
pub open spec fn positive_part(stake: Seq<Fixed32>) -> Seq<Fixed32> {
    Seq::new(
        stake.len(),
        |r: int| if stake[r].bits > 0 {
            stake[r]
        } else {
            Fixed32::zero()
        },
    )
}

/// The weights of the rows: the stake above zero, normalised.
pub open spec fn median_weights(stake: Seq<Fixed32>) -> Seq<Fixed32> {
    normalized(positive_part(stake))
}

/// The score that each of the first `rows` rows gives to column `c`: the value
/// of its last entry in that column, and zero where it has none.
pub open spec fn column_scores(m: Seq<Seq<Entry>>, c: int, rows: nat) -> Seq<Fixed32> {
    Seq::new(
        rows,
        |r: int|
            if r < m.len() {
                fold_row_col(m[r], c, r, last_value(), Fixed32::zero())
            } else {
                Fixed32::zero()
            },
    )
}

/// The weight, in raw bits, of those of the first `upto` rows that have stake
/// and a score of at most `v`.
pub open spec fn weight_up_to(
    w: Seq<Fixed32>,
    stake: Seq<Fixed32>,
    s: Seq<Fixed32>,
    v: Fixed32,
    upto: int,
) -> int
    decreases upto,
{
    if upto <= 0 {
        0
    } else {
        weight_up_to(w, stake, s, v, upto - 1) + if stake[upto - 1].bits > 0 && s[upto - 1].bits
            <= v.bits {
            w[upto - 1].bits as int
        } else {
            0
        }
    }
}

/// Whether row `r` has stake and more than `minority` of the weight lies at
/// or below its score.
pub open spec fn reaches(
    w: Seq<Fixed32>,
    stake: Seq<Fixed32>,
    s: Seq<Fixed32>,
    minority: Fixed32,
    r: int,
) -> bool {
    stake[r].bits > 0 && weight_up_to(w, stake, s, s[r], s.len() as int) > minority.bits
}

/// The least score among those of the first `upto` rows that reach beyond the
/// minority.
pub open spec fn least_reaching(
    w: Seq<Fixed32>,
    stake: Seq<Fixed32>,
    s: Seq<Fixed32>,
    minority: Fixed32,
    upto: int,
) -> Option<Fixed32>
    decreases upto,
{
    if upto <= 0 {
        None
    } else {
        let rest = least_reaching(w, stake, s, minority, upto - 1);
        if reaches(w, stake, s, minority, upto - 1) {
            match rest {
                Some(b) => Some(b.min_spec(s[upto - 1])),
                None => Some(s[upto - 1]),
            }
        } else {
            rest
        }
    }
}

/// The greatest score among those of the first `upto` rows that have stake.
pub open spec fn greatest_score(stake: Seq<Fixed32>, s: Seq<Fixed32>, upto: int) -> Option<
    Fixed32,
>
    decreases upto,
{
    if upto <= 0 {
        None
    } else {
        let rest = greatest_score(stake, s, upto - 1);
        if stake[upto - 1].bits > 0 {
            match rest {
                Some(b) => Some(b.max_spec(s[upto - 1])),
                None => Some(s[upto - 1]),
            }
        } else {
            rest
        }
    }
}

/// The weighted median of the scores `s`: the least score that reaches beyond
/// the minority; where none does, the greatest score; zero where no row has
/// stake.
pub open spec fn weighted_median(
    w: Seq<Fixed32>,
    stake: Seq<Fixed32>,
    s: Seq<Fixed32>,
    minority: Fixed32,
) -> Fixed32 {
    match least_reaching(w, stake, s, minority, s.len() as int) {
        Some(v) => v,
        None => match greatest_score(stake, s, s.len() as int) {
            Some(v) => v,
            None => Fixed32::zero(),
        },
    }
}

/// The weighted median of each of the first `columns` columns of `score`.
pub open spec fn weighted_median_cols(
    stake: Seq<Fixed32>,
    score: Seq<Seq<Entry>>,
    columns: nat,
    majority: Fixed32,
) -> Seq<Fixed32> {
    let w = median_weights(stake);
    let minority = sum32(w).sub_spec(majority);
    Seq::new(
        columns,
        |c: int| weighted_median(w, stake, column_scores(score, c, stake.len()), minority),
    )
}

/// Whether row `r` has stake.
pub open spec fn has_stake(stake: Seq<Fixed32>) -> spec_fn(int) -> bool {
    |r: int| 0 <= r < stake.len() && stake[r].bits > 0
}

/// Whether row `r` has stake and a score of at most `v`.
pub open spec fn scores_at_most(stake: Seq<Fixed32>, s: Seq<Fixed32>, v: int) -> spec_fn(
    int,
) -> bool {
    |r: int| 0 <= r < stake.len() && stake[r].bits > 0 && s[r].bits <= v
}

/// Whether row `r` has stake and a score below `v`.
pub open spec fn scores_below(stake: Seq<Fixed32>, s: Seq<Fixed32>, v: int) -> spec_fn(
    int,
) -> bool {
    |r: int| 0 <= r < stake.len() && stake[r].bits > 0 && s[r].bits < v
}

/// Whether row `r` has stake and a score above `lo` and below `hi`, where
/// these are given.
pub open spec fn scores_between(
    stake: Seq<Fixed32>,
    s: Seq<Fixed32>,
    lo: Option<int>,
    hi: Option<int>,
) -> spec_fn(int) -> bool {
    |r: int|
        0 <= r < stake.len() && stake[r].bits > 0 && (lo is Some ==> lo->0 < s[r].bits) && (hi
            is Some ==> s[r].bits < hi->0)
}

/// The rows below `upto` that `pred` holds of, in ascending order.
pub open spec fn selected(pred: spec_fn(int) -> bool, upto: int) -> Seq<usize>
    decreases upto,
{
    if upto <= 0 {
        Seq::empty()
    } else {
        let rest = selected(pred, upto - 1);
        if pred(upto - 1) {
            rest.push((upto - 1) as usize)
        } else {
            rest
        }
    }
}

/// The weight, in raw bits, of the rows below `upto` that `pred` holds of.
pub open spec fn sum_where(w: Seq<Fixed32>, pred: spec_fn(int) -> bool, upto: int) -> int
    decreases upto,
{
    if upto <= 0 {
        0
    } else {
        sum_where(w, pred, upto - 1) + if pred(upto - 1) {
            w[upto - 1].bits as int
        } else {
            0
        }
    }
}

/// The rows of a list that `q` holds of, in the order of the list.
pub open spec fn kept(list: Seq<usize>, q: spec_fn(int) -> bool) -> Seq<usize>
    decreases list.len(),
{
    if list.len() == 0 {
        Seq::empty()
    } else {
        let rest = kept(list.drop_last(), q);
        if q(list.last() as int) {
            rest.push(list.last())
        } else {
            rest
        }
    }
}

/// The weight of the rows of a list that `q` holds of.
pub open spec fn kept_weight(list: Seq<usize>, w: Seq<Fixed32>, q: spec_fn(int) -> bool) -> int
    decreases list.len(),
{
    if list.len() == 0 {
        0
    } else {
        kept_weight(list.drop_last(), w, q) + if q(list.last() as int) {
            w[list.last() as int].bits as int
        } else {
            0
        }
    }
}

proof fn lemma_same_selection(
    w: Seq<Fixed32>,
    p: spec_fn(int) -> bool,
    q: spec_fn(int) -> bool,
    upto: int,
)
    requires
        forall|r: int| 0 <= r < upto ==> #[trigger] p(r) == q(r),
    ensures
        selected(p, upto) == selected(q, upto),
        sum_where(w, p, upto) == sum_where(w, q, upto),
    decreases upto,
{
    if upto > 0 {
        lemma_same_selection(w, p, q, upto - 1);
    }
}

proof fn lemma_selection_facts(w: Seq<Fixed32>, p: spec_fn(int) -> bool, upto: int)
    requires
        0 <= upto <= w.len(),
        upto <= usize::MAX,
    ensures
        selected(p, upto).len() <= upto,
        forall|k: int|
            0 <= k < selected(p, upto).len() ==> (#[trigger] selected(p, upto)[k]) < upto && p(
                selected(p, upto)[k] as int,
            ),
        forall|r: int| 0 <= r < upto && #[trigger] p(r) ==> selected(p, upto).contains(r as usize),
        -upto * 0x8000_0000_0000_0000 <= sum_where(w, p, upto) <= upto * 0x8000_0000_0000_0000,
    decreases upto,
{
    if upto > 0 {
        lemma_selection_facts(w, p, upto - 1);
        let rest = selected(p, upto - 1);
        let now = selected(p, upto);
        if p(upto - 1) {
            assert(now == rest.push((upto - 1) as usize));
            assert(now[now.len() - 1] == (upto - 1) as usize);
            assert forall|r: int| 0 <= r < upto && #[trigger] p(r) implies now.contains(
                r as usize,
            ) by {
                if r < upto - 1 {
                    let k = choose|k: int| 0 <= k < rest.len() && rest[k] == r as usize;
                    assert(now[k] == r as usize);
                }
            }
            assert forall|k: int| 0 <= k < now.len() implies (#[trigger] now[k]) < upto && p(
                now[k] as int,
            ) by {
                if k < rest.len() {
                    assert(now[k] == rest[k]);
                }
            }
        }
    }
}

proof fn lemma_sum_non_negative(w: Seq<Fixed32>, p: spec_fn(int) -> bool, upto: int)
    requires
        0 <= upto <= w.len(),
        forall|r: int| 0 <= r < w.len() ==> (#[trigger] w[r]).bits >= 0,
    ensures
        sum_where(w, p, upto) >= 0,
    decreases upto,
{
    if upto > 0 {
        lemma_sum_non_negative(w, p, upto - 1);
    }
}

proof fn lemma_sum_split(
    w: Seq<Fixed32>,
    whole: spec_fn(int) -> bool,
    p: spec_fn(int) -> bool,
    q: spec_fn(int) -> bool,
    upto: int,
)
    requires
        forall|r: int| 0 <= r < upto ==> #[trigger] whole(r) == (p(r) || q(r)) && !(p(r) && q(r)),
    ensures
        sum_where(w, whole, upto) == sum_where(w, p, upto) + sum_where(w, q, upto),
    decreases upto,
{
    if upto > 0 {
        lemma_sum_split(w, whole, p, q, upto - 1);
    }
}

proof fn lemma_sum_grows(
    w: Seq<Fixed32>,
    p: spec_fn(int) -> bool,
    q: spec_fn(int) -> bool,
    upto: int,
)
    requires
        0 <= upto <= w.len(),
        forall|r: int| 0 <= r < w.len() ==> (#[trigger] w[r]).bits >= 0,
        forall|r: int| 0 <= r < upto && #[trigger] p(r) ==> q(r),
    ensures
        sum_where(w, p, upto) <= sum_where(w, q, upto),
    decreases upto,
{
    if upto > 0 {
        lemma_sum_grows(w, p, q, upto - 1);
    }
}

proof fn lemma_kept_of_selected(
    w: Seq<Fixed32>,
    p: spec_fn(int) -> bool,
    q: spec_fn(int) -> bool,
    both: spec_fn(int) -> bool,
    upto: int,
)
    requires
        0 <= upto <= usize::MAX,
        forall|r: int| 0 <= r < upto ==> #[trigger] both(r) == (p(r) && q(r)),
    ensures
        kept(selected(p, upto), q) == selected(both, upto),
        kept_weight(selected(p, upto), w, q) == sum_where(w, both, upto),
    decreases upto,
{
    if upto > 0 {
        lemma_kept_of_selected(w, p, q, both, upto - 1);
        if p(upto - 1) {
            let list = selected(p, upto);
            assert(list.drop_last() =~= selected(p, upto - 1));
            assert(list.last() == (upto - 1) as usize);
        }
    }
}

proof fn lemma_kept_prefix(list: Seq<usize>, w: Seq<Fixed32>, q: spec_fn(int) -> bool, k: int)
    requires
        0 <= k < list.len(),
    ensures
        kept(list.take(k + 1), q) == (if q(list[k] as int) {
            kept(list.take(k), q).push(list[k])
        } else {
            kept(list.take(k), q)
        }),
        kept_weight(list.take(k + 1), w, q) == kept_weight(list.take(k), w, q) + (if q(
            list[k] as int,
        ) {
            w[list[k] as int].bits as int
        } else {
            0
        }),
        kept(list.take(k), q).len() <= k,
    decreases k,
{
    assert(list.take(k + 1).drop_last() =~= list.take(k));
    assert(list.take(k + 1).last() == list[k]);
    if k > 0 {
        lemma_kept_prefix(list, w, q, k - 1);
    }
}

proof fn lemma_weight_is_sum(
    w: Seq<Fixed32>,
    stake: Seq<Fixed32>,
    s: Seq<Fixed32>,
    v: Fixed32,
    upto: int,
)
    requires
        0 <= upto <= stake.len(),
    ensures
        weight_up_to(w, stake, s, v, upto) == sum_where(
            w,
            scores_at_most(stake, s, v.bits as int),
            upto,
        ),
    decreases upto,
{
    if upto > 0 {
        lemma_weight_is_sum(w, stake, s, v, upto - 1);
    }
}

/// Whether `x` is the weighted median: a row with stake scores `x`, and
/// either `x` reaches beyond the minority and no lower score with stake
/// does, or no score with stake does and none is above `x`.
pub open spec fn is_weighted_median(
    w: Seq<Fixed32>,
    stake: Seq<Fixed32>,
    s: Seq<Fixed32>,
    minority: Fixed32,
    x: Fixed32,
) -> bool {
    &&& exists|r: int| 0 <= r < s.len() && stake[r].bits > 0 && #[trigger] s[r] == x
    &&& {
        ||| {
            &&& exists|r: int|
                0 <= r < s.len() && #[trigger] s[r] == x && reaches(w, stake, s, minority, r)
            &&& forall|r: int|
                0 <= r < s.len() && #[trigger] reaches(w, stake, s, minority, r) ==> s[r].bits
                    >= x.bits
        }
        ||| forall|r: int|
            0 <= r < s.len() && stake[r].bits > 0 ==> !(#[trigger] reaches(
                w,
                stake,
                s,
                minority,
                r,
            )) && s[r].bits <= x.bits
    }
}

proof fn lemma_least_reaching(
    w: Seq<Fixed32>,
    stake: Seq<Fixed32>,
    s: Seq<Fixed32>,
    minority: Fixed32,
    upto: int,
)
    requires
        0 <= upto <= s.len(),
    ensures
        match least_reaching(w, stake, s, minority, upto) {
            Some(a) => {
                &&& exists|r: int|
                    0 <= r < upto && #[trigger] s[r] == a && reaches(w, stake, s, minority, r)
                &&& forall|r: int|
                    0 <= r < upto && #[trigger] reaches(w, stake, s, minority, r) ==> s[r].bits
                        >= a.bits
            },
            None => forall|r: int|
                0 <= r < upto ==> !(#[trigger] reaches(w, stake, s, minority, r)),
        },
    decreases upto,
{
    if upto > 0 {
        lemma_least_reaching(w, stake, s, minority, upto - 1);
        let rest = least_reaching(w, stake, s, minority, upto - 1);
        if reaches(w, stake, s, minority, upto - 1) {
            match rest {
                Some(b) => {
                    let earlier = choose|r: int|
                        0 <= r < upto - 1 && #[trigger] s[r] == b && reaches(
                            w,
                            stake,
                            s,
                            minority,
                            r,
                        );
                    if s[upto - 1].bits < b.bits {
                        assert(s[upto - 1] == b.min_spec(s[upto - 1]));
                    } else {
                        assert(s[earlier] == b.min_spec(s[upto - 1]));
                    }
                },
                None => {},
            }
        } else {
            match rest {
                Some(b) => {
                    let earlier = choose|r: int|
                        0 <= r < upto - 1 && #[trigger] s[r] == b && reaches(
                            w,
                            stake,
                            s,
                            minority,
                            r,
                        );
                    assert(s[earlier] == b);
                },
                None => {},
            }
        }
    }
}

proof fn lemma_greatest_score(stake: Seq<Fixed32>, s: Seq<Fixed32>, upto: int)
    requires
        0 <= upto <= s.len(),
    ensures
        match greatest_score(stake, s, upto) {
            Some(a) => {
                &&& exists|r: int| 0 <= r < upto && stake[r].bits > 0 && #[trigger] s[r] == a
                &&& forall|r: int|
                    0 <= r < upto && stake[r].bits > 0 ==> (#[trigger] s[r]).bits <= a.bits
            },
            None => forall|r: int| 0 <= r < upto ==> (#[trigger] stake[r]).bits <= 0,
        },
    decreases upto,
{
    if upto > 0 {
        lemma_greatest_score(stake, s, upto - 1);
        let rest = greatest_score(stake, s, upto - 1);
        if stake[upto - 1].bits > 0 {
            match rest {
                Some(b) => {
                    let earlier = choose|r: int|
                        0 <= r < upto - 1 && stake[r].bits > 0 && #[trigger] s[r] == b;
                    if s[upto - 1].bits > b.bits {
                        assert(s[upto - 1] == b.max_spec(s[upto - 1]));
                    } else {
                        assert(s[earlier] == b.max_spec(s[upto - 1]));
                    }
                },
                None => {},
            }
        } else {
            match rest {
                Some(b) => {
                    let earlier = choose|r: int|
                        0 <= r < upto - 1 && stake[r].bits > 0 && #[trigger] s[r] == b;
                    assert(s[earlier] == b);
                },
                None => {},
            }
        }
    }
}

/// The weighted median is the one score that [`is_weighted_median`] holds
/// of.
pub proof fn lemma_median_unique(
    w: Seq<Fixed32>,
    stake: Seq<Fixed32>,
    s: Seq<Fixed32>,
    minority: Fixed32,
    x: Fixed32,
)
    requires
        stake.len() == s.len(),
        is_weighted_median(w, stake, s, minority, x),
    ensures
        weighted_median(w, stake, s, minority) == x,
{
    let n = s.len() as int;
    lemma_least_reaching(w, stake, s, minority, n);
    lemma_greatest_score(stake, s, n);
    let holder = choose|r: int| 0 <= r < s.len() && stake[r].bits > 0 && #[trigger] s[r] == x;
    match least_reaching(w, stake, s, minority, n) {
        Some(a) => {
            let r1 = choose|r: int|
                0 <= r < n && #[trigger] s[r] == a && reaches(w, stake, s, minority, r);
            assert(reaches(w, stake, s, minority, r1));
            let r2 = choose|r: int|
                0 <= r < s.len() && #[trigger] s[r] == x && reaches(w, stake, s, minority, r);
            assert(reaches(w, stake, s, minority, r2));
            assert(a.bits == x.bits);
        },
        None => {
            assert(!reaches(w, stake, s, minority, holder));
            match greatest_score(stake, s, n) {
                Some(g) => {
                    let r3 = choose|r: int|
                        0 <= r < n && stake[r].bits > 0 && #[trigger] s[r] == g;
                    assert(!reaches(w, stake, s, minority, r3));
                    assert(s[r3].bits <= x.bits);
                    assert(s[holder].bits <= g.bits);
                    assert(g.bits == x.bits);
                },
                None => {
                    assert(stake[holder].bits <= 0);
                },
            }
        },
    }
}

/// Whether row `r` scores below `v`.
pub open spec fn score_below(s: Seq<Fixed32>, v: int) -> spec_fn(int) -> bool {
    |r: int| s[r].bits < v
}

/// Whether row `r` scores above `v`.
pub open spec fn score_above(s: Seq<Fixed32>, v: int) -> spec_fn(int) -> bool {
    |r: int| s[r].bits > v
}

proof fn lemma_nothing_selected(w: Seq<Fixed32>, p: spec_fn(int) -> bool, upto: int)
    requires
        0 <= upto <= w.len(),
        upto <= usize::MAX,
        selected(p, upto).len() == 0,
    ensures
        forall|r: int| 0 <= r < upto ==> !(#[trigger] p(r)),
        sum_where(w, p, upto) == 0,
    decreases upto,
{
    lemma_selection_facts(w, p, upto);
    if upto > 0 {
        if p(upto - 1) {
            assert(selected(p, upto).contains((upto - 1) as usize));
        }
        lemma_nothing_selected(w, p, upto - 1);
    }
}

/// The partition of the rows with stake that the search has come down to:
/// the rows that score between two scores, with the weight at and below the
/// lower score and the weight below the upper one.
spec fn partition_fits(
    w: Seq<Fixed32>,
    stake: Seq<Fixed32>,
    s: Seq<Fixed32>,
    minority: Fixed32,
    part: Seq<usize>,
    lo: int,
    hi: int,
    lo_v: Option<int>,
    hi_v: Option<int>,
) -> bool {
    let n = s.len() as int;
    &&& w.len() == n
    &&& stake.len() == n
    &&& forall|r: int| 0 <= r < n ==> (#[trigger] w[r]).bits >= 0
    &&& part.len() > 0
    &&& part == selected(scores_between(stake, s, lo_v, hi_v), n)
    &&& lo == (match lo_v {
        Some(v) => sum_where(w, scores_at_most(stake, s, v), n),
        None => 0,
    })
    &&& hi == (match hi_v {
        Some(v) => sum_where(w, scores_below(stake, s, v), n),
        None => sum_where(w, has_stake(stake), n),
    })
    &&& lo_v is Some ==> lo <= minority.bits
    &&& hi_v is Some ==> hi > minority.bits
}

/// The weighted median of the scores within a partition, found by
/// splitting the partition at the score of its middle row.
fn select(
    w: &Vec<Fixed32>,
    stake: &Vec<Fixed32>,
    s: &Vec<Fixed32>,
    part: &Vec<usize>,
    minority: Fixed32,
    lo: i128,
    hi: i128,
    Ghost(lo_v): Ghost<Option<int>>,
    Ghost(hi_v): Ghost<Option<int>>,
) -> (r: Fixed32)
    requires
        partition_fits(w@, stake@, s@, minority, part@, lo as int, hi as int, lo_v, hi_v),
    ensures
        r == weighted_median(w@, stake@, s@, minority),
    decreases part.len(),
{
    let n = s.len();
    let count = part.len();
    let ghost within = scores_between(stake@, s@, lo_v, hi_v);
    proof {
        lemma_selection_facts(w@, within, n as int);
    }
    let mid = count / 2;
    let pivot_row = part[mid];
    let pivot = s[pivot_row];
    let ghost p = pivot.bits as int;
    let ghost below = score_below(s@, p);
    let ghost above = score_above(s@, p);
    let mut lo_stake: i128 = 0;
    let mut hi_stake: i128 = 0;
    let mut lower: Vec<usize> = Vec::new();
    let mut upper: Vec<usize> = Vec::new();
    let mut k: usize = 0;
    while k < count
        invariant
            k <= count,
            count == part.len(),
            n == s.len(),
            w.len() == n,
            forall|q: int| 0 <= q < part.len() ==> (#[trigger] part@[q]) < n,
            p == pivot.bits,
            below == score_below(s@, p),
            above == score_above(s@, p),
            lower@ == kept(part@.take(k as int), below),
            upper@ == kept(part@.take(k as int), above),
            lo_stake == kept_weight(part@.take(k as int), w@, below),
            hi_stake == kept_weight(part@.take(k as int), w@, above),
            -k * 0x8000_0000_0000_0000 <= lo_stake <= k * 0x8000_0000_0000_0000,
            -k * 0x8000_0000_0000_0000 <= hi_stake <= k * 0x8000_0000_0000_0000,
        decreases count - k,
    {
        proof {
            lemma_kept_prefix(part@, w@, below, k as int);
            lemma_kept_prefix(part@, w@, above, k as int);
        }
        let row = part[k];
        let score = s[row].bits;
        if score < pivot.bits {
            lo_stake = lo_stake + w[row].bits as i128;
            lower.push(row);
        } else if score > pivot.bits {
            hi_stake = hi_stake + w[row].bits as i128;
            upper.push(row);
        }
        k += 1;
    }
    let ghost lower_rows = scores_between(stake@, s@, lo_v, Some(p));
    let ghost upper_rows = scores_between(stake@, s@, Some(p), hi_v);
    let ghost at_most = scores_at_most(stake@, s@, p);
    let ghost less = scores_below(stake@, s@, p);
    proof {
        let ww = w@;
        let nn = n as int;
        assert(part@.take(count as int) =~= part@);
        assert(within(pivot_row as int));
        lemma_kept_of_selected(ww, within, below, lower_rows, nn);
        lemma_kept_of_selected(ww, within, above, upper_rows, nn);
        // The weight below the pivot is that at and below the lower bound and
        // that of the lower rows.
        match lo_v {
            Some(l) => {
                lemma_sum_split(ww, less, scores_at_most(stake@, s@, l), lower_rows, nn);
            },
            None => {
                lemma_same_selection(ww, less, lower_rows, nn);
            },
        }
        // The weight below the upper bound is that at and below the pivot and
        // that of the upper rows.
        match hi_v {
            Some(h) => {
                lemma_sum_split(ww, scores_below(stake@, s@, h), at_most, upper_rows, nn);
            },
            None => {
                lemma_sum_split(ww, has_stake(stake@), at_most, upper_rows, nn);
            },
        }
        lemma_selection_facts(ww, less, nn);
        lemma_selection_facts(ww, at_most, nn);
        lemma_selection_facts(ww, lower_rows, nn);
        lemma_selection_facts(ww, upper_rows, nn);
        lemma_weight_is_sum(ww, stake@, s@, pivot, nn);
    }
    let weight_below: i128 = lo + lo_stake;
    let weight_up_to_pivot: i128 = hi - hi_stake;
    let m: i128 = minority.bits as i128;
    assert(weight_below == sum_where(w@, less, n as int));
    assert(weight_up_to_pivot == sum_where(w@, at_most, n as int));
    if weight_below <= m && m < weight_up_to_pivot {
        proof {
            lemma_pivot_is_median(w@, stake@, s@, minority, pivot_row as int);
        }
        pivot
    } else if m < weight_below && lower.len() > 0 {
        assert(lower.len() < count) by {
            lemma_kept_shorter(part@, below, mid as int);
        }
        select(w, stake, s, &lower, minority, lo, weight_below, Ghost(lo_v), Ghost(Some(p)))
    } else if weight_up_to_pivot <= m && upper.len() > 0 {
        assert(upper.len() < count) by {
            lemma_kept_shorter(part@, above, mid as int);
        }
        select(
            w,
            stake,
            s,
            &upper,
            minority,
            weight_up_to_pivot,
            hi,
            Ghost(Some(p)),
            Ghost(hi_v),
        )
    } else {
        proof {
            let ww = w@;
            let nn = n as int;
            if m < weight_below {
                // Nothing scores between the lower bound and the pivot.
                lemma_nothing_selected(ww, lower_rows, nn);
                assert(lo_v is None);
                lemma_sum_non_negative(ww, at_most, nn);
                assert(reaches(ww, stake@, s@, minority, pivot_row as int));
                assert forall|r: int|
                    0 <= r < nn && #[trigger] reaches(
                        ww,
                        stake@,
                        s@,
                        minority,
                        r,
                    ) implies s@[r].bits >= p by {
                    assert(!lower_rows(r));
                }
                assert(s@[pivot_row as int] == pivot);
                assert(is_weighted_median(ww, stake@, s@, minority, pivot));
            } else {
                // Nothing scores between the pivot and the upper bound.
                assert(weight_up_to_pivot <= m);
                lemma_nothing_selected(ww, upper_rows, nn);
                assert(hi_v is None);
                assert forall|r: int| 0 <= r < nn && stake@[r].bits > 0 implies !(
                #[trigger] reaches(ww, stake@, s@, minority, r)) && s@[r].bits <= p by {
                    assert(!upper_rows(r));
                    lemma_weight_is_sum(ww, stake@, s@, s@[r], nn);
                    lemma_sum_grows(
                        ww,
                        scores_at_most(stake@, s@, s@[r].bits as int),
                        at_most,
                        nn,
                    );
                }
                assert(s@[pivot_row as int] == pivot);
                assert(is_weighted_median(ww, stake@, s@, minority, pivot));
            }
            lemma_median_unique(ww, stake@, s@, minority, pivot);
        }
        pivot
    }
}

proof fn lemma_kept_shorter(list: Seq<usize>, q: spec_fn(int) -> bool, at: int)
    requires
        0 <= at < list.len(),
        !q(list[at] as int),
    ensures
        kept(list, q).len() < list.len(),
    decreases list.len(),
{
    lemma_kept_length(list.drop_last(), q);
    if at < list.len() - 1 {
        assert(list.drop_last()[at] == list[at]);
        lemma_kept_shorter(list.drop_last(), q, at);
    }
}

proof fn lemma_kept_length(list: Seq<usize>, q: spec_fn(int) -> bool)
    ensures
        kept(list, q).len() <= list.len(),
    decreases list.len(),
{
    if list.len() > 0 {
        lemma_kept_length(list.drop_last(), q);
    }
}

proof fn lemma_pivot_is_median(
    w: Seq<Fixed32>,
    stake: Seq<Fixed32>,
    s: Seq<Fixed32>,
    minority: Fixed32,
    row: int,
)
    requires
        w.len() == s.len(),
        stake.len() == s.len(),
        forall|r: int| 0 <= r < s.len() ==> (#[trigger] w[r]).bits >= 0,
        0 <= row < s.len(),
        stake[row].bits > 0,
        sum_where(w, scores_below(stake, s, s[row].bits as int), s.len() as int)
            <= minority.bits,
        minority.bits < sum_where(w, scores_at_most(stake, s, s[row].bits as int), s.len() as int),
    ensures
        weighted_median(w, stake, s, minority) == s[row],
{
    let n = s.len() as int;
    let p = s[row].bits as int;
    lemma_weight_is_sum(w, stake, s, s[row], n);
    assert(reaches(w, stake, s, minority, row));
    assert forall|r: int|
        0 <= r < n && #[trigger] reaches(w, stake, s, minority, r) implies s[r].bits >= p by {
        if s[r].bits < p {
            lemma_weight_is_sum(w, stake, s, s[r], n);
            lemma_sum_grows(
                w,
                scores_at_most(stake, s, s[r].bits as int),
                scores_below(stake, s, p),
                n,
            );
        }
    }
    assert(is_weighted_median(w, stake, s, minority, s[row]));
    lemma_median_unique(w, stake, s, minority, s[row]);
}

fn median_of(w: &Vec<Fixed32>, stake: &Vec<Fixed32>, s: &Vec<Fixed32>, minority: Fixed32) -> (r:
    Fixed32)
    requires
        w.len() == stake.len(),
        s.len() == stake.len(),
        forall|r: int| 0 <= r < w.len() ==> (#[trigger] w@[r]).bits >= 0,
    ensures
        r == weighted_median(w@, stake@, s@, minority),
{
    let n = s.len();
    let ghost with_stake = has_stake(stake@);
    let mut part: Vec<usize> = Vec::new();
    let mut whole: i128 = 0;
    let mut r: usize = 0;
    while r < n
        invariant
            r <= n,
            n == s.len(),
            n == w.len(),
            n == stake.len(),
            with_stake == has_stake(stake@),
            part@ == selected(with_stake, r as int),
            whole == sum_where(w@, with_stake, r as int),
            -r * 0x8000_0000_0000_0000 <= whole <= r * 0x8000_0000_0000_0000,
        decreases n - r,
    {
        if stake[r].bits > 0 {
            part.push(r);
            whole = whole + w[r].bits as i128;
        }
        r += 1;
    }
    if part.len() == 0 {
        proof {
            lemma_nothing_selected(w@, with_stake, n as int);
            lemma_least_reaching(w@, stake@, s@, minority, n as int);
            lemma_greatest_score(stake@, s@, n as int);
            match least_reaching(w@, stake@, s@, minority, n as int) {
                Some(a) => {
                    let row = choose|row: int|
                        0 <= row < n && #[trigger] s@[row] == a && reaches(
                            w@,
                            stake@,
                            s@,
                            minority,
                            row,
                        );
                    assert(with_stake(row));
                },
                None => {
                    match greatest_score(stake@, s@, n as int) {
                        Some(g) => {
                            let row = choose|row: int|
                                0 <= row < n && stake@[row].bits > 0 && #[trigger] s@[row] == g;
                            assert(with_stake(row));
                        },
                        None => {},
                    }
                },
            }
        }
        return Fixed32::from_bits(0);
    }
    proof {
        lemma_same_selection(
            w@,
            with_stake,
            scores_between(stake@, s@, None, None),
            n as int,
        );
    }
    select(w, stake, s, &part, minority, 0, whole, Ghost(None), Ghost(None))
}

proof fn lemma_weights_non_negative(stake: Seq<Fixed32>)
    ensures
        forall|r: int|
            0 <= r < median_weights(stake).len() ==> (#[trigger] median_weights(stake)[r]).bits
                >= 0,
{
    let part = positive_part(stake);
    lemma_sum_of_non_negative(part);
    let d = sum32(part);
    assert forall|r: int| 0 <= r < median_weights(stake).len() implies (#[trigger] median_weights(
        stake,
    )[r]).bits >= 0 by {
        let v = part[r];
        if d.bits != 0 {
            assert((v.bits * unit32()) / (d.bits as int) >= 0) by (nonlinear_arith)
                requires
                    v.bits >= 0,
                    d.bits > 0,
                    unit32() == 0x1_0000_0000,
            ;
        }
    }
}

proof fn lemma_sum_of_non_negative(s: Seq<Fixed32>)
    requires
        forall|r: int| 0 <= r < s.len() ==> (#[trigger] s[r]).bits >= 0,
    ensures
        sum32(s).bits >= 0,
    decreases s.len(),
{
    if s.len() > 0 {
        assert forall|r: int| 0 <= r < s.drop_last().len() implies (
        #[trigger] s.drop_last()[r]).bits >= 0 by {
            assert(s.drop_last()[r] == s[r]);
        }
        lemma_sum_of_non_negative(s.drop_last());
        assert(s.last() == s[s.len() - 1]);
    }
}

/// The score that row `r` gives to column `c` after the first `k` of its
/// entries.
spec fn score_so_far(m: Seq<Seq<Entry>>, c: int, r: int, k: int) -> Fixed32 {
    if 0 <= r < m.len() {
        fold_row_col(m[r].take(k), c, r, last_value(), Fixed32::zero())
    } else {
        Fixed32::zero()
    }
}

/// The scores of each column, row by row.
fn columns_of(score: &Vec<Vec<Entry>>, columns: u16, rows: usize) -> (r: Vec<Vec<Fixed32>>)
    ensures
        r.len() == columns,
        forall|c: int|
            0 <= c < columns ==> (#[trigger] r@[c])@ == column_scores(
                rows_of(score@),
                c,
                rows as nat,
            ),
{
    let ghost m = rows_of(score@);
    let mut cols: Vec<Vec<Fixed32>> = Vec::new();
    let mut c: u16 = 0;
    while c < columns
        invariant
            c <= columns,
            cols.len() == c,
            forall|q: int|
                0 <= q < c ==> (#[trigger] cols@[q])@ == Seq::new(
                    rows as nat,
                    |i: int| Fixed32::zero(),
                ),
        decreases columns - c,
    {
        cols.push(zeros(rows));
        c += 1;
    }
    let filled = if rows < score.len() {
        rows
    } else {
        score.len()
    };
    let mut i: usize = 0;
    while i < filled
        invariant
            i <= filled,
            filled <= rows,
            filled <= score.len(),
            m == rows_of(score@),
            cols.len() == columns,
            forall|q: int| 0 <= q < columns ==> (#[trigger] cols@[q]).len() == rows,
            forall|q: int, j: int|
                0 <= q < columns && 0 <= j < rows ==> (#[trigger] cols@[q]@[j]) == (if j < i {
                    column_scores(m, q, rows as nat)[j]
                } else {
                    Fixed32::zero()
                }),
        decreases filled - i,
    {
        let row = &score[i];
        let mut k: usize = 0;
        while k < row.len()
            invariant
                k <= row.len(),
                i < filled,
                filled <= rows,
                filled <= score.len(),
                m == rows_of(score@),
                row@ == m[i as int],
                cols.len() == columns,
                forall|q: int| 0 <= q < columns ==> (#[trigger] cols@[q]).len() == rows,
                forall|q: int, j: int|
                    0 <= q < columns && 0 <= j < rows ==> (#[trigger] cols@[q]@[j]) == (if j < i {
                        column_scores(m, q, rows as nat)[j]
                    } else if j == i {
                        score_so_far(m, q, i as int, k as int)
                    } else {
                        Fixed32::zero()
                    }),
            decreases row.len() - k,
        {
            let (target, value) = row[k];
            proof {
                assert forall|q: int| 0 <= q < columns implies score_so_far(
                    m,
                    q,
                    i as int,
                    k + 1,
                ) == (if target == q {
                    value
                } else {
                    score_so_far(m, q, i as int, k as int)
                }) by {
                    lemma_fold_row_step(
                        row@,
                        k as int,
                        q,
                        i as int,
                        last_value(),
                        Fixed32::zero(),
                    );
                }
            }
            if target < columns {
                cols[target as usize][i] = value;
            }
            k += 1;
        }
        proof {
            assert(row@.take(row.len() as int) =~= row@);
        }
        i += 1;
    }
    proof {
        assert forall|q: int| 0 <= q < columns implies (#[trigger] cols@[q])@ == column_scores(
            m,
            q,
            rows as nat,
        ) by {
            assert forall|j: int| 0 <= j < rows implies cols@[q]@[j] == column_scores(
                m,
                q,
                rows as nat,
            )[j] by {
                if j >= filled && j < m.len() {
                    assert(false);
                }
            }
            assert(cols@[q]@ =~= column_scores(m, q, rows as nat));
        }
    }
    cols
}

/// The stake-weighted median of each of the first `columns` columns of
/// `score`, at the quantile `majority`.
///
/// Rows without stake above zero take no part, and a row that `score` lacks
/// counts as empty. The median of a column is the least of its scores at or
/// below which more than `1 - majority` of the weight lies, and the greatest
/// score where there is no such score.
pub fn weighted_median_col_sparse(
    stake: &Vec<Fixed32>,
    score: &Vec<Vec<Entry>>,
    columns: u16,
    majority: Fixed32,
) -> (r: Vec<Fixed32>)
    ensures
        r@ == weighted_median_cols(stake@, rows_of(score@), columns as nat, majority),
{
    let rows = stake.len();
    let mut w: Vec<Fixed32> = Vec::new();
    let mut i: usize = 0;
    while i < rows
        invariant
            i <= rows,
            rows == stake.len(),
            w.len() == i,
            forall|q: int| 0 <= q < i ==> #[trigger] w@[q] == positive_part(stake@)[q],
        decreases rows - i,
    {
        if stake[i].bits > 0 {
            w.push(stake[i]);
        } else {
            w.push(Fixed32::from_bits(0));
        }
        i += 1;
    }
    assert(w@ =~= positive_part(stake@));
    inplace_normalize(&mut w);
    proof {
        lemma_weights_non_negative(stake@);
    }
    let stake_sum = vec_sum(&w);
    let minority = stake_sum.saturating_sub(majority);
    let cols = columns_of(score, columns, rows);
    let mut median: Vec<Fixed32> = Vec::new();
    let mut c: u16 = 0;
    while c < columns
        invariant
            c <= columns,
            median.len() == c,
            cols.len() == columns,
            forall|q: int|
                0 <= q < columns ==> (#[trigger] cols@[q])@ == column_scores(
                    rows_of(score@),
                    q,
                    rows as nat,
                ),
            rows == stake.len(),
            w@ == median_weights(stake@),
            forall|r: int| 0 <= r < w.len() ==> (#[trigger] w@[r]).bits >= 0,
            minority == sum32(w@).sub_spec(majority),
            forall|q: int|
                0 <= q < c ==> #[trigger] median@[q] == weighted_median_cols(
                    stake@,
                    rows_of(score@),
                    columns as nat,
                    majority,
                )[q],
        decreases columns - c,
    {
        median.push(median_of(&w, stake, &cols[c as usize], minority));
        c += 1;
    }
    assert(median@ =~= weighted_median_cols(stake@, rows_of(score@), columns as nat, majority));
    median
}

} // verus!
