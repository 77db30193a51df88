//! Vectors of fixed-point numbers: sums, normalisation, masking, ranking.
//!
//! A dense vector holds one number per participant, at the participant's uid.
use crate::fixed::{unit32, Fixed32, Fixed64};
use vstd::prelude::*;

verus! {

/// The sum of `s` from the left, each partial sum held to the type's range.
pub open spec fn sum32(s: Seq<Fixed32>) -> Fixed32
    decreases s.len(),
{
    if s.len() == 0 {
        Fixed32::zero()
    } else {
        sum32(s.drop_last()).add_spec(s.last())
    }
}

/// The sum of `s` from the left, each partial sum held to the type's range.
pub open spec fn sum64(s: Seq<Fixed64>) -> Fixed64
    decreases s.len(),
{
    if s.len() == 0 {
        Fixed64::zero()
    } else {
        sum64(s.drop_last()).add_spec(s.last())
    }
}

/// Each number of `s` divided by `d`; `s` itself where `d` is zero.
pub open spec fn normalized_by(s: Seq<Fixed32>, d: Fixed32) -> Seq<Fixed32> {
    if d.bits == 0 {
        s
    } else {
        Seq::new(s.len(), |i: int| s[i].div_or_zero(d))
    }
}

/// Each number of `s` divided by the sum of `s`; `s` itself where that sum is
/// zero.
pub open spec fn normalized(s: Seq<Fixed32>) -> Seq<Fixed32> {
    normalized_by(s, sum32(s))
}

/// Each number of `s` divided by the sum of `s`; `s` itself where that sum is
/// zero.
pub open spec fn normalized64(s: Seq<Fixed64>) -> Seq<Fixed64> {
    let d = sum64(s);
    if d.bits == 0 {
        s
    } else {
        Seq::new(s.len(), |i: int| s[i].div_or_zero(d))
    }
}

/// Whether `mask` flags position `i`. A position beyond the mask is not
/// flagged.
pub open spec fn flagged(mask: Seq<bool>, i: int) -> bool {
    0 <= i < mask.len() && mask[i]
}

/// `s` with the flagged positions set to zero.
pub open spec fn masked(mask: Seq<bool>, s: Seq<Fixed32>) -> Seq<Fixed32> {
    Seq::new(s.len(), |i: int| if flagged(mask, i) { Fixed32::zero() } else { s[i] })
}

/// The number at position `i`, or zero beyond the end.
pub open spec fn at_or_zero(s: Seq<Fixed32>, i: int) -> Fixed32 {
    if 0 <= i < s.len() {
        s[i]
    } else {
        Fixed32::zero()
    }
}

/// `x[i] / y[i]` at each position of `x`, and zero where `y` has nothing, a
/// zero, or the quotient does not fit.
pub open spec fn quotients(x: Seq<Fixed32>, y: Seq<Fixed32>) -> Seq<Fixed32> {
    Seq::new(x.len(), |i: int| x[i].div_or_zero(at_or_zero(y, i)))
}

/// Whether position `j` comes before position `i` when `v` is put in
/// descending order, equal numbers in the order of their positions.
pub open spec fn sorts_before(v: Seq<Fixed32>, j: int, i: int) -> bool {
    v[j].bits > v[i].bits || (v[j].bits == v[i].bits && j < i)
}

/// How many of the first `upto` positions come before position `i` in that
/// order.
pub open spec fn count_before(v: Seq<Fixed32>, i: int, upto: int) -> nat
    decreases upto,
{
    if upto <= 0 {
        0
    } else {
        count_before(v, i, upto - 1) + if sorts_before(v, upto - 1, i) {
            1nat
        } else {
            0nat
        }
    }
}

/// The positions of the `k` largest numbers of `v`: a position is flagged
/// where fewer than `k` positions come before it in descending order. Of
/// equal numbers the one at the lower position comes first.
pub open spec fn topk(v: Seq<Fixed32>, k: nat) -> Seq<bool> {
    Seq::new(v.len(), |i: int| count_before(v, i, v.len() as int) < k)
}

proof fn lemma_count_before_grows(v: Seq<Fixed32>, i: int, j: int, upto: int)
    requires
        0 <= i < v.len(),
        0 <= j < v.len(),
        0 <= upto <= v.len(),
        sorts_before(v, i, j),
    ensures
        count_before(v, i, upto) <= count_before(v, j, upto),
        upto > i ==> count_before(v, i, upto) < count_before(v, j, upto),
        count_before(v, i, upto) <= upto,
    decreases upto,
{
    if upto > 0 {
        lemma_count_before_grows(v, i, j, upto - 1);
    }
}

/// The flagged positions hold the largest numbers: a flagged position comes
/// before every position that is not flagged, so its number is at least as
/// large, and of two equal numbers the one at the lower position is flagged
/// first.
pub proof fn lemma_topk_prefers(v: Seq<Fixed32>, k: nat, i: int, j: int)
    requires
        0 <= i < v.len(),
        0 <= j < v.len(),
        topk(v, k)[i],
        !topk(v, k)[j],
    ensures
        sorts_before(v, i, j),
        v[i].bits >= v[j].bits,
        v[i].bits == v[j].bits ==> i < j,
{
    if !sorts_before(v, i, j) {
        assert(i != j);
        assert(sorts_before(v, j, i));
        lemma_count_before_grows(v, j, i, v.len() as int);
    }
}

/// With as many numbers as `k` or fewer, every position is flagged.
pub proof fn lemma_topk_of_few(v: Seq<Fixed32>, k: nat, i: int)
    requires
        0 <= i < v.len(),
        v.len() <= k,
    ensures
        topk(v, k)[i],
{
    lemma_count_self(v, i, v.len() as int);
}

proof fn lemma_count_self(v: Seq<Fixed32>, i: int, upto: int)
    requires
        0 <= i < v.len(),
        0 <= upto <= v.len(),
    ensures
        count_before(v, i, upto) <= upto,
        upto > i ==> count_before(v, i, upto) < upto,
    decreases upto,
{
    if upto > 0 {
        lemma_count_self(v, i, upto - 1);
    }
}

/// Whether every number of `s` is zero.
pub open spec fn all_zero(s: Seq<Fixed32>) -> bool {
    forall|i: int| 0 <= i < s.len() ==> (#[trigger] s[i]).bits == 0
}

/// The saturating sum of a vector.
pub fn vec_sum(x: &Vec<Fixed32>) -> (r: Fixed32)
    ensures
        r == sum32(x@),
{
    let mut acc = Fixed32::from_bits(0);
    let mut i: usize = 0;
    while i < x.len()
        invariant
            i <= x.len(),
            acc == sum32(x@.take(i as int)),
        decreases x.len() - i,
    {
        assert(x@.take(i + 1).drop_last() =~= x@.take(i as int));
        acc = acc.saturating_add(x[i]);
        i += 1;
    }
    assert(x@.take(x.len() as int) =~= x@);
    acc
}

/// The saturating sum of a vector of the wider type.
pub fn vec_sum_64(x: &Vec<Fixed64>) -> (r: Fixed64)
    ensures
        r == sum64(x@),
{
    let mut acc = Fixed64::from_bits(0);
    let mut i: usize = 0;
    while i < x.len()
        invariant
            i <= x.len(),
            acc == sum64(x@.take(i as int)),
        decreases x.len() - i,
    {
        assert(x@.take(i + 1).drop_last() =~= x@.take(i as int));
        acc = acc.saturating_add(x[i]);
        i += 1;
    }
    assert(x@.take(x.len() as int) =~= x@);
    acc
}

/// Divides each number by `x_sum`. A zero `x_sum` leaves the vector as it is.
pub fn inplace_normalize_using_sum(x: &mut Vec<Fixed32>, x_sum: Fixed32)
    ensures
        final(x)@ == normalized_by(old(x)@, x_sum),
{
    if x_sum.bits == 0 {
        return ;
    }
    let n = x.len();
    let mut i: usize = 0;
    while i < n
        invariant
            i <= n,
            n == x.len(),
            n == old(x).len(),
            x_sum.bits != 0,
            forall|j: int| 0 <= j < i ==> x@[j] == old(x)@[j].div_or_zero(x_sum),
            forall|j: int| i <= j < n ==> x@[j] == old(x)@[j],
        decreases n - i,
    {
        let q = x[i].div_or_default(x_sum);
        x[i] = q;
        i += 1;
    }
    assert(x@ =~= normalized_by(old(x)@, x_sum));
}

/// Divides each number by the sum of all, so that they sum to one. A vector
/// whose sum is zero is left as it is.
pub fn inplace_normalize(x: &mut Vec<Fixed32>)
    ensures
        final(x)@ == normalized(old(x)@),
{
    let x_sum = vec_sum(x);
    inplace_normalize_using_sum(x, x_sum);
}

/// Divides each number by the sum of all, in the wider type. A vector whose
/// sum is zero is left as it is.
pub fn inplace_normalize_64(x: &mut Vec<Fixed64>)
    ensures
        final(x)@ == normalized64(old(x)@),
{
    let x_sum = vec_sum_64(x);
    if x_sum.bits == 0 {
        return ;
    }
    let n = x.len();
    let mut i: usize = 0;
    while i < n
        invariant
            i <= n,
            n == x.len(),
            n == old(x).len(),
            x_sum.bits != 0,
            x_sum == sum64(old(x)@),
            forall|j: int| 0 <= j < i ==> x@[j] == old(x)@[j].div_or_zero(x_sum),
            forall|j: int| i <= j < n ==> x@[j] == old(x)@[j],
        decreases n - i,
    {
        let q = x[i].div_or_default(x_sum);
        x[i] = q;
        i += 1;
    }
    assert(x@ =~= normalized64(old(x)@));
}

/// Narrows each number to 32 fractional bits.
pub fn vec_fixed64_to_fixed32(vec: Vec<Fixed64>) -> (r: Vec<Fixed32>)
    ensures
        r@ == Seq::new(vec@.len(), |i: int| Fixed32::of_fixed64(vec@[i])),
{
    let mut out: Vec<Fixed32> = Vec::new();
    let mut i: usize = 0;
    while i < vec.len()
        invariant
            i <= vec.len(),
            out.len() == i,
            forall|j: int| 0 <= j < i ==> out@[j] == Fixed32::of_fixed64(vec@[j]),
        decreases vec.len() - i,
    {
        out.push(Fixed32::saturating_from_fixed64(vec[i]));
        i += 1;
    }
    assert(out@ =~= Seq::new(vec@.len(), |i: int| Fixed32::of_fixed64(vec@[i])));
    out
}

/// Sets to zero each number whose position the mask flags.
pub fn inplace_mask_vector(mask: &Vec<bool>, vector: &mut Vec<Fixed32>)
    ensures
        final(vector)@ == masked(mask@, old(vector)@),
{
    let n = vector.len();
    let mut i: usize = 0;
    while i < n
        invariant
            i <= n,
            n == vector.len(),
            n == old(vector).len(),
            forall|j: int| 0 <= j < i ==> vector@[j] == masked(mask@, old(vector)@)[j],
            forall|j: int| i <= j < n ==> vector@[j] == old(vector)@[j],
        decreases n - i,
    {
        if i < mask.len() && mask[i] {
            vector[i] = Fixed32::from_bits(0);
        }
        i += 1;
    }
    assert(vector@ =~= masked(mask@, old(vector)@));
}

/// Divides `x` by `y` position by position; the quotient by zero is zero.
pub fn vecdiv(x: &Vec<Fixed32>, y: &Vec<Fixed32>) -> (r: Vec<Fixed32>)
    ensures
        r@ == quotients(x@, y@),
{
    let mut out: Vec<Fixed32> = Vec::new();
    let mut i: usize = 0;
    while i < x.len()
        invariant
            i <= x.len(),
            out.len() == i,
            forall|j: int| 0 <= j < i ==> out@[j] == quotients(x@, y@)[j],
        decreases x.len() - i,
    {
        let d = if i < y.len() { y[i] } else { Fixed32::from_bits(0) };
        out.push(x[i].div_or_default(d));
        i += 1;
    }
    assert(out@ =~= quotients(x@, y@));
    out
}

/// Whether every number of the vector is zero.
pub fn is_zero(vector: &Vec<Fixed32>) -> (r: bool)
    ensures
        r == all_zero(vector@),
{
    let mut i: usize = 0;
    while i < vector.len()
        invariant
            i <= vector.len(),
            forall|j: int| 0 <= j < i ==> (#[trigger] vector@[j]).bits == 0,
        decreases vector.len() - i,
    {
        if vector[i].bits != 0 {
            return false;
        }
        i += 1;
    }
    true
}

/// Flags the `k` largest numbers of the vector. Of equal numbers at the
/// boundary the ones at the lower positions are flagged.
pub fn is_topk(vector: &Vec<Fixed32>, k: usize) -> (r: Vec<bool>)
    ensures
        r@ == topk(vector@, k as nat),
{
    let n = vector.len();
    let mut out: Vec<bool> = Vec::new();
    let mut i: usize = 0;
    while i < n
        invariant
            i <= n,
            n == vector.len(),
            out.len() == i,
            forall|j: int| 0 <= j < i ==> out@[j] == topk(vector@, k as nat)[j],
        decreases n - i,
    {
        let mut before: usize = 0;
        let mut j: usize = 0;
        while j < n
            invariant
                j <= n,
                i < n,
                n == vector.len(),
                before == count_before(vector@, i as int, j as int),
                before <= j,
            decreases n - j,
        {
            let vj = vector[j].bits;
            let vi = vector[i].bits;
            if vj > vi || (vj == vi && j < i) {
                before += 1;
            }
            j += 1;
        }
        out.push(before < k);
        i += 1;
    }
    assert(out@ =~= topk(vector@, k as nat));
    out
}

/// A number in `0..=1` as a share of 65535, rounded down.
pub fn fixed_proportion_to_u16(x: Fixed32) -> (r: u16)
    ensures
        r == x.proportion_spec(),
{
    x.to_proportion()
}

/// The largest number of `s`, and zero for an empty vector.
pub open spec fn max_of(s: Seq<Fixed32>) -> Fixed32
    decreases s.len(),
{
    if s.len() == 0 {
        Fixed32::zero()
    } else if s.len() == 1 {
        s[0]
    } else {
        max_of(s.drop_last()).max_spec(s.last())
    }
}

/// Each number of `s` as a share of 65535 of the largest, rounded to the
/// nearest. Where the largest is zero, each number as a share of 65535 of
/// one, rounded down.
pub open spec fn max_upscaled(s: Seq<Fixed32>) -> Seq<u16> {
    let m = max_of(s);
    let top = Fixed32::of_u16(u16::MAX);
    Seq::new(
        s.len(),
        |i: int|
            if m.bits == 0 {
                s[i].proportion_spec()
            } else if m.bits > 32768 * unit32() {
                s[i].mul_spec(top.div_or_zero(m)).rounded_spec()
            } else {
                s[i].mul_spec(top).div_or_zero(m).rounded_spec()
            },
    )
}

/// The largest number of the vector, and zero for an empty vector.
pub fn vec_max(x: &Vec<Fixed32>) -> (r: Fixed32)
    ensures
        r == max_of(x@),
{
    if x.len() == 0 {
        return Fixed32::from_bits(0);
    }
    let mut acc = x[0];
    let mut i: usize = 1;
    assert(x@.take(1) =~= seq![x@[0]]);
    while i < x.len()
        invariant
            1 <= i <= x.len(),
            acc == max_of(x@.take(i as int)),
        decreases x.len() - i,
    {
        assert(x@.take(i + 1).drop_last() =~= x@.take(i as int));
        if x[i].bits > acc.bits {
            acc = x[i];
        }
        i += 1;
    }
    assert(x@.take(x.len() as int) =~= x@);
    acc
}

/// Scales the vector so that its largest number becomes 65535, and rounds
/// each number to the nearest integer.
pub fn vec_max_upscale_to_u16(vec: &Vec<Fixed32>) -> (r: Vec<u16>)
    ensures
        r@ == max_upscaled(vec@),
{
    let m = vec_max(vec);
    let top = Fixed32::from_u16(u16::MAX);
    let factor = top.div_or_default(m);
    let mut out: Vec<u16> = Vec::new();
    let mut i: usize = 0;
    while i < vec.len()
        invariant
            i <= vec.len(),
            out.len() == i,
            m == max_of(vec@),
            top == Fixed32::of_u16(u16::MAX),
            factor == top.div_or_zero(m),
            forall|k: int| 0 <= k < i ==> #[trigger] out@[k] == max_upscaled(vec@)[k],
        decreases vec.len() - i,
    {
        let e = vec[i];
        let v = if m.bits == 0 {
            e.to_proportion()
        } else if m.bits > 32768 * 0x1_0000_0000 {
            e.saturating_mul(factor).round_to_u16()
        } else {
            e.saturating_mul(top).div_or_default(m).round_to_u16()
        };
        out.push(v);
        i += 1;
    }
    assert(out@ =~= max_upscaled(vec@));
    out
}

/// How many of the first `upto` positions `p` holds of.
pub open spec fn count_where(p: spec_fn(int) -> bool, upto: int) -> nat
    decreases upto,
{
    if upto <= 0 {
        0
    } else {
        count_where(p, upto - 1) + if p(upto - 1) {
            1nat
        } else {
            0nat
        }
    }
}

/// Whether a position is flagged.
pub open spec fn is_flagged(flags: Seq<bool>) -> spec_fn(int) -> bool {
    |i: int| flags[i]
}

proof fn lemma_count_same(p: spec_fn(int) -> bool, q: spec_fn(int) -> bool, upto: int)
    requires
        forall|i: int| 0 <= i < upto ==> #[trigger] p(i) == q(i),
    ensures
        count_where(p, upto) == count_where(q, upto),
    decreases upto,
{
    if upto > 0 {
        lemma_count_same(p, q, upto - 1);
    }
}

proof fn lemma_count_split(
    whole: spec_fn(int) -> bool,
    p: spec_fn(int) -> bool,
    q: spec_fn(int) -> bool,
    upto: int,
)
    requires
        forall|i: int| 0 <= i < upto ==> #[trigger] whole(i) == (p(i) || q(i)) && !(p(i) && q(i)),
    ensures
        count_where(whole, upto) == count_where(p, upto) + count_where(q, upto),
    decreases upto,
{
    if upto > 0 {
        lemma_count_split(whole, p, q, upto - 1);
    }
}

proof fn lemma_count_one(q: spec_fn(int) -> bool, at: int, upto: int)
    requires
        forall|i: int| 0 <= i < upto ==> #[trigger] q(i) == (i == at),
    ensures
        count_where(q, upto) == (if 0 <= at < upto {
            1nat
        } else {
            0nat
        }),
    decreases upto,
{
    if upto > 0 {
        lemma_count_one(q, at, upto - 1);
    }
}

proof fn lemma_count_none(q: spec_fn(int) -> bool, upto: int)
    requires
        forall|i: int| 0 <= i < upto ==> !(#[trigger] q(i)),
    ensures
        count_where(q, upto) == 0,
    decreases upto,
{
    if upto > 0 {
        lemma_count_none(q, upto - 1);
    }
}

/// A function that takes the numbers below `n` to numbers below `n`, no two
/// to the same, takes some number to `y`.
proof fn lemma_onto(f: spec_fn(int) -> int, n: int, y: int)
    requires
        0 <= y < n,
        forall|i: int| 0 <= i < n ==> 0 <= #[trigger] f(i) < n,
        forall|i: int, j: int| 0 <= i < j < n ==> #[trigger] f(i) != #[trigger] f(j),
    ensures
        exists|i: int| 0 <= i < n && #[trigger] f(i) == y,
    decreases n,
{
    if !(exists|i: int| 0 <= i < n && #[trigger] f(i) == y) {
        let g = |i: int|
            if f(i) > y {
                f(i) - 1
            } else {
                f(i)
            };
        assert forall|i: int| 0 <= i < n - 1 implies 0 <= #[trigger] g(i) < n - 1 by {
            assert(f(i) != y);
        }
        assert forall|i: int, j: int| 0 <= i < j < n - 1 implies #[trigger] g(i) != #[trigger] g(
            j,
        ) by {
            assert(f(i) != f(j));
            assert(f(i) != y && f(j) != y);
        }
        assert(f(n - 1) != y);
        assert(0 <= g(n - 1) < n - 1);
        lemma_onto(g, n - 1, g(n - 1));
        let i = choose|i: int| 0 <= i < n - 1 && #[trigger] g(i) == g(n - 1);
        assert(f(i) != f(n - 1));
        assert(f(i) != y);
    }
}

/// How many positions come before position `i` of `v`.
pub open spec fn rank_in(v: Seq<Fixed32>) -> spec_fn(int) -> int {
    |i: int| count_before(v, i, v.len() as int) as int
}

proof fn lemma_ranks(v: Seq<Fixed32>)
    ensures
        forall|i: int| 0 <= i < v.len() ==> 0 <= #[trigger] rank_in(v)(i) < v.len(),
        forall|i: int, j: int|
            0 <= i < j < v.len() ==> #[trigger] rank_in(v)(i) != #[trigger] rank_in(v)(j),
{
    assert forall|i: int| 0 <= i < v.len() implies 0 <= #[trigger] rank_in(v)(i) < v.len() by {
        lemma_count_self(v, i, v.len() as int);
    }
    assert forall|i: int, j: int| 0 <= i < j < v.len() implies #[trigger] rank_in(v)(i)
        != #[trigger] rank_in(v)(j) by {
        if sorts_before(v, i, j) {
            lemma_count_before_grows(v, i, j, v.len() as int);
        } else {
            assert(sorts_before(v, j, i));
            lemma_count_before_grows(v, j, i, v.len() as int);
        }
    }
}

proof fn lemma_ranks_below(v: Seq<Fixed32>, k: nat)
    ensures
        count_where(|i: int| rank_in(v)(i) < k, v.len() as int) == (if k < v.len() {
            k
        } else {
            v.len()
        }),
    decreases k,
{
    let n = v.len() as int;
    let f = rank_in(v);
    lemma_ranks(v);
    let below = |i: int| rank_in(v)(i) < k;
    if k == 0 {
        lemma_count_none(below, n);
    } else {
        let fewer = |i: int| rank_in(v)(i) < (k - 1) as nat;
        let exactly = |i: int| rank_in(v)(i) == k - 1;
        lemma_ranks_below(v, (k - 1) as nat);
        lemma_count_split(below, fewer, exactly, n);
        if k - 1 < n {
            lemma_onto(f, n, k - 1);
            let at = choose|i: int| 0 <= i < n && #[trigger] f(i) == k - 1;
            assert forall|i: int| 0 <= i < n implies #[trigger] exactly(i) == (i == at) by {
                if i != at && exactly(i) {
                    if i < at {
                        assert(f(i) != f(at));
                    } else {
                        assert(f(at) != f(i));
                    }
                }
            }
            lemma_count_one(exactly, at, n);
        } else {
            lemma_count_none(exactly, n);
        }
    }
}

/// Of `n` numbers exactly `k` are flagged, and all of them where `k` is `n`
/// or more.
pub proof fn lemma_topk_count(v: Seq<Fixed32>, k: nat)
    ensures
        count_where(is_flagged(topk(v, k)), v.len() as int) == (if k < v.len() {
            k
        } else {
            v.len()
        }),
{
    lemma_ranks_below(v, k);
    lemma_count_same(is_flagged(topk(v, k)), |i: int| rank_in(v)(i) < k, v.len() as int);
}

} // verus!
