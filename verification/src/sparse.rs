//! Sparse matrices of fixed-point numbers.
//!
//! A matrix is a vector of rows, one per participant, and a row is a list of
//! `(column, value)` entries in the order in which they were given. A column
//! at or beyond the number of columns that a function is told of takes no
//! part in column sums and maxima and is left as it is by column scaling.
use crate::fixed::Fixed32;
use crate::math::{at_or_zero, flagged, sum32};
use vstd::prelude::*;

verus! {

/// One entry of a row: the column and the value.
pub type Entry = (u16, Fixed32);

/// The rows of a matrix as sequences of entries.
pub open spec fn rows_of(m: Seq<Vec<Entry>>) -> Seq<Seq<Entry>> {
    Seq::new(m.len(), |i: int| m[i]@)
}

/// The values of a row, without their columns.
pub open spec fn values_of(row: Seq<Entry>) -> Seq<Fixed32> {
    Seq::new(row.len(), |k: int| row[k].1)
}

/// The entries that `f` gives for the entries of row `i`, in order; an entry
/// for which `f` gives nothing is dropped.
pub open spec fn filter_map_row(
    row: Seq<Entry>,
    i: int,
    f: spec_fn(int, Entry) -> Option<Entry>,
) -> Seq<Entry>
    decreases row.len(),
{
    if row.len() == 0 {
        Seq::empty()
    } else {
        let rest = filter_map_row(row.drop_last(), i, f);
        match f(i, row.last()) {
            Some(e) => rest.push(e),
            None => rest,
        }
    }
}

/// Each row of `m` passed through [`filter_map_row`].
pub open spec fn filter_map_rows(
    m: Seq<Seq<Entry>>,
    f: spec_fn(int, Entry) -> Option<Entry>,
) -> Seq<Seq<Entry>> {
    Seq::new(m.len(), |i: int| filter_map_row(m[i], i, f))
}

/// `acc` after each entry of row `i` that lies in column `j` has been folded
/// into it by `f`, in the order of the row.
pub open spec fn fold_row_col(
    row: Seq<Entry>,
    j: int,
    i: int,
    f: spec_fn(Fixed32, int, Fixed32) -> Fixed32,
    acc: Fixed32,
) -> Fixed32
    decreases row.len(),
{
    if row.len() == 0 {
        acc
    } else {
        let a = fold_row_col(row.drop_last(), j, i, f, acc);
        if row.last().0 == j {
            f(a, i, row.last().1)
        } else {
            a
        }
    }
}

/// Zero after each entry of column `j` has been folded into it by `f`, row by
/// row from the first.
pub open spec fn fold_col(
    m: Seq<Seq<Entry>>,
    j: int,
    f: spec_fn(Fixed32, int, Fixed32) -> Fixed32,
) -> Fixed32
    decreases m.len(),
{
    if m.len() == 0 {
        Fixed32::zero()
    } else {
        fold_row_col(m.last(), j, m.len() - 1, f, fold_col(m.drop_last(), j, f))
    }
}

/// The fold of each of the first `columns` columns.
pub open spec fn fold_cols(
    m: Seq<Seq<Entry>>,
    columns: nat,
    f: spec_fn(Fixed32, int, Fixed32) -> Fixed32,
) -> Seq<Fixed32> {
    Seq::new(columns, |j: int| fold_col(m, j, f))
}

/// Adds a value to a sum.
pub open spec fn add_value() -> spec_fn(Fixed32, int, Fixed32) -> Fixed32 {
    |acc: Fixed32, i: int, v: Fixed32| acc.add_spec(v)
}

/// Keeps the larger of a maximum and a value.
pub open spec fn max_value() -> spec_fn(Fixed32, int, Fixed32) -> Fixed32 {
    |acc: Fixed32, i: int, v: Fixed32| acc.max_spec(v)
}

/// Adds to a sum the value of row `i` times the number that `vector` has for
/// that row.
pub open spec fn add_scaled(vector: Seq<Fixed32>) -> spec_fn(Fixed32, int, Fixed32) -> Fixed32 {
    |acc: Fixed32, i: int, v: Fixed32| acc.add_spec(at_or_zero(vector, i).mul_spec(v))
}

/// Adds to a sum the value times `w`.
pub open spec fn add_weighted(w: Fixed32) -> spec_fn(Fixed32, int, Fixed32) -> Fixed32 {
    |acc: Fixed32, i: int, v: Fixed32| acc.add_spec(w.mul_spec(v))
}

/// Keeps the value and forgets what came before it.
pub open spec fn last_value() -> spec_fn(Fixed32, int, Fixed32) -> Fixed32 {
    |acc: Fixed32, i: int, v: Fixed32| v
}

/// The sum of each of the first `columns` columns.
pub open spec fn col_sums(m: Seq<Seq<Entry>>, columns: nat) -> Seq<Fixed32> {
    fold_cols(m, columns, add_value())
}

/// The largest value of each of the first `columns` columns, and zero for a
/// column with no value above zero.
pub open spec fn col_maxes(m: Seq<Seq<Entry>>, columns: nat) -> Seq<Fixed32> {
    fold_cols(m, columns, max_value())
}

/// For each column `j` the sum over the rows `i` of `vector[i] * m[i][j]`.
pub open spec fn matmul(m: Seq<Seq<Entry>>, vector: Seq<Fixed32>, columns: nat) -> Seq<Fixed32> {
    fold_cols(m, columns, add_scaled(vector))
}

/// The sum over the entries `(j, v)` of a row of `vector[j] * v`.
pub open spec fn dot_row(row: Seq<Entry>, vector: Seq<Fixed32>) -> Fixed32
    decreases row.len(),
{
    if row.len() == 0 {
        Fixed32::zero()
    } else {
        dot_row(row.drop_last(), vector).add_spec(
            at_or_zero(vector, row.last().0 as int).mul_spec(row.last().1),
        )
    }
}

/// For each row `i` the sum over the columns `j` of `vector[j] * m[i][j]`.
pub open spec fn matmul_transpose(m: Seq<Seq<Entry>>, vector: Seq<Fixed32>) -> Seq<Fixed32> {
    Seq::new(m.len(), |i: int| dot_row(m[i], vector))
}

/// The sum of the values of each row.
pub open spec fn row_sums(m: Seq<Seq<Entry>>) -> Seq<Fixed32> {
    Seq::new(m.len(), |i: int| sum32(values_of(m[i])))
}

/// `m` with the flagged rows emptied.
pub open spec fn rows_masked(mask: Seq<bool>, m: Seq<Seq<Entry>>) -> Seq<Seq<Entry>> {
    Seq::new(m.len(), |i: int| if flagged(mask, i) { Seq::<Entry>::empty() } else { m[i] })
}

/// Drops the entry of a row that lies on the diagonal.
pub open spec fn off_diagonal() -> spec_fn(int, Entry) -> Option<Entry> {
    |i: int, e: Entry| if e.0 == i { None } else { Some(e) }
}

/// Keeps the entry `(j, v)` of row `i` where `first[i] > second[j]`, and
/// drops it where either position is missing.
pub open spec fn newer_than(first: Seq<u64>, second: Seq<u64>) -> spec_fn(int, Entry) -> Option<
    Entry,
> {
    |i: int, e: Entry|
        if 0 <= i < first.len() && e.0 < second.len() && first[i] > second[e.0 as int] {
            Some(e)
        } else {
            None
        }
}

/// Divides the value of an entry by what `divisors` has for its column, where
/// that is there and not zero.
pub open spec fn scaled_by_col(divisors: Seq<Fixed32>) -> spec_fn(int, Entry) -> Option<Entry> {
    |i: int, e: Entry|
        if e.0 < divisors.len() && divisors[e.0 as int].bits != 0 {
            Some((e.0, e.1.div_or_zero(divisors[e.0 as int])))
        } else {
            Some(e)
        }
}

/// Divides the value of an entry by what `divisors` has for its row, where
/// that is there and above zero.
pub open spec fn scaled_by_row(divisors: Seq<Fixed32>) -> spec_fn(int, Entry) -> Option<Entry> {
    |i: int, e: Entry|
        if 0 <= i < divisors.len() && divisors[i].bits > 0 {
            Some((e.0, e.1.div_or_zero(divisors[i])))
        } else {
            Some(e)
        }
}

/// Multiplies the value of an entry by what `vector` has for its row.
pub open spec fn times_row(vector: Seq<Fixed32>) -> spec_fn(int, Entry) -> Option<Entry> {
    |i: int, e: Entry| Some((e.0, at_or_zero(vector, i).mul_spec(e.1)))
}

/// Holds the value of an entry down to the threshold of its column. An entry
/// above a threshold that is not above zero is dropped.
pub open spec fn clipped_to(thresholds: Seq<Fixed32>) -> spec_fn(int, Entry) -> Option<Entry> {
    |i: int, e: Entry|
        {
            let t = at_or_zero(thresholds, e.0 as int);
            if t.bits < e.1.bits {
                if 0 < t.bits {
                    Some((e.0, t))
                } else {
                    None
                }
            } else {
                Some(e)
            }
        }
}

/// Each row divided by its sum, where that sum is above zero.
pub open spec fn row_normalized(m: Seq<Seq<Entry>>) -> Seq<Seq<Entry>> {
    filter_map_rows(m, scaled_by_row(row_sums(m)))
}

/// Each column divided by its sum, where that sum is not zero.
pub open spec fn col_normalized(m: Seq<Seq<Entry>>, columns: nat) -> Seq<Seq<Entry>> {
    filter_map_rows(m, scaled_by_col(col_sums(m, columns)))
}

/// Each column divided by its largest value, where that is above zero.
pub open spec fn col_max_upscaled(m: Seq<Seq<Entry>>, columns: nat) -> Seq<Seq<Entry>> {
    filter_map_rows(m, scaled_by_col(col_maxes(m, columns)))
}

/// The entries `(position, number)` of the numbers above zero, by position.
pub open spec fn sparsified(dense: Seq<Fixed32>) -> Seq<Entry>
    decreases dense.len(),
{
    if dense.len() == 0 {
        Seq::empty()
    } else {
        let rest = sparsified(dense.drop_last());
        if dense.last().bits > 0 {
            rest.push(((dense.len() - 1) as u16, dense.last()))
        } else {
            rest
        }
    }
}

/// Row `i` of `m`, or an empty row where `m` has no such row.
pub open spec fn row_or_empty(m: Seq<Seq<Entry>>, i: int) -> Seq<Entry> {
    if 0 <= i < m.len() {
        m[i]
    } else {
        Seq::empty()
    }
}

/// The number of columns of a square matrix of `rows` rows: a column is named
/// by a `u16`, so there is none beyond the 65535th.
pub open spec fn square_columns(rows: nat) -> nat {
    if rows > 65535 {
        65535
    } else {
        rows
    }
}

/// One row of the moving average, column by column: `alpha` times the new
/// values of the column plus `1 - alpha` times the old ones.
pub open spec fn ema_row(
    new_row: Seq<Entry>,
    old_row: Seq<Entry>,
    i: int,
    alpha: Fixed32,
    columns: nat,
) -> Seq<Fixed32> {
    Seq::new(
        columns,
        |j: int|
            fold_row_col(
                old_row,
                j,
                i,
                add_weighted(Fixed32::one().sub_spec(alpha)),
                fold_row_col(new_row, j, i, add_weighted(alpha), Fixed32::zero()),
            ),
    )
}

/// The exponential moving average of two matrices, entry by entry, with the
/// entries that are not above zero left out.
pub open spec fn mat_ema(new: Seq<Seq<Entry>>, old: Seq<Seq<Entry>>, alpha: Fixed32) -> Seq<
    Seq<Entry>,
> {
    Seq::new(
        new.len(),
        |i: int|
            sparsified(ema_row(new[i], row_or_empty(old, i), i, alpha, square_columns(new.len()))),
    )
}

proof fn lemma_filter_map_step(
    row: Seq<Entry>,
    k: int,
    i: int,
    f: spec_fn(int, Entry) -> Option<Entry>,
)
    requires
        0 <= k < row.len(),
    ensures
        filter_map_row(row.take(k + 1), i, f) == (match f(i, row[k]) {
            Some(e) => filter_map_row(row.take(k), i, f).push(e),
            None => filter_map_row(row.take(k), i, f),
        }),
{
    assert(row.take(k + 1).drop_last() =~= row.take(k));
    assert(row.take(k + 1).last() == row[k]);
}

pub(crate) proof fn lemma_fold_row_step(
    row: Seq<Entry>,
    k: int,
    j: int,
    i: int,
    f: spec_fn(Fixed32, int, Fixed32) -> Fixed32,
    acc: Fixed32,
)
    requires
        0 <= k < row.len(),
    ensures
        fold_row_col(row.take(k + 1), j, i, f, acc) == (if row[k].0 == j {
            f(fold_row_col(row.take(k), j, i, f, acc), i, row[k].1)
        } else {
            fold_row_col(row.take(k), j, i, f, acc)
        }),
{
    assert(row.take(k + 1).drop_last() =~= row.take(k));
    assert(row.take(k + 1).last() == row[k]);
}

proof fn lemma_fold_col_step(
    m: Seq<Seq<Entry>>,
    i: int,
    j: int,
    f: spec_fn(Fixed32, int, Fixed32) -> Fixed32,
)
    requires
        0 <= i < m.len(),
    ensures
        fold_col(m.take(i + 1), j, f) == fold_row_col(m[i], j, i, f, fold_col(m.take(i), j, f)),
{
    assert(m.take(i + 1).drop_last() =~= m.take(i));
    assert(m.take(i + 1).last() == m[i]);
}

/// A vector of `n` zeros.
pub fn zeros(n: usize) -> (r: Vec<Fixed32>)
    ensures
        r@ == Seq::new(n as nat, |i: int| Fixed32::zero()),
{
    let mut out: Vec<Fixed32> = Vec::new();
    let mut i: usize = 0;
    while i < n
        invariant
            i <= n,
            out.len() == i,
            forall|j: int| 0 <= j < i ==> out@[j] == Fixed32::zero(),
        decreases n - i,
    {
        out.push(Fixed32::from_bits(0));
        i += 1;
    }
    assert(out@ =~= Seq::new(n as nat, |i: int| Fixed32::zero()));
    out
}

/// A copy of a row.
pub fn copy_row(row: &Vec<Entry>) -> (r: Vec<Entry>)
    ensures
        r@ == row@,
{
    let mut out: Vec<Entry> = Vec::new();
    let mut k: usize = 0;
    while k < row.len()
        invariant
            k <= row.len(),
            out@ == row@.take(k as int),
        decreases row.len() - k,
    {
        out.push(row[k]);
        assert(row@.take(k + 1) =~= row@.take(k as int).push(row@[k as int]));
        k += 1;
    }
    assert(row@.take(row.len() as int) =~= row@);
    out
}

/// The ways in which a column is folded.
enum ColumnFold {
    Sum,
    Max,
    Scaled,
    Weighted(Fixed32),
    Last,
}

/// The ways in which the entries of a matrix are kept, dropped or changed.
enum EntryRule {
    OffDiagonal,
    NewerThan,
    ScaledByCol,
    ScaledByRow,
    TimesRow,
    ClippedTo,
}

spec fn fold_step(kind: ColumnFold, vector: Seq<Fixed32>) -> spec_fn(
    Fixed32,
    int,
    Fixed32,
) -> Fixed32 {
    match kind {
        ColumnFold::Sum => add_value(),
        ColumnFold::Max => max_value(),
        ColumnFold::Scaled => add_scaled(vector),
        ColumnFold::Weighted(w) => add_weighted(w),
        ColumnFold::Last => last_value(),
    }
}

spec fn entry_step(rule: EntryRule, numbers: Seq<Fixed32>, first: Seq<u64>, second: Seq<u64>)
    -> spec_fn(int, Entry) -> Option<Entry> {
    match rule {
        EntryRule::OffDiagonal => off_diagonal(),
        EntryRule::NewerThan => newer_than(first, second),
        EntryRule::ScaledByCol => scaled_by_col(numbers),
        EntryRule::ScaledByRow => scaled_by_row(numbers),
        EntryRule::TimesRow => times_row(numbers),
        EntryRule::ClippedTo => clipped_to(numbers),
    }
}

fn apply_fold(kind: &ColumnFold, vector: &Vec<Fixed32>, acc: Fixed32, i: usize, v: Fixed32) -> (r:
    Fixed32)
    ensures
        r == fold_step(*kind, vector@)(acc, i as int, v),
{
    match kind {
        ColumnFold::Sum => acc.saturating_add(v),
        ColumnFold::Max => if v.bits > acc.bits {
            v
        } else {
            acc
        },
        ColumnFold::Scaled => {
            let s = if i < vector.len() {
                vector[i]
            } else {
                Fixed32::from_bits(0)
            };
            acc.saturating_add(s.saturating_mul(v))
        },
        ColumnFold::Weighted(w) => acc.saturating_add(w.saturating_mul(v)),
        ColumnFold::Last => v,
    }
}

fn apply_rule(
    rule: &EntryRule,
    numbers: &Vec<Fixed32>,
    first: &Vec<u64>,
    second: &Vec<u64>,
    i: usize,
    e: Entry,
) -> (r: Option<Entry>)
    ensures
        r == entry_step(*rule, numbers@, first@, second@)(i as int, e),
{
    let (c, v) = e;
    let j = c as usize;
    match rule {
        EntryRule::OffDiagonal => if j == i {
            None
        } else {
            Some(e)
        },
        EntryRule::NewerThan => if i < first.len() && j < second.len() && first[i] > second[j] {
            Some(e)
        } else {
            None
        },
        EntryRule::ScaledByCol => if j < numbers.len() && numbers[j].bits != 0 {
            Some((c, v.div_or_default(numbers[j])))
        } else {
            Some(e)
        },
        EntryRule::ScaledByRow => if i < numbers.len() && numbers[i].bits > 0 {
            Some((c, v.div_or_default(numbers[i])))
        } else {
            Some(e)
        },
        EntryRule::TimesRow => {
            let s = if i < numbers.len() {
                numbers[i]
            } else {
                Fixed32::from_bits(0)
            };
            Some((c, s.saturating_mul(v)))
        },
        EntryRule::ClippedTo => {
            let t = if j < numbers.len() {
                numbers[j]
            } else {
                Fixed32::from_bits(0)
            };
            if t.bits < v.bits {
                if 0 < t.bits {
                    Some((c, t))
                } else {
                    None
                }
            } else {
                Some(e)
            }
        },
    }
}

fn fold_row_into(
    res: &mut Vec<Fixed32>,
    row: &Vec<Entry>,
    i: usize,
    kind: &ColumnFold,
    vector: &Vec<Fixed32>,
)
    ensures
        final(res).len() == old(res).len(),
        forall|j: int|
            0 <= j < old(res).len() ==> #[trigger] final(res)@[j] == fold_row_col(
                row@,
                j,
                i as int,
                fold_step(*kind, vector@),
                old(res)@[j],
            ),
{
    let ghost f = fold_step(*kind, vector@);
    let n = res.len();
    let mut k: usize = 0;
    while k < row.len()
        invariant
            k <= row.len(),
            res.len() == n,
            n == old(res).len(),
            f == fold_step(*kind, vector@),
            forall|j: int|
                0 <= j < n ==> #[trigger] res@[j] == fold_row_col(
                    row@.take(k as int),
                    j,
                    i as int,
                    f,
                    old(res)@[j],
                ),
        decreases row.len() - k,
    {
        let (c, v) = row[k];
        proof {
            assert forall|j: int| 0 <= j < n implies fold_row_col(
                row@.take(k + 1),
                j,
                i as int,
                f,
                old(res)@[j],
            ) == (if c == j {
                f(#[trigger] res@[j], i as int, v)
            } else {
                res@[j]
            }) by {
                lemma_fold_row_step(row@, k as int, j, i as int, f, old(res)@[j]);
            }
        }
        if (c as usize) < n {
            let s = apply_fold(kind, vector, res[c as usize], i, v);
            res[c as usize] = s;
        }
        k += 1;
    }
    assert(row@.take(row.len() as int) =~= row@);
}

fn fold_columns(m: &Vec<Vec<Entry>>, columns: u16, kind: ColumnFold, vector: &Vec<Fixed32>) -> (r:
    Vec<Fixed32>)
    ensures
        r@ == fold_cols(rows_of(m@), columns as nat, fold_step(kind, vector@)),
{
    let ghost f = fold_step(kind, vector@);
    let ghost rows = rows_of(m@);
    let n = columns as usize;
    let mut res = zeros(n);
    let mut i: usize = 0;
    while i < m.len()
        invariant
            i <= m.len(),
            res.len() == n,
            rows == rows_of(m@),
            f == fold_step(kind, vector@),
            forall|j: int| 0 <= j < n ==> #[trigger] res@[j] == fold_col(rows.take(i as int), j, f),
        decreases m.len() - i,
    {
        fold_row_into(&mut res, &m[i], i, &kind, vector);
        proof {
            assert forall|j: int| 0 <= j < n implies #[trigger] res@[j] == fold_col(
                rows.take(i + 1),
                j,
                f,
            ) by {
                lemma_fold_col_step(rows, i as int, j, f);
            }
        }
        i += 1;
    }
    assert(rows.take(m.len() as int) =~= rows);
    assert(res@ =~= fold_cols(rows, columns as nat, f));
    res
}

fn filter_map_matrix(
    m: &Vec<Vec<Entry>>,
    rule: EntryRule,
    numbers: &Vec<Fixed32>,
    first: &Vec<u64>,
    second: &Vec<u64>,
) -> (r: Vec<Vec<Entry>>)
    ensures
        rows_of(r@) == filter_map_rows(
            rows_of(m@),
            entry_step(rule, numbers@, first@, second@),
        ),
{
    let ghost f = entry_step(rule, numbers@, first@, second@);
    let ghost rows = rows_of(m@);
    let mut out: Vec<Vec<Entry>> = Vec::new();
    let mut i: usize = 0;
    while i < m.len()
        invariant
            i <= m.len(),
            out.len() == i,
            rows == rows_of(m@),
            f == entry_step(rule, numbers@, first@, second@),
            forall|r: int| 0 <= r < i ==> (#[trigger] out@[r])@ == filter_map_row(rows[r], r, f),
        decreases m.len() - i,
    {
        let row = &m[i];
        let mut new_row: Vec<Entry> = Vec::new();
        let mut k: usize = 0;
        while k < row.len()
            invariant
                k <= row.len(),
                i < m.len(),
                row@ == rows[i as int],
                f == entry_step(rule, numbers@, first@, second@),
                new_row@ == filter_map_row(row@.take(k as int), i as int, f),
            decreases row.len() - k,
        {
            proof {
                lemma_filter_map_step(row@, k as int, i as int, f);
            }
            match apply_rule(&rule, numbers, first, second, i, row[k]) {
                Some(e) => {
                    new_row.push(e);
                },
                None => {},
            }
            k += 1;
        }
        assert(row@.take(row.len() as int) =~= row@);
        out.push(new_row);
        i += 1;
    }
    assert(rows_of(out@) =~= filter_map_rows(rows, f));
    out
}

/// The sum of each of the first `columns` columns.
pub fn col_sum_sparse(m: &Vec<Vec<Entry>>, columns: u16) -> (r: Vec<Fixed32>)
    ensures
        r@ == col_sums(rows_of(m@), columns as nat),
{
    let none: Vec<Fixed32> = Vec::new();
    fold_columns(m, columns, ColumnFold::Sum, &none)
}

/// The largest value of each of the first `columns` columns, and zero for a
/// column that has none above zero.
pub fn col_max_sparse(m: &Vec<Vec<Entry>>, columns: u16) -> (r: Vec<Fixed32>)
    ensures
        r@ == col_maxes(rows_of(m@), columns as nat),
{
    let none: Vec<Fixed32> = Vec::new();
    fold_columns(m, columns, ColumnFold::Max, &none)
}

/// The product of the row vector `vector` and the matrix: for each column the
/// sum over the rows of the row's number times the row's value in that column.
pub fn matmul_sparse(m: &Vec<Vec<Entry>>, vector: &Vec<Fixed32>, columns: u16) -> (r: Vec<Fixed32>)
    ensures
        r@ == matmul(rows_of(m@), vector@, columns as nat),
{
    fold_columns(m, columns, ColumnFold::Scaled, vector)
}

/// The product of the matrix and the column vector `vector`: for each row the
/// sum over its entries of the value times the number of the entry's column.
pub fn matmul_transpose_sparse(m: &Vec<Vec<Entry>>, vector: &Vec<Fixed32>) -> (r: Vec<Fixed32>)
    ensures
        r@ == matmul_transpose(rows_of(m@), vector@),
{
    let mut out: Vec<Fixed32> = Vec::new();
    let mut i: usize = 0;
    while i < m.len()
        invariant
            i <= m.len(),
            out.len() == i,
            forall|r: int| 0 <= r < i ==> #[trigger] out@[r] == dot_row(m@[r]@, vector@),
        decreases m.len() - i,
    {
        let row = &m[i];
        let mut acc = Fixed32::from_bits(0);
        let mut k: usize = 0;
        while k < row.len()
            invariant
                k <= row.len(),
                acc == dot_row(row@.take(k as int), vector@),
            decreases row.len() - k,
        {
            assert(row@.take(k + 1).drop_last() =~= row@.take(k as int));
            let (c, v) = row[k];
            let s = if (c as usize) < vector.len() {
                vector[c as usize]
            } else {
                Fixed32::from_bits(0)
            };
            acc = acc.saturating_add(s.saturating_mul(v));
            k += 1;
        }
        assert(row@.take(row.len() as int) =~= row@);
        out.push(acc);
        i += 1;
    }
    assert(out@ =~= matmul_transpose(rows_of(m@), vector@));
    out
}

/// The sum of the values of each row.
pub fn row_sum_sparse(m: &Vec<Vec<Entry>>) -> (r: Vec<Fixed32>)
    ensures
        r@ == row_sums(rows_of(m@)),
{
    let mut out: Vec<Fixed32> = Vec::new();
    let mut i: usize = 0;
    while i < m.len()
        invariant
            i <= m.len(),
            out.len() == i,
            forall|r: int| 0 <= r < i ==> #[trigger] out@[r] == sum32(values_of(m@[r]@)),
        decreases m.len() - i,
    {
        let row = &m[i];
        let mut acc = Fixed32::from_bits(0);
        let mut k: usize = 0;
        while k < row.len()
            invariant
                k <= row.len(),
                acc == sum32(values_of(row@).take(k as int)),
            decreases row.len() - k,
        {
            assert(values_of(row@).take(k + 1).drop_last() =~= values_of(row@).take(k as int));
            acc = acc.saturating_add(row[k].1);
            k += 1;
        }
        assert(values_of(row@).take(row.len() as int) =~= values_of(row@));
        out.push(acc);
        i += 1;
    }
    assert(out@ =~= row_sums(rows_of(m@)));
    out
}

/// Empties each row that the mask flags.
pub fn mask_rows_sparse(mask: &Vec<bool>, m: &Vec<Vec<Entry>>) -> (r: Vec<Vec<Entry>>)
    ensures
        rows_of(r@) == rows_masked(mask@, rows_of(m@)),
{
    let mut out: Vec<Vec<Entry>> = Vec::new();
    let mut i: usize = 0;
    while i < m.len()
        invariant
            i <= m.len(),
            out.len() == i,
            forall|r: int|
                0 <= r < i ==> (#[trigger] out@[r])@ == rows_masked(mask@, rows_of(m@))[r],
        decreases m.len() - i,
    {
        if i < mask.len() && mask[i] {
            out.push(Vec::new());
        } else {
            out.push(copy_row(&m[i]));
        }
        i += 1;
    }
    assert(rows_of(out@) =~= rows_masked(mask@, rows_of(m@)));
    out
}

/// Drops each entry on the diagonal: no row keeps a value for its own column.
pub fn mask_diag_sparse(m: &Vec<Vec<Entry>>) -> (r: Vec<Vec<Entry>>)
    ensures
        rows_of(r@) == filter_map_rows(rows_of(m@), off_diagonal()),
{
    let none: Vec<Fixed32> = Vec::new();
    let no_blocks: Vec<u64> = Vec::new();
    filter_map_matrix(m, EntryRule::OffDiagonal, &none, &no_blocks, &no_blocks)
}

/// Keeps the entry `(j, v)` of row `i` only where `first[i] > second[j]`; an
/// entry whose row or column has no number in the vectors is dropped.
pub fn vec_mask_sparse_matrix(m: &Vec<Vec<Entry>>, first: &Vec<u64>, second: &Vec<u64>) -> (r: Vec<
    Vec<Entry>,
>)
    ensures
        rows_of(r@) == filter_map_rows(rows_of(m@), newer_than(first@, second@)),
{
    let none: Vec<Fixed32> = Vec::new();
    filter_map_matrix(m, EntryRule::NewerThan, &none, first, second)
}

/// Divides each row by its sum, so that it sums to one. A row whose sum is
/// not above zero is left as it is.
pub fn inplace_row_normalize_sparse(m: &mut Vec<Vec<Entry>>)
    ensures
        rows_of(final(m)@) == row_normalized(rows_of(old(m)@)),
{
    let sums = row_sum_sparse(m);
    let no_blocks: Vec<u64> = Vec::new();
    let out = filter_map_matrix(m, EntryRule::ScaledByRow, &sums, &no_blocks, &no_blocks);
    *m = out;
}

/// Divides each column by its sum, so that it sums to one. A column whose sum
/// is zero is left as it is.
pub fn inplace_col_normalize_sparse(m: &mut Vec<Vec<Entry>>, columns: u16)
    ensures
        rows_of(final(m)@) == col_normalized(rows_of(old(m)@), columns as nat),
{
    let sums = col_sum_sparse(m, columns);
    let no_blocks: Vec<u64> = Vec::new();
    let out = filter_map_matrix(m, EntryRule::ScaledByCol, &sums, &no_blocks, &no_blocks);
    *m = out;
}

/// Divides each column by its largest value, so that its largest value is
/// one. A column with no value above zero is left as it is.
pub fn inplace_col_max_upscale_sparse(m: &mut Vec<Vec<Entry>>, columns: u16)
    ensures
        rows_of(final(m)@) == col_max_upscaled(rows_of(old(m)@), columns as nat),
{
    let maxes = col_max_sparse(m, columns);
    let no_blocks: Vec<u64> = Vec::new();
    let out = filter_map_matrix(m, EntryRule::ScaledByCol, &maxes, &no_blocks, &no_blocks);
    *m = out;
}

/// Multiplies each row by the number that `vector` has for it.
pub fn row_hadamard_sparse(m: &Vec<Vec<Entry>>, vector: &Vec<Fixed32>) -> (r: Vec<Vec<Entry>>)
    ensures
        rows_of(r@) == filter_map_rows(rows_of(m@), times_row(vector@)),
{
    let no_blocks: Vec<u64> = Vec::new();
    filter_map_matrix(m, EntryRule::TimesRow, vector, &no_blocks, &no_blocks)
}

/// Holds each value down to the threshold of its column. A value above a
/// threshold that is not above zero leaves the matrix.
pub fn col_clip_sparse(m: &Vec<Vec<Entry>>, col_threshold: &Vec<Fixed32>) -> (r: Vec<Vec<Entry>>)
    ensures
        rows_of(r@) == filter_map_rows(rows_of(m@), clipped_to(col_threshold@)),
{
    let no_blocks: Vec<u64> = Vec::new();
    filter_map_matrix(m, EntryRule::ClippedTo, col_threshold, &no_blocks, &no_blocks)
}

/// The exponential moving average `alpha * new + (1 - alpha) * old`, entry by
/// entry over a square matrix. A row of the result lists its columns in
/// ascending order and holds no value that is not above zero.
pub fn mat_ema_sparse(new: &Vec<Vec<Entry>>, old: &Vec<Vec<Entry>>, alpha: Fixed32) -> (r: Vec<
    Vec<Entry>,
>)
    ensures
        rows_of(r@) == mat_ema(rows_of(new@), rows_of(old@), alpha),
{
    let n: usize = if new.len() > 65535 {
        65535
    } else {
        new.len()
    };
    let one_minus_alpha = Fixed32::from_u16(1).saturating_sub(alpha);
    let none: Vec<Fixed32> = Vec::new();
    let empty: Vec<Entry> = Vec::new();
    let mut out: Vec<Vec<Entry>> = Vec::new();
    let mut i: usize = 0;
    while i < new.len()
        invariant
            i <= new.len(),
            out.len() == i,
            n == square_columns(new@.len()),
            one_minus_alpha == Fixed32::one().sub_spec(alpha),
            empty@ == Seq::<Entry>::empty(),
            forall|r: int|
                0 <= r < i ==> (#[trigger] out@[r])@ == mat_ema(
                    rows_of(new@),
                    rows_of(old@),
                    alpha,
                )[r],
        decreases new.len() - i,
    {
        let mut dense = zeros(n);
        fold_row_into(&mut dense, &new[i], i, &ColumnFold::Weighted(alpha), &none);
        let old_row = if i < old.len() {
            &old[i]
        } else {
            &empty
        };
        fold_row_into(&mut dense, old_row, i, &ColumnFold::Weighted(one_minus_alpha), &none);
        assert(dense@ =~= ema_row(
            rows_of(new@)[i as int],
            row_or_empty(rows_of(old@), i as int),
            i as int,
            alpha,
            n as nat,
        ));
        let mut row: Vec<Entry> = Vec::new();
        let mut j: usize = 0;
        while j < n
            invariant
                j <= n,
                n == dense.len(),
                n <= 65535,
                row@ == sparsified(dense@.take(j as int)),
            decreases n - j,
        {
            assert(dense@.take(j + 1).drop_last() =~= dense@.take(j as int));
            if dense[j].bits > 0 {
                row.push((j as u16, dense[j]));
            }
            j += 1;
        }
        assert(dense@.take(n as int) =~= dense@);
        out.push(row);
        i += 1;
    }
    assert(rows_of(out@) =~= mat_ema(rows_of(new@), rows_of(old@), alpha));
    out
}

} // verus!
