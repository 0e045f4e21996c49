use vstd::prelude::*;
use crate::matrix::{check_rect, is_rect, n_cols, rows_of, EngineError};

verus! {

/// Column `j` of `m`, as integers.
pub open spec fn int_col(m: Seq<Seq<i64>>, j: int) -> Seq<int> {
    Seq::new(m.len(), |i: int| m[i][j] as int)
}

/// The sum of the first `k` entries of `v`.
pub open spec fn sum_to(v: Seq<int>, k: int) -> int
    decreases k,
{
    if k <= 0 {
        0
    } else {
        sum_to(v, k - 1) + v[k - 1]
    }
}

/// The sum of the squares of the first `k` entries of `v`.
pub open spec fn sum_sq_to(v: Seq<int>, k: int) -> int
    decreases k,
{
    if k <= 0 {
        0
    } else {
        sum_sq_to(v, k - 1) + v[k - 1] * v[k - 1]
    }
}

pub open spec fn sum(v: Seq<int>) -> int {
    sum_to(v, v.len() as int)
}

pub open spec fn sum_sq(v: Seq<int>) -> int {
    sum_sq_to(v, v.len() as int)
}

/// `n * x - sum(x)` for each entry `x` of column `j`: `n` times its deviation
/// from the column mean.
pub open spec fn centered_col(m: Seq<Seq<i64>>, j: int) -> Seq<int> {
    Seq::new(m.len(), |i: int| m.len() * m[i][j] - sum(int_col(m, j)))
}

/// `n * sum(x^2) - sum(x)^2` for column `j`: `n^2` times its population variance.
pub open spec fn spread(m: Seq<Seq<i64>>, j: int) -> int {
    m.len() * sum_sq(int_col(m, j)) - sum(int_col(m, j)) * sum(int_col(m, j))
}

/// Column `j` takes a single value.
pub open spec fn is_constant_col(m: Seq<Seq<i64>>, j: int) -> bool {
    forall|i: int| 0 <= i < m.len() ==> #[trigger] m[i][j] == m[0][j]
}

/// Some column of `m` takes a single value.
pub open spec fn has_constant_col(m: Seq<Seq<i64>>) -> bool {
    exists|j: int| 0 <= j < n_cols(m) && #[trigger] is_constant_col(m, j)
}

/// Every entry lies within `-bound..=bound`.
pub open spec fn entries_within(m: Seq<Seq<i64>>, bound: int) -> bool {
    forall|i: int, j: int|
        0 <= i < m.len() && 0 <= j < m[i].len() ==> -bound <= #[trigger] m[i][j] <= bound
}

/// A matrix standardised column by column, in exact form: entry `(i, j)` of
/// the z-scores is `centered[i][j] / sqrt(spread[j])`.
pub struct Standardized {
    pub centered: Vec<Vec<i64>>,
    pub spread: Vec<i128>,
}

/// `st` is the exact standardisation of `m`.
pub open spec fn is_standardized(st: Standardized, m: Seq<Seq<i64>>) -> bool {
    &&& st.spread@.len() == n_cols(m)
    &&& forall|j: int| 0 <= j < n_cols(m) ==> #[trigger] st.spread@[j] as int == spread(m, j)
    &&& rows_of(&st.centered).len() == m.len()
    &&& forall|i: int| 0 <= i < m.len() ==> #[trigger] rows_of(&st.centered)[i].len() == n_cols(m)
    &&& forall|i: int, j: int|
        0 <= i < m.len() && 0 <= j < n_cols(m) ==> #[trigger] rows_of(&st.centered)[i][j] as int
            == centered_col(m, j)[i]
}

/// The largest entry size for which `normalize` is sure to succeed.
pub const SAFE_ENTRY: i64 = 0x100_0000;

/// The largest row count for which `normalize` is sure to succeed.
pub const SAFE_ROWS: usize = 0x1_0000;

fn constant_column(m: &Vec<Vec<i64>>, j: usize) -> (r: bool)
    requires
        is_rect(rows_of(m)),
        j < n_cols(rows_of(m)),
    ensures
        r == is_constant_col(rows_of(m), j as int),
{
    let ghost rm = rows_of(m);
    let first = m[0][j];
    let mut i: usize = 0;
    while i < m.len()
        invariant
            rm == rows_of(m),
            is_rect(rm),
            j < n_cols(rm),
            first == rm[0][j as int],
            0 <= i <= m@.len(),
            forall|k: int| 0 <= k < i ==> #[trigger] rm[k][j as int] == first,
        decreases m@.len() - i,
    {
        assert(rm[i as int].len() == rm[0].len());
        assert(m@[i as int]@ == rm[i as int]);
        if m[i][j] != first {
            return false;
        }
        i += 1;
    }
    true
}

/// Whether some column of a valid matrix takes a single value.
pub fn has_degenerate_column(m: &Vec<Vec<i64>>) -> (r: bool)
    requires
        is_rect(rows_of(m)),
    ensures
        r == has_constant_col(rows_of(m)),
{
    let cols = m[0].len();
    let mut j: usize = 0;
    while j < cols
        invariant
            is_rect(rows_of(m)),
            cols == n_cols(rows_of(m)),
            0 <= j <= cols,
            forall|k: int| 0 <= k < j ==> !#[trigger] is_constant_col(rows_of(m), k),
        decreases cols - j,
    {
        if constant_column(m, j) {
            return true;
        }
        j += 1;
    }
    false
}

/// The sum and the sum of squares of column `j`.
fn column_sums(m: &Vec<Vec<i64>>, j: usize) -> (r: Option<(i128, i128)>)
    requires
        is_rect(rows_of(m)),
        j < n_cols(rows_of(m)),
    ensures
        r is Some ==> (r->0).0 == sum(int_col(rows_of(m), j as int)) && (r->0).1 == sum_sq(
            int_col(rows_of(m), j as int),
        ),
        entries_within(rows_of(m), SAFE_ENTRY as int) && m@.len() <= SAFE_ROWS ==> r is Some,
{
    let ghost rm = rows_of(m);
    let ghost col = int_col(rm, j as int);
    let mut s: i128 = 0;
    let mut q: i128 = 0;
    let mut i: usize = 0;
    while i < m.len()
        invariant
            rm == rows_of(m),
            col == int_col(rm, j as int),
            is_rect(rm),
            j < n_cols(rm),
            0 <= i <= m@.len(),
            s == sum_to(col, i as int),
            q == sum_sq_to(col, i as int),
            entries_within(rm, SAFE_ENTRY as int) && m@.len() <= SAFE_ROWS ==> -(i * SAFE_ENTRY) <= s
                <= i * SAFE_ENTRY && 0 <= q <= i * (SAFE_ENTRY * SAFE_ENTRY),
        decreases m@.len() - i,
    {
        assert(rm[i as int].len() == rm[0].len());
        assert(m@[i as int]@ == rm[i as int]);
        let x = m[i][j];
        proof {
            crate::matrix::lemma_mul_bound(x as int, x as int, 0x8000_0000_0000_0000);
            assert(0x8000_0000_0000_0000int * 0x8000_0000_0000_0000int
                == 0x4000_0000_0000_0000_0000_0000_0000_0000int);
        }
        let x2: i128 = (x as i128) * (x as i128);
        proof {
            crate::matrix::lemma_mul_square_nonneg(x as int);
            assert(SAFE_ENTRY * SAFE_ENTRY == 0x1_0000_0000_0000int);
            if entries_within(rm, SAFE_ENTRY as int) && m@.len() <= SAFE_ROWS {
                assert(-SAFE_ENTRY <= rm[i as int][j as int] <= SAFE_ENTRY);
                crate::matrix::lemma_mul_bound(x as int, x as int, SAFE_ENTRY as int);
                assert(q + x2 <= (i + 1) * 0x1_0000_0000_0000int);
                assert((i + 1) * 0x1_0000_0000_0000int <= 0x1_0000_0000_0000_0000_0000int);
                assert(-((i + 1) * SAFE_ENTRY) <= s + x <= (i + 1) * SAFE_ENTRY);
            }
        }
        s = match s.checked_add(x as i128) {
            Some(v) => v,
            None => {
                return None;
            },
        };
        q = match q.checked_add(x2) {
            Some(v) => v,
            None => {
                return None;
            },
        };
        i += 1;
    }
    Some((s, q))
}

proof fn lemma_mul_le(a: int, b: int, x: int, y: int)
    requires
        0 <= a <= x,
        0 <= b <= y,
    ensures
        0 <= a * b <= x * y,
{
    assert(0 <= a * b <= x * y) by (nonlinear_arith)
        requires
            0 <= a <= x,
            0 <= b <= y,
    ;
}

proof fn lemma_mul_abs_le(a: int, b: int, x: int, y: int)
    requires
        0 <= a <= x,
        -y <= b <= y,
    ensures
        -(x * y) <= a * b <= x * y,
{
    assert(-(x * y) <= a * b <= x * y) by (nonlinear_arith)
        requires
            0 <= a <= x,
            -y <= b <= y,
    ;
}

/// Standardises each column of `m`: the exact counterpart of replacing each
/// entry by `(x - mean) / stddev`, with the population standard deviation.
///
/// Fails with `InvalidShape` when `m` is empty or ragged, with
/// `DegenerateColumn` exactly when a column takes a single value (its standard
/// deviation is zero), and with `Overflow` when an exact value leaves the
/// integer range; entries within `SAFE_ENTRY` on at most `SAFE_ROWS` rows never do.
pub fn normalize(m: &Vec<Vec<i64>>) -> (r: Result<Standardized, EngineError>)
    ensures
        r is Err && r->Err_0 == EngineError::InvalidShape <==> !is_rect(rows_of(m)),
        r is Err && r->Err_0 == EngineError::DegenerateColumn <==> is_rect(rows_of(m))
            && has_constant_col(rows_of(m)),
        r is Err ==> r->Err_0 == EngineError::InvalidShape || r->Err_0
            == EngineError::DegenerateColumn || r->Err_0 == EngineError::Overflow,
        r is Ok ==> is_standardized(r->Ok_0, rows_of(m)),
        is_rect(rows_of(m)) && !has_constant_col(rows_of(m)) && entries_within(
            rows_of(m),
            SAFE_ENTRY as int,
        ) && m@.len() <= SAFE_ROWS ==> r is Ok,
{
    if !check_rect(m) {
        return Err(EngineError::InvalidShape);
    }
    let ghost rm = rows_of(m);
    let ghost safe = entries_within(rm, SAFE_ENTRY as int) && m@.len() <= SAFE_ROWS;
    let n = m.len();
    let cols = m[0].len();
    let mut j: usize = 0;
    while j < cols
        invariant
            rm == rows_of(m),
            is_rect(rm),
            cols == n_cols(rm),
            0 <= j <= cols,
            forall|k: int| 0 <= k < j ==> !#[trigger] is_constant_col(rm, k),
        decreases cols - j,
    {
        if constant_column(m, j) {
            return Err(EngineError::DegenerateColumn);
        }
        j += 1;
    }
    let mut sums: Vec<i128> = Vec::new();
    let mut spreads: Vec<i128> = Vec::new();
    j = 0;
    while j < cols
        invariant
            rm == rows_of(m),
            is_rect(rm),
            !has_constant_col(rm),
            safe == (entries_within(rm, SAFE_ENTRY as int) && m@.len() <= SAFE_ROWS),
            n == m@.len(),
            cols == n_cols(rm),
            0 <= j <= cols,
            sums@.len() == j,
            spreads@.len() == j,
            forall|k: int| 0 <= k < j ==> #[trigger] sums@[k] == sum(int_col(rm, k)),
            forall|k: int| 0 <= k < j ==> #[trigger] spreads@[k] == spread(rm, k),
            safe ==> forall|k: int| 0 <= k < j ==> -0x100_0000_0000int <= #[trigger] sums@[k] <= 0x100_0000_0000int,
        decreases cols - j,
    {
        let (s, q) = match column_sums(m, j) {
            Some(p) => p,
            None => {
                return Err(EngineError::Overflow);
            },
        };
        proof {
            let col = int_col(rm, j as int);
            assert(sum_sq_to(col, col.len() as int) == q);
            if safe {
                // The bounds that column_sums keeps on its running sums, at the end.
                lemma_column_bounds(rm, j as int);
                lemma_mul_le(n as int, q as int, 0x1_0000, 0x1_0000_0000_0000_0000int);
                crate::matrix::lemma_mul_bound(s as int, s as int, 0x100_0000_0000);
            }
        }
        let nq = match (n as i128).checked_mul(q) {
            Some(v) => v,
            None => {
                return Err(EngineError::Overflow);
            },
        };
        let ss = match s.checked_mul(s) {
            Some(v) => v,
            None => {
                return Err(EngineError::Overflow);
            },
        };
        let sp = match nq.checked_sub(ss) {
            Some(v) => v,
            None => {
                return Err(EngineError::Overflow);
            },
        };
        sums.push(s);
        spreads.push(sp);
        j += 1;
    }
    let mut centered: Vec<Vec<i64>> = Vec::new();
    let mut i: usize = 0;
    while i < n
        invariant
            rm == rows_of(m),
            is_rect(rm),
            !has_constant_col(rm),
            safe == (entries_within(rm, SAFE_ENTRY as int) && m@.len() <= SAFE_ROWS),
            n == m@.len(),
            cols == n_cols(rm),
            sums@.len() == cols,
            spreads@.len() == cols,
            forall|k: int| 0 <= k < cols ==> #[trigger] sums@[k] == sum(int_col(rm, k)),
            forall|k: int| 0 <= k < cols ==> #[trigger] spreads@[k] == spread(rm, k),
            safe ==> forall|k: int| 0 <= k < cols ==> -0x100_0000_0000int <= #[trigger] sums@[k] <= 0x100_0000_0000int,
            0 <= i <= n,
            centered@.len() == i,
            forall|a: int| 0 <= a < i ==> #[trigger] centered@[a]@.len() == cols,
            forall|a: int, b: int|
                0 <= a < i && 0 <= b < cols ==> #[trigger] centered@[a]@[b] as int == centered_col(rm, b)[a],
        decreases n - i,
    {
        assert(rm[i as int].len() == rm[0].len());
        assert(m@[i as int]@ == rm[i as int]);
        let mut row: Vec<i64> = Vec::new();
        let mut k: usize = 0;
        while k < cols
            invariant
                rm == rows_of(m),
                is_rect(rm),
                !has_constant_col(rm),
                safe == (entries_within(rm, SAFE_ENTRY as int) && m@.len() <= SAFE_ROWS),
                n == m@.len(),
                cols == n_cols(rm),
                0 <= i < n,
                m@[i as int]@ == rm[i as int],
                rm[i as int].len() == cols,
                sums@.len() == cols,
                forall|k: int| 0 <= k < cols ==> #[trigger] sums@[k] == sum(int_col(rm, k)),
                safe ==> forall|k: int| 0 <= k < cols ==> -0x100_0000_0000int <= #[trigger] sums@[k] <= 0x100_0000_0000int,
                0 <= k <= cols,
                row@.len() == k,
                forall|b: int| 0 <= b < k ==> #[trigger] row@[b] as int == centered_col(rm, b)[i as int],
            decreases cols - k,
        {
            let x = m[i][k];
            proof {
                if safe {
                    assert(-SAFE_ENTRY <= rm[i as int][k as int] <= SAFE_ENTRY);
                    lemma_mul_abs_le(n as int, x as int, 0x1_0000, SAFE_ENTRY as int);
                }
            }
            let nx = match (n as i128).checked_mul(x as i128) {
                Some(v) => v,
                None => {
                    return Err(EngineError::Overflow);
                },
            };
            let c = match nx.checked_sub(sums[k]) {
                Some(v) => v,
                None => {
                    return Err(EngineError::Overflow);
                },
            };
            if c < i64::MIN as i128 || c > i64::MAX as i128 {
                return Err(EngineError::Overflow);
            }
            row.push(c as i64);
            k += 1;
        }
        centered.push(row);
        i += 1;
    }
    let st = Standardized { centered, spread: spreads };
    proof {
        assert forall|a: int| 0 <= a < n implies #[trigger] rows_of(&st.centered)[a].len() == cols by {
            assert(rows_of(&st.centered)[a] == st.centered@[a]@);
        }
        assert forall|a: int, b: int| 0 <= a < n && 0 <= b < cols implies #[trigger] rows_of(&st.centered)[a][b] as int
            == centered_col(rm, b)[a] by {
            assert(rows_of(&st.centered)[a] == st.centered@[a]@);
        }
    }
    Ok(st)
}

/// Under the safe bounds, a column's sum and sum of squares stay small.
proof fn lemma_column_bounds(m: Seq<Seq<i64>>, j: int)
    requires
        is_rect(m),
        0 <= j < n_cols(m),
        entries_within(m, SAFE_ENTRY as int),
        m.len() <= SAFE_ROWS,
    ensures
        -0x100_0000_0000int <= sum(int_col(m, j)) <= 0x100_0000_0000int,
        0 <= sum_sq(int_col(m, j)) <= 0x1_0000_0000_0000_0000int,
{
    let col = int_col(m, j);
    lemma_prefix_bounds(m, j, col.len() as int);
    assert(SAFE_ENTRY * SAFE_ENTRY == 0x1_0000_0000_0000int);
    lemma_mul_le(col.len() as int, 0x100_0000, 0x1_0000, 0x100_0000);
    lemma_mul_le(col.len() as int, 0x1_0000_0000_0000, 0x1_0000, 0x1_0000_0000_0000);
}

proof fn lemma_prefix_bounds(m: Seq<Seq<i64>>, j: int, k: int)
    requires
        is_rect(m),
        0 <= j < n_cols(m),
        entries_within(m, SAFE_ENTRY as int),
        0 <= k <= m.len(),
    ensures
        -(k * SAFE_ENTRY) <= sum_to(int_col(m, j), k) <= k * SAFE_ENTRY,
        0 <= sum_sq_to(int_col(m, j), k) <= k * (SAFE_ENTRY * SAFE_ENTRY),
    decreases k,
{
    if k > 0 {
        lemma_prefix_bounds(m, j, k - 1);
        let x = m[k - 1][j] as int;
        assert(m[k - 1].len() == m[0].len());
        assert(-SAFE_ENTRY <= m[k - 1][j] <= SAFE_ENTRY);
        crate::matrix::lemma_mul_bound(x, x, SAFE_ENTRY as int);
        crate::matrix::lemma_mul_square_nonneg(x);
        assert(int_col(m, j)[k - 1] == x);
        assert((k - 1) * (SAFE_ENTRY * SAFE_ENTRY) + SAFE_ENTRY * SAFE_ENTRY == k * (SAFE_ENTRY * SAFE_ENTRY)) by (nonlinear_arith);
        assert((k - 1) * SAFE_ENTRY + SAFE_ENTRY == k * SAFE_ENTRY) by (nonlinear_arith);
    }
}

proof fn lemma_centered_sums(m: Seq<Seq<i64>>, j: int, k: int)
    requires
        0 <= k <= m.len(),
    ensures
        sum_to(centered_col(m, j), k) == m.len() * sum_to(int_col(m, j), k) - k * sum(int_col(m, j)),
        sum_sq_to(centered_col(m, j), k) == m.len() * m.len() * sum_sq_to(int_col(m, j), k) - 2
            * m.len() * sum(int_col(m, j)) * sum_to(int_col(m, j), k) + k * (sum(int_col(m, j)) * sum(
            int_col(m, j),
        )),
    decreases k,
{
    if k > 0 {
        lemma_centered_sums(m, j, k - 1);
        let n = m.len() as int;
        let s = sum(int_col(m, j));
        let x = int_col(m, j)[k - 1];
        let p = sum_to(int_col(m, j), k - 1);
        let q = sum_sq_to(int_col(m, j), k - 1);
        let c = centered_col(m, j)[k - 1];
        assert(c == n * x - s);
        assert(sum_to(int_col(m, j), k) == p + x);
        assert(sum_sq_to(int_col(m, j), k) == q + x * x);
        assert(sum_to(centered_col(m, j), k) == sum_to(centered_col(m, j), k - 1) + c);
        assert(sum_sq_to(centered_col(m, j), k) == sum_sq_to(centered_col(m, j), k - 1) + c * c);
        let sc = sum_to(centered_col(m, j), k - 1);
        let qc = sum_sq_to(centered_col(m, j), k - 1);
        assert(sc + c == n * (p + x) - k * s) by (nonlinear_arith)
            requires
                sc == n * p - (k - 1) * s,
                c == n * x - s,
        ;
        assert(qc + c * c == n * n * (q + x * x) - 2 * n * s * (p + x) + k * (s * s)) by (nonlinear_arith)
            requires
                qc == n * n * q - 2 * n * s * p + (k - 1) * (s * s),
                c == n * x - s,
        ;
    } else {
        let n = m.len() as int;
        let s = sum(int_col(m, j));
        assert(n * 0 == 0 && k * s == 0 && k * (s * s) == 0 && n * n * 0 == 0 && 2 * n * s * 0 == 0) by (nonlinear_arith)
            requires
                k == 0,
        ;
    }
}

proof fn lemma_sum_sq_zero(v: Seq<int>, k: int)
    requires
        0 <= k <= v.len(),
    ensures
        sum_sq_to(v, k) >= 0,
        sum_sq_to(v, k) == 0 ==> forall|i: int| 0 <= i < k ==> #[trigger] v[i] == 0,
    decreases k,
{
    if k > 0 {
        lemma_sum_sq_zero(v, k - 1);
        let x = v[k - 1];
        crate::matrix::lemma_mul_square_nonneg(x);
        if x != 0 {
            assert(x * x > 0) by (nonlinear_arith)
                requires
                    x != 0,
            ;
        }
    }
}

proof fn lemma_constant_sum(m: Seq<Seq<i64>>, j: int, k: int)
    requires
        0 < m.len(),
        0 <= k <= m.len(),
        is_constant_col(m, j),
    ensures
        sum_to(int_col(m, j), k) == k * m[0][j],
    decreases k,
{
    if k > 0 {
        lemma_constant_sum(m, j, k - 1);
        assert(m[k - 1][j] == m[0][j]);
        assert(int_col(m, j)[k - 1] == m[k - 1][j]);
        assert(sum_to(int_col(m, j), k) == sum_to(int_col(m, j), k - 1) + int_col(m, j)[k - 1]);
        assert((k - 1) * m[0][j] + m[0][j] == k * m[0][j]) by (nonlinear_arith);
    } else {
        assert(k * m[0][j] == 0) by (nonlinear_arith)
            requires
                k == 0,
        ;
    }
}

/// Standardisation laws. With `z[i][j] = centered[i][j] / sqrt(spread[j])`:
/// every standardised column has mean zero (its centered entries sum to zero)
/// and population variance one (their squares sum to `n * spread[j]`), and the
/// spread is zero exactly for a column that takes a single value, the
/// degenerate case that `normalize` rejects.
pub proof fn lemma_standardization(m: Seq<Seq<i64>>, j: int)
    requires
        is_rect(m),
        0 <= j < n_cols(m),
    ensures
        sum(centered_col(m, j)) == 0,
        sum_sq(centered_col(m, j)) == m.len() * spread(m, j),
        is_constant_col(m, j) <==> spread(m, j) == 0,
        spread(m, j) >= 0,
{
    let n = m.len() as int;
    let c = centered_col(m, j);
    let x = int_col(m, j);
    let s = sum(x);
    let q = sum_sq(x);
    lemma_centered_sums(m, j, n);
    assert(n * s - n * s == 0);
    assert(n * n * q - 2 * n * s * s + n * (s * s) == n * (n * q - s * s)) by (nonlinear_arith);
    assert(sum_sq(c) == n * spread(m, j));
    lemma_sum_sq_zero(c, n);
    assert(spread(m, j) >= 0) by (nonlinear_arith)
        requires
            n > 0,
            n * spread(m, j) >= 0,
    ;
    if spread(m, j) == 0 {
        assert forall|i: int| 0 <= i < n implies #[trigger] m[i][j] == m[0][j] by {
            assert(c[i] == 0 && c[0] == 0);
            assert(c[i] == n * m[i][j] - s);
            assert(c[0] == n * m[0][j] - s);
            let (a, b) = (m[i][j] as int, m[0][j] as int);
            assert(a == b) by (nonlinear_arith)
                requires
                    n > 0,
                    n * a - s == 0,
                    n * b - s == 0,
            ;
        }
    }
    if is_constant_col(m, j) {
        lemma_constant_sum(m, j, n);
        assert forall|i: int| 0 <= i < n implies #[trigger] c[i] == 0 by {
            assert(m[i][j] == m[0][j]);
        }
        assert(sum_sq(c) == 0) by {
            lemma_zero_sum_sq(c, n);
        }
        assert(spread(m, j) == 0) by (nonlinear_arith)
            requires
                n > 0,
                n * spread(m, j) == 0,
        ;
    }
}

proof fn lemma_zero_sum_sq(v: Seq<int>, k: int)
    requires
        0 <= k <= v.len(),
        forall|i: int| 0 <= i < v.len() ==> #[trigger] v[i] == 0,
    ensures
        sum_sq_to(v, k) == 0,
    decreases k,
{
    if k > 0 {
        lemma_zero_sum_sq(v, k - 1);
        assert(v[k - 1] == 0);
    }
}

/// The matrix of centered entries, `n * x - sum` in each column.
pub open spec fn centered_matrix(m: Seq<Seq<i64>>) -> Seq<Seq<i64>> {
    Seq::new(m.len(), |i: int| Seq::new(n_cols(m) as nat, |j: int| centered_col(m, j)[i] as i64))
}

/// The centered part of a standardisation is `centered_matrix(m)`.
pub proof fn lemma_centered_matrix(st: Standardized, m: Seq<Seq<i64>>)
    requires
        is_standardized(st, m),
    ensures
        rows_of(&st.centered) == centered_matrix(m),
{
    let c = rows_of(&st.centered);
    assert forall|i: int| 0 <= i < m.len() implies #[trigger] c[i] == centered_matrix(m)[i] by {
        assert(c[i] =~= centered_matrix(m)[i]);
    }
    assert(c =~= centered_matrix(m));
}

} // verus!
