use vstd::prelude::*;

verus! {

/// Failures of the matrix primitives, of the pipeline built on them, and of the
/// calibration loop.
#[derive(Debug, Clone, Copy, PartialEq, Eq, Structural)]
pub enum EngineError {
    /// A matrix is empty, has an empty row, or has rows of different lengths.
    InvalidShape,
    /// Operand sizes do not fit together.
    DimensionMismatch,
    /// The determinant of the matrix to invert is zero.
    SingularMatrix,
    /// A feature column takes one value only.
    DegenerateColumn,
    /// An exact intermediate value does not fit in 64 bits.
    Overflow,
    /// The calibration loop reached its iteration ceiling without a full match.
    IterationLimitExceeded,
}

/// The rows of a matrix, as sequences.
pub open spec fn rows_of<T>(m: &Vec<Vec<T>>) -> Seq<Seq<T>> {
    m@.map_values(|r: Vec<T>| r@)
}

/// At least one row, at least one column, and every row of the same length.
pub open spec fn is_rect<T>(m: Seq<Seq<T>>) -> bool {
    &&& m.len() > 0
    &&& m[0].len() > 0
    &&& forall|i: int| 0 <= i < m.len() ==> #[trigger] m[i].len() == m[0].len()
}

pub open spec fn n_rows<T>(m: Seq<Seq<T>>) -> int {
    m.len() as int
}

pub open spec fn n_cols<T>(m: Seq<Seq<T>>) -> int {
    if m.len() > 0 { m[0].len() as int } else { 0 }
}

/// The transpose: `t[j][i] == m[i][j]`.
pub open spec fn transposed<T>(m: Seq<Seq<T>>) -> Seq<Seq<T>> {
    Seq::new(n_cols(m) as nat, |j: int| Seq::new(m.len(), |i: int| m[i][j]))
}

/// Checks that a matrix is rectangular and non-empty.
pub fn check_rect<T>(m: &Vec<Vec<T>>) -> (r: bool)
    ensures
        r == is_rect(rows_of(m)),
{
    if m.len() == 0 || m[0].len() == 0 {
        return false;
    }
    let cols = m[0].len();
    let mut i: usize = 0;
    while i < m.len()
        invariant
            0 <= i <= m@.len(),
            m@.len() > 0,
            cols == m@[0]@.len(),
            forall|k: int| 0 <= k < i ==> #[trigger] m@[k]@.len() == cols,
        decreases m@.len() - i,
    {
        if m[i].len() != cols {
            assert(rows_of(m)[i as int].len() != rows_of(m)[0].len());
            return false;
        }
        i += 1;
    }
    assert forall|k: int| 0 <= k < rows_of(m).len() implies #[trigger] rows_of(m)[k].len() == rows_of(m)[0].len() by {
        assert(m@[k]@.len() == cols);
    }
    true
}

/// Returns the transpose of `m`; fails with `InvalidShape` on an empty or ragged matrix.
pub fn transpose<T: Copy>(m: &Vec<Vec<T>>) -> (r: Result<Vec<Vec<T>>, EngineError>)
    ensures
        is_rect(rows_of(m)) ==> r is Ok && rows_of(&r->Ok_0) == transposed(rows_of(m)),
        !is_rect(rows_of(m)) ==> r == Err::<Vec<Vec<T>>, EngineError>(EngineError::InvalidShape),
{
    if !check_rect(m) {
        return Err(EngineError::InvalidShape);
    }
    let ghost rm = rows_of(m);
    let n = m.len();
    let cols = m[0].len();
    let mut out: Vec<Vec<T>> = Vec::new();
    let mut j: usize = 0;
    while j < cols
        invariant
            n == m@.len(),
            cols == m@[0]@.len(),
            rm == rows_of(m),
            is_rect(rm),
            0 <= j <= cols,
            out@.len() == j,
            forall|jj: int| 0 <= jj < j ==> #[trigger] out@[jj]@ == transposed(rm)[jj],
        decreases cols - j,
    {
        let mut col: Vec<T> = Vec::new();
        let mut i: usize = 0;
        while i < n
            invariant
                n == m@.len(),
                cols == m@[0]@.len(),
                rm == rows_of(m),
                is_rect(rm),
                0 <= j < cols,
                0 <= i <= n,
                col@.len() == i,
                forall|ii: int| 0 <= ii < i ==> #[trigger] col@[ii] == rm[ii][j as int],
            decreases n - i,
        {
            assert(rm[i as int].len() == cols);
            col.push(m[i][j]);
            i += 1;
        }
        assert(col@ =~= transposed(rm)[j as int]);
        out.push(col);
        j += 1;
    }
    assert(rows_of(&out) =~= transposed(rm));
    Ok(out)
}

/// Transposing a valid matrix twice gives it back.
pub proof fn lemma_transpose_involution<T>(m: Seq<Seq<T>>)
    requires
        is_rect(m),
    ensures
        is_rect(transposed(m)),
        transposed(transposed(m)) == m,
{
    let t = transposed(m);
    assert(t[0].len() == m.len());
    assert(n_cols(t) == m.len());
    assert forall|i: int| 0 <= i < m.len() implies #[trigger] transposed(t)[i] == m[i] by {
        assert(transposed(t)[i] =~= m[i]);
    }
    assert(transposed(t) =~= m);
}

/// The value of an integer when it fits in an `i64`.
pub open spec fn fits(v: int) -> bool {
    i64::MIN <= v <= i64::MAX
}

/// The sum of `x[t] * y[t]` over the first `k` positions.
pub open spec fn dot_prefix(x: Seq<i64>, y: Seq<i64>, k: int) -> int
    decreases k,
{
    if k <= 0 {
        0
    } else {
        dot_prefix(x, y, k - 1) + x[k - 1] * y[k - 1]
    }
}

/// The dot product of `x` and `y`, over the positions of `x`.
pub open spec fn dot(x: Seq<i64>, y: Seq<i64>) -> int {
    dot_prefix(x, y, x.len() as int)
}

/// Each product and each running sum of the first `k` positions fits in an `i64`.
pub open spec fn dot_fits_prefix(x: Seq<i64>, y: Seq<i64>, k: int) -> bool
    decreases k,
{
    if k <= 0 {
        true
    } else {
        &&& dot_fits_prefix(x, y, k - 1)
        &&& fits(x[k - 1] * y[k - 1])
        &&& fits(dot_prefix(x, y, k))
    }
}

/// The dot product of `x` and `y` can be summed left to right in 64 bits.
pub open spec fn dot_fits(x: Seq<i64>, y: Seq<i64>) -> bool {
    dot_fits_prefix(x, y, x.len() as int)
}

/// A dot product of length two, written out.
pub proof fn lemma_dot2(x: Seq<i64>, y: Seq<i64>)
    requires
        x.len() == 2,
    ensures
        dot(x, y) == x[0] * y[0] + x[1] * y[1],
{
    assert(dot_prefix(x, y, 0) == 0);
    assert(dot_prefix(x, y, 1) == x[0] * y[0]);
}

/// A dot product of length two fits exactly when both products and their sum fit.
pub proof fn lemma_dot_fits2(x: Seq<i64>, y: Seq<i64>)
    requires
        x.len() == 2,
        y.len() == 2,
    ensures
        dot_fits(x, y) <==> fits(x[0] * y[0]) && fits(x[1] * y[1]) && fits(x[0] * y[0] + x[1] * y[1]),
{
    assert(dot_prefix(x, y, 0) == 0);
    assert(dot_prefix(x, y, 1) == x[0] * y[0]);
    assert(dot_prefix(x, y, 2) == x[0] * y[0] + x[1] * y[1]);
    assert(dot_fits_prefix(x, y, 0));
    assert(dot_fits_prefix(x, y, 1) == (fits(x[0] * y[0]) && fits(dot_prefix(x, y, 1))));
    assert(dot_fits_prefix(x, y, 2) == (dot_fits_prefix(x, y, 1) && fits(x[1] * y[1]) && fits(
        dot_prefix(x, y, 2),
    )));
}

/// Row `j` of the transpose is column `j`.
pub proof fn lemma_transposed_row(m: Seq<Seq<i64>>, j: int)
    requires
        is_rect(m),
        0 <= j < n_cols(m),
    ensures
        transposed(m)[j] == column(m, j),
{
    assert(transposed(m)[j] =~= column(m, j));
}

proof fn lemma_dot_fits_shorter(x: Seq<i64>, y: Seq<i64>, k: int, n: int)
    requires
        0 <= k <= n,
        dot_fits_prefix(x, y, n),
    ensures
        dot_fits_prefix(x, y, k),
    decreases n - k,
{
    if k < n {
        lemma_dot_fits_shorter(x, y, k, n - 1);
    }
}

/// Column `j` of `m`.
pub open spec fn column(m: Seq<Seq<i64>>, j: int) -> Seq<i64> {
    Seq::new(m.len(), |t: int| m[t][j])
}

/// Every entry of `a * b` can be summed in 64 bits.
pub open spec fn product_fits(a: Seq<Seq<i64>>, b: Seq<Seq<i64>>) -> bool {
    forall|i: int, j: int|
        0 <= i < a.len() && 0 <= j < n_cols(b) ==> #[trigger] dot_fits(a[i], column(b, j))
}

/// `c` is the exact product `a * b`.
pub open spec fn is_product(c: Seq<Seq<i64>>, a: Seq<Seq<i64>>, b: Seq<Seq<i64>>) -> bool {
    &&& c.len() == a.len()
    &&& forall|i: int| 0 <= i < c.len() ==> #[trigger] c[i].len() == n_cols(b)
    &&& forall|i: int, j: int|
        0 <= i < c.len() && 0 <= j < n_cols(b) ==> #[trigger] c[i][j] == dot(a[i], column(b, j))
}

/// The dot product of two vectors of equal length; `None` when a product or a
/// running sum leaves the 64-bit range.
pub fn dot_checked(x: &Vec<i64>, y: &Vec<i64>) -> (r: Option<i64>)
    requires
        x@.len() == y@.len(),
    ensures
        r is Some <==> dot_fits(x@, y@),
        r is Some ==> r->0 == dot(x@, y@),
{
    let mut acc: i64 = 0;
    let mut k: usize = 0;
    while k < x.len()
        invariant
            x@.len() == y@.len(),
            0 <= k <= x@.len(),
            dot_fits_prefix(x@, y@, k as int),
            acc == dot_prefix(x@, y@, k as int),
        decreases x@.len() - k,
    {
        let p = match x[k].checked_mul(y[k]) {
            Some(p) => p,
            None => {
                proof {
                    if dot_fits(x@, y@) {
                        lemma_dot_fits_shorter(x@, y@, k as int + 1, x@.len() as int);
                    }
                }
                return None;
            },
        };
        acc = match acc.checked_add(p) {
            Some(v) => v,
            None => {
                proof {
                    if dot_fits(x@, y@) {
                        lemma_dot_fits_shorter(x@, y@, k as int + 1, x@.len() as int);
                    }
                }
                return None;
            },
        };
        k += 1;
    }
    Some(acc)
}

/// Column `j` of `m`, copied out.
fn column_of(m: &Vec<Vec<i64>>, j: usize) -> (r: Vec<i64>)
    requires
        forall|t: int| 0 <= t < m@.len() ==> j < #[trigger] m@[t]@.len(),
    ensures
        r@ == column(rows_of(m), j as int),
{
    let mut r: Vec<i64> = Vec::new();
    let mut t: usize = 0;
    while t < m.len()
        invariant
            forall|t: int| 0 <= t < m@.len() ==> j < #[trigger] m@[t]@.len(),
            0 <= t <= m@.len(),
            r@.len() == t,
            forall|s: int| 0 <= s < t ==> #[trigger] r@[s] == m@[s]@[j as int],
        decreases m@.len() - t,
    {
        r.push(m[t][j]);
        t += 1;
    }
    assert(r@ =~= column(rows_of(m), j as int));
    r
}

/// The product `a * b`.
///
/// Fails with `InvalidShape` when either operand is empty or ragged, with
/// `DimensionMismatch` exactly when the column count of `a` differs from the row
/// count of `b`, and with `Overflow` when an entry cannot be summed in 64 bits.
pub fn matmul(a: &Vec<Vec<i64>>, b: &Vec<Vec<i64>>) -> (r: Result<Vec<Vec<i64>>, EngineError>)
    ensures
        r == Err::<Vec<Vec<i64>>, EngineError>(EngineError::InvalidShape) <==> !is_rect(rows_of(a))
            || !is_rect(rows_of(b)),
        r == Err::<Vec<Vec<i64>>, EngineError>(EngineError::DimensionMismatch) <==> is_rect(rows_of(a))
            && is_rect(rows_of(b)) && n_cols(rows_of(a)) != n_rows(rows_of(b)),
        r == Err::<Vec<Vec<i64>>, EngineError>(EngineError::Overflow) <==> is_rect(rows_of(a))
            && is_rect(rows_of(b)) && n_cols(rows_of(a)) == n_rows(rows_of(b))
            && !product_fits(rows_of(a), rows_of(b)),
        r is Ok <==> is_rect(rows_of(a)) && is_rect(rows_of(b)) && n_cols(rows_of(a)) == n_rows(
            rows_of(b),
        ) && product_fits(rows_of(a), rows_of(b)),
        r is Ok ==> is_product(rows_of(&r->Ok_0), rows_of(a), rows_of(b)),
        r is Err ==> r->Err_0 == EngineError::InvalidShape || r->Err_0
            == EngineError::DimensionMismatch || r->Err_0 == EngineError::Overflow,
{
    if !check_rect(a) || !check_rect(b) {
        return Err(EngineError::InvalidShape);
    }
    if a[0].len() != b.len() {
        return Err(EngineError::DimensionMismatch);
    }
    let ghost ra = rows_of(a);
    let ghost rb = rows_of(b);
    let cols = b[0].len();
    let mut c: Vec<Vec<i64>> = Vec::new();
    let mut i: usize = 0;
    while i < a.len()
        invariant
            ra == rows_of(a),
            rb == rows_of(b),
            is_rect(ra),
            is_rect(rb),
            n_cols(ra) == n_rows(rb),
            cols == n_cols(rb),
            0 <= i <= a@.len(),
            c@.len() == i,
            forall|ii: int| 0 <= ii < i ==> #[trigger] c@[ii]@.len() == cols,
            forall|ii: int, j: int|
                0 <= ii < i && 0 <= j < cols ==> #[trigger] c@[ii]@[j] == dot(ra[ii], column(rb, j)),
            forall|ii: int, j: int|
                0 <= ii < i && 0 <= j < cols ==> #[trigger] dot_fits(ra[ii], column(rb, j)),
        decreases a@.len() - i,
    {
        let mut row: Vec<i64> = Vec::new();
        let mut j: usize = 0;
        while j < cols
            invariant
                ra == rows_of(a),
                rb == rows_of(b),
                is_rect(ra),
                is_rect(rb),
                n_cols(ra) == n_rows(rb),
                cols == n_cols(rb),
                0 <= i < a@.len(),
                0 <= j <= cols,
                row@.len() == j,
                forall|jj: int| 0 <= jj < j ==> #[trigger] row@[jj] == dot(ra[i as int], column(rb, jj)),
                forall|jj: int| 0 <= jj < j ==> #[trigger] dot_fits(ra[i as int], column(rb, jj)),
            decreases cols - j,
        {
            proof {
                assert forall|t: int| 0 <= t < b@.len() implies j < #[trigger] b@[t]@.len() by {
                    assert(rb[t].len() == rb[0].len());
                }
            }
            let col = column_of(b, j);
            assert(a@[i as int]@ == ra[i as int]);
            assert(ra[i as int].len() == ra[0].len());
            match dot_checked(&a[i], &col) {
                Some(v) => row.push(v),
                None => {
                    assert(!dot_fits(ra[i as int], column(rb, j as int)));
                    return Err(EngineError::Overflow);
                },
            }
            j += 1;
        }
        c.push(row);
        i += 1;
    }
    let ghost rc = rows_of(&c);
    assert(is_product(rc, ra, rb));
    Ok(c)
}

/// Every row of `a` can be multiplied with `v` in 64 bits.
pub open spec fn matvec_fits(a: Seq<Seq<i64>>, v: Seq<i64>) -> bool {
    forall|i: int| 0 <= i < a.len() ==> #[trigger] dot_fits(a[i], v)
}

/// `w` is the exact product of `a` with the vector `v`.
pub open spec fn is_matvec(w: Seq<i64>, a: Seq<Seq<i64>>, v: Seq<i64>) -> bool {
    &&& w.len() == a.len()
    &&& forall|i: int| 0 <= i < w.len() ==> #[trigger] w[i] == dot(a[i], v)
}

/// The product of `a` with the vector `v`: one dot product per row.
///
/// Fails with `InvalidShape` when `a` is empty or ragged, with
/// `DimensionMismatch` exactly when the column count of `a` differs from the
/// length of `v`, and with `Overflow` when a row cannot be summed in 64 bits.
pub fn matvec(a: &Vec<Vec<i64>>, v: &Vec<i64>) -> (r: Result<Vec<i64>, EngineError>)
    ensures
        r == Err::<Vec<i64>, EngineError>(EngineError::InvalidShape) <==> !is_rect(rows_of(a)),
        r == Err::<Vec<i64>, EngineError>(EngineError::DimensionMismatch) <==> is_rect(rows_of(a))
            && n_cols(rows_of(a)) != v@.len(),
        r == Err::<Vec<i64>, EngineError>(EngineError::Overflow) <==> is_rect(rows_of(a))
            && n_cols(rows_of(a)) == v@.len() && !matvec_fits(rows_of(a), v@),
        r is Ok ==> is_matvec(r->Ok_0@, rows_of(a), v@),
        r is Err ==> r->Err_0 == EngineError::InvalidShape || r->Err_0
            == EngineError::DimensionMismatch || r->Err_0 == EngineError::Overflow,
{
    if !check_rect(a) {
        return Err(EngineError::InvalidShape);
    }
    if a[0].len() != v.len() {
        return Err(EngineError::DimensionMismatch);
    }
    let ghost ra = rows_of(a);
    let mut w: Vec<i64> = Vec::new();
    let mut i: usize = 0;
    while i < a.len()
        invariant
            ra == rows_of(a),
            is_rect(ra),
            n_cols(ra) == v@.len(),
            0 <= i <= a@.len(),
            w@.len() == i,
            forall|ii: int| 0 <= ii < i ==> #[trigger] w@[ii] == dot(ra[ii], v@),
            forall|ii: int| 0 <= ii < i ==> #[trigger] dot_fits(ra[ii], v@),
        decreases a@.len() - i,
    {
        assert(a@[i as int]@ == ra[i as int]);
        assert(ra[i as int].len() == ra[0].len());
        match dot_checked(&a[i], v) {
            Some(x) => w.push(x),
            None => {
                return Err(EngineError::Overflow);
            },
        }
        i += 1;
    }
    Ok(w)
}

/// A 2x2 matrix.
pub open spec fn is_2x2(m: Seq<Seq<i64>>) -> bool {
    &&& m.len() == 2
    &&& m[0].len() == 2
    &&& m[1].len() == 2
}

/// The determinant of a 2x2 matrix.
pub open spec fn det2(m: Seq<Seq<i64>>) -> int {
    m[0][0] * m[1][1] - m[0][1] * m[1][0]
}

/// The adjugate `[[d, -b], [-c, a]]` of `[[a, b], [c, d]]`.
pub open spec fn adjugate2(m: Seq<Seq<i64>>) -> Seq<Seq<int>> {
    let nb = 0 - m[0][1];
    let nc = 0 - m[1][0];
    seq![seq![m[1][1] as int, nb], seq![nc, m[0][0] as int]]
}

/// The inverse of a 2x2 matrix in exact form: `adj / det`.
pub struct ScaledInverse {
    pub adj: Vec<Vec<i64>>,
    pub det: i64,
}

/// `inv` holds the adjugate and the determinant of `m`.
pub open spec fn is_scaled_inverse(inv: ScaledInverse, m: Seq<Seq<i64>>) -> bool {
    &&& is_2x2(rows_of(&inv.adj))
    &&& forall|i: int, j: int|
        0 <= i < 2 && 0 <= j < 2 ==> #[trigger] rows_of(&inv.adj)[i][j] as int == adjugate2(m)[i][j]
    &&& inv.det as int == det2(m)
}

/// A product of two values within `-m..=m` lies within `-(m * m)..=m * m`.
pub proof fn lemma_mul_bound(x: int, y: int, m: int)
    requires
        0 <= m,
        -m <= x <= m,
        -m <= y <= m,
    ensures
        -(m * m) <= x * y <= m * m,
{
    assert(-(m * m) <= x * y <= m * m) by (nonlinear_arith)
        requires
            0 <= m,
            -m <= x <= m,
            -m <= y <= m,
    ;
}

/// A square is never negative.
pub proof fn lemma_mul_square_nonneg(x: int)
    ensures
        x * x >= 0,
{
    assert(x * x >= 0) by (nonlinear_arith);
}

/// The inverse of a 2x2 matrix, as its adjugate and determinant.
///
/// Fails with `InvalidShape` unless `m` is 2x2, with `SingularMatrix` exactly when
/// the determinant is zero, and with `Overflow` when the determinant or an entry of
/// the adjugate does not fit in 64 bits.
pub fn inverse(m: &Vec<Vec<i64>>) -> (r: Result<ScaledInverse, EngineError>)
    ensures
        r is Err && r->Err_0 == EngineError::InvalidShape <==> !is_2x2(rows_of(m)),
        r is Err && r->Err_0 == EngineError::SingularMatrix <==> is_2x2(rows_of(m)) && det2(
            rows_of(m),
        ) == 0,
        r is Err && r->Err_0 == EngineError::Overflow <==> is_2x2(rows_of(m)) && det2(rows_of(m))
            != 0 && (!fits(det2(rows_of(m))) || m@[0]@[1] == i64::MIN || m@[1]@[0] == i64::MIN),
        r is Ok ==> is_scaled_inverse(r->Ok_0, rows_of(m)),
        r is Err ==> r->Err_0 == EngineError::InvalidShape || r->Err_0 == EngineError::SingularMatrix
            || r->Err_0 == EngineError::Overflow,
{
    if m.len() != 2 || m[0].len() != 2 || m[1].len() != 2 {
        return Err(EngineError::InvalidShape);
    }
    let a = m[0][0];
    let b = m[0][1];
    let c = m[1][0];
    let d = m[1][1];
    proof {
        lemma_mul_bound(a as int, d as int, 0x8000_0000_0000_0000);
        lemma_mul_bound(b as int, c as int, 0x8000_0000_0000_0000);
        assert(0x8000_0000_0000_0000int * 0x8000_0000_0000_0000int
            == 0x4000_0000_0000_0000_0000_0000_0000_0000int);
    }
    let ad: i128 = (a as i128) * (d as i128);
    let bc: i128 = (b as i128) * (c as i128);
    let det_wide: i128 = match ad.checked_sub(bc) {
        Some(v) => v,
        None => {
            return Err(EngineError::Overflow);
        },
    };
    if det_wide == 0 {
        return Err(EngineError::SingularMatrix);
    }
    if det_wide < i64::MIN as i128 || det_wide > i64::MAX as i128 || b == i64::MIN || c == i64::MIN {
        return Err(EngineError::Overflow);
    }
    let nb: i64 = -b;
    let nc: i64 = -c;
    let adj = vec![vec![d, nb], vec![nc, a]];
    let inv = ScaledInverse { adj, det: det_wide as i64 };
    assert(rows_of(&inv.adj)[0] == adj@[0]@);
    assert(rows_of(&inv.adj)[1] == adj@[1]@);
    Ok(inv)
}

/// A 2x2 matrix times its adjugate is its determinant times the identity, so
/// `adj / det` is its inverse whenever the determinant is not zero.
pub proof fn lemma_inverse_correct(m: Seq<Seq<i64>>, inv: ScaledInverse)
    requires
        is_2x2(m),
        det2(m) != 0,
        is_scaled_inverse(inv, m),
    ensures
        is_2x2(rows_of(&inv.adj)),
        forall|i: int, j: int|
            0 <= i < 2 && 0 <= j < 2 ==> #[trigger] dot(m[i], column(rows_of(&inv.adj), j)) == if i
                == j {
                inv.det as int
            } else {
                0
            },
{
    let adj = rows_of(&inv.adj);
    let a = m[0][0] as int;
    let b = m[0][1] as int;
    let c = m[1][0] as int;
    let d = m[1][1] as int;
    assert(adj[0][0] == d && adj[0][1] == -b && adj[1][0] == -c && adj[1][1] == a);
    assert forall|i: int, j: int| 0 <= i < 2 && 0 <= j < 2 implies #[trigger] dot(
        m[i],
        column(adj, j),
    ) == m[i][0] * adj[0][j] + m[i][1] * adj[1][j] by {
        let col = column(adj, j);
        assert(dot_prefix(m[i], col, 0) == 0);
        assert(dot_prefix(m[i], col, 1) == m[i][0] * col[0]);
        assert(dot_prefix(m[i], col, 2) == m[i][0] * col[0] + m[i][1] * col[1]);
    }
    assert(a * d + b * (-c) == a * d - b * c) by (nonlinear_arith);
    assert(a * (-b) + b * a == 0) by (nonlinear_arith);
    assert(c * d + d * (-c) == 0) by (nonlinear_arith);
    assert(c * (-b) + d * a == a * d - b * c) by (nonlinear_arith);
}

} // verus!
