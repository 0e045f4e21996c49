use vstd::prelude::*;
use crate::matrix::{fits, is_rect, rows_of, transpose, transposed, EngineError};
use crate::ridge::{fit, is_ridge_fit, ridge_det, ridge_fits, ridge_shape_ok, RidgeFit};
use crate::standardize::{
    entries_within, has_constant_col, is_standardized, normalize, Standardized, SAFE_ENTRY,
    SAFE_ROWS,
};

verus! {

// A rank-3 array is a list of matrices ("slices"); each operation here applies
// the matrix-level one to every slice independently.

/// Slice `s` of a rank-3 array, as rows of sequences.
pub open spec fn slice_of<T>(t: &Vec<Vec<Vec<T>>>, s: int) -> Seq<Seq<T>> {
    rows_of(&t@[s])
}

/// Transposes every slice; fails with `InvalidShape` when a slice is empty or ragged.
pub fn transpose_slices<T: Copy>(t: &Vec<Vec<Vec<T>>>) -> (r: Result<Vec<Vec<Vec<T>>>, EngineError>)
    ensures
        r is Ok <==> forall|s: int| 0 <= s < t@.len() ==> is_rect(#[trigger] slice_of(t, s)),
        r is Err ==> r->Err_0 == EngineError::InvalidShape,
        r is Ok ==> r->Ok_0@.len() == t@.len() && forall|s: int|
            0 <= s < t@.len() ==> #[trigger] slice_of(&r->Ok_0, s) == transposed(slice_of(t, s)),
{
    let mut out: Vec<Vec<Vec<T>>> = Vec::new();
    let mut s: usize = 0;
    while s < t.len()
        invariant
            0 <= s <= t@.len(),
            out@.len() == s,
            forall|k: int| 0 <= k < s ==> is_rect(#[trigger] slice_of(t, k)),
            forall|k: int| 0 <= k < s ==> #[trigger] rows_of(&out@[k]) == transposed(slice_of(t, k)),
        decreases t@.len() - s,
    {
        match transpose(&t[s]) {
            Ok(m) => out.push(m),
            Err(e) => {
                assert(!is_rect(slice_of(t, s as int)));
                return Err(e);
            },
        }
        s += 1;
    }
    proof {
        assert forall|k: int| 0 <= k < t@.len() implies #[trigger] slice_of(&out, k) == transposed(slice_of(t, k)) by {
            assert(slice_of(&out, k) == rows_of(&out@[k]));
        }
    }
    Ok(out)
}

/// Standardises every slice (see `normalize`); the first failing slice gives the error.
pub fn normalize_slices(t: &Vec<Vec<Vec<i64>>>) -> (r: Result<Vec<Standardized>, EngineError>)
    ensures
        r is Ok ==> r->Ok_0@.len() == t@.len() && forall|s: int|
            0 <= s < t@.len() ==> is_standardized(#[trigger] r->Ok_0@[s], slice_of(t, s)),
        r is Err && r->Err_0 == EngineError::InvalidShape ==> exists|s: int|
            0 <= s < t@.len() && !is_rect(#[trigger] slice_of(t, s)),
        r is Err && r->Err_0 == EngineError::DegenerateColumn ==> exists|s: int|
            0 <= s < t@.len() && is_rect(#[trigger] slice_of(t, s)) && has_constant_col(slice_of(t, s)),
        r is Err ==> r->Err_0 == EngineError::InvalidShape || r->Err_0
            == EngineError::DegenerateColumn || r->Err_0 == EngineError::Overflow,
        (forall|s: int|
            0 <= s < t@.len() ==> is_rect(#[trigger] slice_of(t, s)) && !has_constant_col(slice_of(t, s))
                && entries_within(slice_of(t, s), SAFE_ENTRY as int) && t@[s]@.len() <= SAFE_ROWS)
            ==> r is Ok,
{
    let mut out: Vec<Standardized> = Vec::new();
    let mut s: usize = 0;
    while s < t.len()
        invariant
            0 <= s <= t@.len(),
            out@.len() == s,
            forall|k: int| 0 <= k < s ==> is_standardized(#[trigger] out@[k], slice_of(t, k)),
        decreases t@.len() - s,
    {
        match normalize(&t[s]) {
            Ok(st) => out.push(st),
            Err(e) => {
                assert(slice_of(t, s as int) == rows_of(&t@[s as int]));
                return Err(e);
            },
        }
        s += 1;
    }
    Ok(out)
}

/// Fits the ridge model on every slice against the same target `y`.
///
/// Fails, at the first slice that does, as `fit` does on that slice.
pub fn fit_slices(t: &Vec<Vec<Vec<i64>>>, y: &Vec<i64>, lambda: i64) -> (r: Result<Vec<RidgeFit>, EngineError>)
    requires
        lambda >= 0,
    ensures
        r is Ok ==> r->Ok_0@.len() == t@.len() && forall|s: int|
            0 <= s < t@.len() ==> is_ridge_fit(#[trigger] r->Ok_0@[s], slice_of(t, s), y@, lambda as int),
        r is Err && r->Err_0 == EngineError::InvalidShape ==> exists|s: int|
            0 <= s < t@.len() && !ridge_shape_ok(#[trigger] slice_of(t, s)),
        r is Err && r->Err_0 == EngineError::DimensionMismatch ==> exists|s: int|
            0 <= s < t@.len() && ridge_shape_ok(#[trigger] slice_of(t, s)) && y@.len() != t@[s]@.len(),
        r is Err && r->Err_0 == EngineError::SingularMatrix ==> exists|s: int|
            0 <= s < t@.len() && ridge_det(#[trigger] slice_of(t, s), lambda as int) == 0,
        r is Err ==> r->Err_0 == EngineError::InvalidShape || r->Err_0
            == EngineError::DimensionMismatch || r->Err_0 == EngineError::SingularMatrix || r->Err_0
            == EngineError::Overflow,
        (forall|s: int|
            0 <= s < t@.len() ==> ridge_shape_ok(#[trigger] slice_of(t, s)) && y@.len() == t@[s]@.len()
                && ridge_fits(slice_of(t, s), y@, lambda as int) && ridge_det(slice_of(t, s), lambda as int) != 0)
            ==> r is Ok,
{
    let mut out: Vec<RidgeFit> = Vec::new();
    let mut s: usize = 0;
    while s < t.len()
        invariant
            lambda >= 0,
            0 <= s <= t@.len(),
            out@.len() == s,
            forall|k: int| 0 <= k < s ==> is_ridge_fit(#[trigger] out@[k], slice_of(t, k), y@, lambda as int),
        decreases t@.len() - s,
    {
        match fit(&t[s], y, lambda) {
            Ok(f) => out.push(f),
            Err(e) => {
                assert(slice_of(t, s as int) == rows_of(&t@[s as int]));
                return Err(e);
            },
        }
        s += 1;
    }
    Ok(out)
}

/// `|v|`.
pub open spec fn abs(v: int) -> int {
    if v < 0 {
        -v
    } else {
        v
    }
}

/// The product of `|p[t].1|` over `t < k`.
pub open spec fn prod_abs(p: Seq<(int, int)>, k: int) -> int
    decreases k,
{
    if k <= 0 {
        1
    } else {
        prod_abs(p, k - 1) * abs(p[k - 1].1)
    }
}

/// The product of `|p[t].1|` over `t < k`, `t != s`.
pub open spec fn prod_abs_except(p: Seq<(int, int)>, s: int, k: int) -> int
    decreases k,
{
    if k <= 0 {
        1
    } else if k - 1 == s {
        prod_abs_except(p, s, k - 1)
    } else {
        prod_abs_except(p, s, k - 1) * abs(p[k - 1].1)
    }
}

/// Each slice's first coefficient with a positive scale, and its scale: the
/// pair `(num, det)` of the solution `num / det`, `num` made to carry the sign.
pub open spec fn first_pairs(fs: Seq<RidgeFit>) -> Seq<(int, int)> {
    fs.map_values(|f: RidgeFit| (if f.det > 0 { f.coef@[0] as int } else { -f.coef@[0] }, f.det as int))
}

/// Every product that combining the pairs computes fits in 64 bits.
pub open spec fn combine_fits(p: Seq<(int, int)>) -> bool {
    &&& forall|k: int| 0 <= k <= p.len() ==> fits(#[trigger] prod_abs(p, k))
    &&& forall|s: int, k: int| 0 <= s < p.len() && 0 <= k <= p.len() ==> fits(#[trigger] prod_abs_except(p, s, k))
    &&& forall|s: int| 0 <= s < p.len() ==> fits(#[trigger] p[s].0) && fits(p[s].0 * prod_abs_except(p, s, p.len() as int))
}

/// One coefficient per slice over a common positive scale: slice `s`
/// contributes `coef[s] / scale`.
pub struct Combined {
    pub coef: Vec<i64>,
    pub scale: i64,
}

proof fn lemma_prod_positive(p: Seq<(int, int)>, s: int, k: int)
    requires
        0 <= k <= p.len(),
        forall|t: int| 0 <= t < p.len() ==> #[trigger] p[t].1 != 0,
    ensures
        prod_abs(p, k) >= 1,
        prod_abs_except(p, s, k) >= 1,
    decreases k,
{
    if k > 0 {
        lemma_prod_positive(p, s, k - 1);
        let a = abs(p[k - 1].1);
        assert(a >= 1);
        let (x, y) = (prod_abs(p, k - 1), prod_abs_except(p, s, k - 1));
        assert(x * a >= 1 && y * a >= 1) by (nonlinear_arith)
            requires
                x >= 1,
                y >= 1,
                a >= 1,
        ;
    }
}

/// Leaving out slice `s` and multiplying its scale back gives the whole product.
pub proof fn lemma_prod_except(p: Seq<(int, int)>, s: int, k: int)
    requires
        0 <= s < k <= p.len(),
    ensures
        prod_abs_except(p, s, k) * abs(p[s].1) == prod_abs(p, k),
    decreases k,
{
    if k - 1 == s {
        lemma_prod_except_below(p, s, k - 1);
    } else {
        lemma_prod_except(p, s, k - 1);
        let (e, a, b) = (prod_abs_except(p, s, k - 1), abs(p[s].1), abs(p[k - 1].1));
        assert(e * b * a == e * a * b) by (nonlinear_arith);
    }
}

proof fn lemma_prod_except_below(p: Seq<(int, int)>, s: int, k: int)
    requires
        0 <= k <= s,
    ensures
        prod_abs_except(p, s, k) == prod_abs(p, k),
    decreases k,
{
    if k > 0 {
        lemma_prod_except_below(p, s, k - 1);
    }
}

/// Combining per-slice solutions keeps each one's value: with
/// `c = combine_first(fs)`, `c.coef[s] / c.scale == num_s / det_s`.
pub proof fn lemma_combined_ratio(p: Seq<(int, int)>, s: int, c: int, scale: int)
    requires
        0 <= s < p.len(),
        c == p[s].0 * prod_abs_except(p, s, p.len() as int),
        scale == prod_abs(p, p.len() as int),
    ensures
        c * abs(p[s].1) == p[s].0 * scale,
{
    lemma_prod_except(p, s, p.len() as int);
    let (a, e, d) = (p[s].0, prod_abs_except(p, s, p.len() as int), abs(p[s].1));
    assert(a * e * d == a * (e * d)) by (nonlinear_arith);
}

fn abs_det(d: i64) -> (r: Option<i64>)
    ensures
        r is Some <==> d != i64::MIN,
        r is Some ==> r->0 as int == abs(d as int),
{
    if d == i64::MIN {
        None
    } else if d < 0 {
        Some(-d)
    } else {
        Some(d)
    }
}

/// Puts the first coefficient of each slice's solution over one positive
/// scale, the product of the determinants' sizes, so that the slices can be
/// scored with one exact integer vector. Fails with `Overflow` when a product
/// leaves the 64-bit range.
pub fn combine_first(solutions: &Vec<RidgeFit>) -> (r: Result<Combined, EngineError>)
    requires
        forall|s: int| 0 <= s < solutions@.len() ==> (#[trigger] solutions@[s]).coef@.len() >= 1 && solutions@[s].det != 0,
    ensures
        r is Ok ==> r->Ok_0.scale as int == prod_abs(first_pairs(solutions@), solutions@.len() as int)
            && r->Ok_0.coef@.len() == solutions@.len() && forall|s: int| 0 <= s < solutions@.len() ==> #[trigger] r->Ok_0.coef@[s] as int
                == first_pairs(solutions@)[s].0 * prod_abs_except(first_pairs(solutions@), s, solutions@.len() as int),
        r is Err ==> r->Err_0 == EngineError::Overflow,
        combine_fits(first_pairs(solutions@)) ==> r is Ok,
{
    let ghost p = first_pairs(solutions@);
    let n = solutions.len();
    proof {
        assert forall|t: int| 0 <= t < p.len() implies #[trigger] p[t].1 != 0 by {
            assert(p[t].1 == solutions@[t].det);
        }
    }
    let mut scale: i64 = 1;
    let mut k: usize = 0;
    while k < n
        invariant
            n == solutions@.len(),
            p == first_pairs(solutions@),
            forall|t: int| 0 <= t < p.len() ==> #[trigger] p[t].1 != 0,
            forall|s: int| 0 <= s < solutions@.len() ==> (#[trigger] solutions@[s]).coef@.len() >= 1 && solutions@[s].det != 0,
            0 <= k <= n,
            scale as int == prod_abs(p, k as int),
        decreases n - k,
    {
        proof {
            lemma_prod_positive(p, 0, k as int);
            assert(p[k as int].1 == solutions@[k as int].det);
        }
        let a = match abs_det(solutions[k].det) {
            Some(a) => a,
            None => {
                proof {
                    if combine_fits(p) {
                        assert(fits(prod_abs(p, k as int + 1)));
                        let x = prod_abs(p, k as int);
                        assert(x * 0x8000_0000_0000_0000int >= 0x8000_0000_0000_0000int) by (nonlinear_arith)
                            requires
                                x >= 1,
                        ;
                    }
                }
                return Err(EngineError::Overflow);
            },
        };
        scale = match scale.checked_mul(a) {
            Some(v) => v,
            None => {
                proof {
                    if combine_fits(p) {
                        assert(fits(prod_abs(p, k as int + 1)));
                    }
                }
                return Err(EngineError::Overflow);
            },
        };
        k += 1;
    }
    let mut coef: Vec<i64> = Vec::new();
    let mut s: usize = 0;
    while s < n
        invariant
            n == solutions@.len(),
            p == first_pairs(solutions@),
            forall|t: int| 0 <= t < p.len() ==> #[trigger] p[t].1 != 0,
            forall|s: int| 0 <= s < solutions@.len() ==> (#[trigger] solutions@[s]).coef@.len() >= 1 && solutions@[s].det != 0,
            scale as int == prod_abs(p, n as int),
            0 <= s <= n,
            coef@.len() == s,
            forall|q: int| 0 <= q < s ==> #[trigger] coef@[q] as int == p[q].0 * prod_abs_except(p, q, n as int),
        decreases n - s,
    {
        let mut e: i64 = 1;
        let mut t: usize = 0;
        while t < n
            invariant
                n == solutions@.len(),
                p == first_pairs(solutions@),
                forall|t: int| 0 <= t < p.len() ==> #[trigger] p[t].1 != 0,
                forall|s: int| 0 <= s < solutions@.len() ==> (#[trigger] solutions@[s]).coef@.len() >= 1 && solutions@[s].det != 0,
                0 <= s < n,
                0 <= t <= n,
                e as int == prod_abs_except(p, s as int, t as int),
            decreases n - t,
        {
            if t != s {
                proof {
                    assert(p[t as int].1 == solutions@[t as int].det);
                }
                let a = match abs_det(solutions[t].det) {
                    Some(a) => a,
                    None => {
                        proof {
                            if combine_fits(p) {
                                assert(fits(prod_abs(p, t as int + 1)));
                                lemma_prod_positive(p, 0, t as int);
                                let x = prod_abs(p, t as int);
                                assert(x * 0x8000_0000_0000_0000int >= 0x8000_0000_0000_0000int) by (nonlinear_arith)
                                    requires
                                        x >= 1,
                                ;
                            }
                        }
                        return Err(EngineError::Overflow);
                    },
                };
                e = match e.checked_mul(a) {
                    Some(v) => v,
                    None => {
                        proof {
                            if combine_fits(p) {
                                assert(fits(prod_abs_except(p, s as int, t as int + 1)));
                            }
                        }
                        return Err(EngineError::Overflow);
                    },
                };
            }
            t += 1;
        }
        proof {
            assert(p[s as int].0 == (if solutions@[s as int].det > 0 { solutions@[s as int].coef@[0] as int } else { -solutions@[s as int].coef@[0] }));
        }
        let c0 = solutions[s].coef[0];
        let first = if solutions[s].det > 0 {
            c0
        } else {
            if c0 == i64::MIN {
                proof {
                    if combine_fits(p) {
                        assert(fits(p[s as int].0));
                    }
                }
                return Err(EngineError::Overflow);
            }
            -c0
        };
        let v = match first.checked_mul(e) {
            Some(v) => v,
            None => {
                proof {
                    if combine_fits(p) {
                        assert(fits(p[s as int].0));
                    }
                }
                return Err(EngineError::Overflow);
            },
        };
        coef.push(v);
        s += 1;
    }
    Ok(Combined { coef, scale })
}

} // verus!
