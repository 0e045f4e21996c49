use vstd::prelude::*;
use crate::matrix::{
    dot_fits, fits, lemma_dot_fits2,
    adjugate2, column, det2, dot, inverse, is_rect, lemma_dot2, lemma_transpose_involution,
    lemma_transposed_row, matmul, matvec, n_cols, rows_of, transpose, check_rect, EngineError,
};

verus! {

/// Entry `(i, j)` of the Gram matrix `Xt * X`: the dot product of columns `i` and `j`.
pub open spec fn gram(x: Seq<Seq<i64>>, i: int, j: int) -> int {
    dot(column(x, i), column(x, j))
}

/// Entry `(i, j)` of the regularised normal matrix `Xt * X + lambda * I`.
pub open spec fn reg(x: Seq<Seq<i64>>, lambda: int, i: int, j: int) -> int {
    gram(x, i, j) + if i == j {
        lambda
    } else {
        0
    }
}

/// The determinant of the regularised normal matrix of a two-feature `X`.
pub open spec fn ridge_det(x: Seq<Seq<i64>>, lambda: int) -> int {
    reg(x, lambda, 0, 0) * reg(x, lambda, 1, 1) - reg(x, lambda, 0, 1) * reg(x, lambda, 1, 0)
}

/// Entry `i` of `Xt * y`.
pub open spec fn xty(x: Seq<Seq<i64>>, y: Seq<i64>, i: int) -> int {
    dot(column(x, i), y)
}

/// Coefficient `i` of the ridge solution times `ridge_det`: entry `i` of
/// `adj(Xt * X + lambda * I) * (Xt * y)`.
pub open spec fn ridge_coef(x: Seq<Seq<i64>>, y: Seq<i64>, lambda: int, i: int) -> int {
    if i == 0 {
        reg(x, lambda, 1, 1) * xty(x, y, 0) - reg(x, lambda, 0, 1) * xty(x, y, 1)
    } else {
        reg(x, lambda, 0, 0) * xty(x, y, 1) - reg(x, lambda, 1, 0) * xty(x, y, 0)
    }
}

/// A ridge solution in exact form: the coefficients are `coef[i] / det`.
pub struct RidgeFit {
    pub coef: Vec<i64>,
    pub det: i64,
}

/// `f` is the exact ridge solution of `x`, `y`, `lambda`.
pub open spec fn is_ridge_fit(f: RidgeFit, x: Seq<Seq<i64>>, y: Seq<i64>, lambda: int) -> bool {
    &&& ridge_det(x, lambda) != 0
    &&& f.det as int == ridge_det(x, lambda)
    &&& f.coef@.len() == 2
    &&& f.coef@[0] as int == ridge_coef(x, y, lambda, 0)
    &&& f.coef@[1] as int == ridge_coef(x, y, lambda, 1)
}

/// The Gram entries (each running sum included) and the regularised diagonal
/// fit in 64 bits: what the solver computes before it inverts.
pub open spec fn gram_fits(x: Seq<Seq<i64>>, lambda: int) -> bool {
    &&& forall|i: int, j: int| 0 <= i < 2 && 0 <= j < 2 ==> #[trigger] dot_fits(column(x, i), column(x, j))
    &&& fits(reg(x, lambda, 0, 0)) && fits(reg(x, lambda, 1, 1))
}

/// Every exact intermediate value of the solver fits in 64 bits: the Gram
/// entries and the regularised diagonal, the determinant and the negated
/// off-diagonal entries, `Xt * y`, and each product and sum of the final
/// adjugate product.
pub open spec fn ridge_fits(x: Seq<Seq<i64>>, y: Seq<i64>, lambda: int) -> bool {
    let (r00, r01, r10, r11) = (reg(x, lambda, 0, 0), reg(x, lambda, 0, 1), reg(x, lambda, 1, 0), reg(x, lambda, 1, 1));
    let (t0, t1) = (xty(x, y, 0), xty(x, y, 1));
    &&& gram_fits(x, lambda)
    &&& fits(ridge_det(x, lambda)) && r01 != i64::MIN && r10 != i64::MIN
    &&& dot_fits(column(x, 0), y) && dot_fits(column(x, 1), y)
    &&& adjugate_product_fits(r00, r01, r10, r11, t0, t1)
}

/// Each product and sum of `[[r11, -r01], [-r10, r00]] * [t0, t1]` fits in 64 bits.
pub open spec fn adjugate_product_fits(r00: int, r01: int, r10: int, r11: int, t0: int, t1: int) -> bool {
    &&& fits(r11 * t0) && fits((-r01) * t1) && fits(r11 * t0 - r01 * t1)
    &&& fits((-r10) * t0) && fits(r00 * t1) && fits(r00 * t1 - r10 * t0)
}

/// The outcome of `fit` on `x`, `y`, `lambda`; it is fixed by the inputs:
/// `InvalidShape` unless `x` is a valid two-feature matrix, `DimensionMismatch`
/// unless `y` has one entry per row, `SingularMatrix` when the determinant is
/// zero (and the values before the inversion fit), `Ok` with the exact solution
/// when every intermediate value fits and the determinant is not zero, and
/// `Overflow` otherwise.
pub open spec fn is_fit_result(r: Result<RidgeFit, EngineError>, x: Seq<Seq<i64>>, y: Seq<i64>, lambda: int) -> bool {
    let shape = ridge_shape_ok(x);
    let len = y.len() == x.len();
    &&& (r is Err && r->Err_0 == EngineError::InvalidShape) <==> !shape
    &&& (r is Err && r->Err_0 == EngineError::DimensionMismatch) <==> shape && !len
    &&& (r is Err && r->Err_0 == EngineError::SingularMatrix) <==> shape && len && gram_fits(x, lambda)
        && ridge_det(x, lambda) == 0
    &&& r is Ok <==> shape && len && ridge_fits(x, y, lambda) && ridge_det(x, lambda) != 0
    &&& r is Err ==> r->Err_0 == EngineError::InvalidShape || r->Err_0 == EngineError::DimensionMismatch
        || r->Err_0 == EngineError::SingularMatrix || r->Err_0 == EngineError::Overflow
    &&& r is Ok ==> is_ridge_fit(r->Ok_0, x, y, lambda)
}

/// The shapes that the solver accepts: a valid two-feature matrix.
pub open spec fn ridge_shape_ok(x: Seq<Seq<i64>>) -> bool {
    is_rect(x) && n_cols(x) == 2
}

/// The adjugate product of the solver, written out: whether it fits, and its value.
proof fn lemma_adjugate_product(x: Seq<Seq<i64>>, y: Seq<i64>, l: int, ra: Seq<Seq<i64>>, xy: Seq<i64>)
    requires
        ra.len() == 2,
        ra[0].len() == 2,
        ra[1].len() == 2,
        xy.len() == 2,
        ra[0][0] == reg(x, l, 1, 1),
        ra[0][1] == -reg(x, l, 0, 1),
        ra[1][0] == -reg(x, l, 1, 0),
        ra[1][1] == reg(x, l, 0, 0),
        xy[0] == xty(x, y, 0),
        xy[1] == xty(x, y, 1),
    ensures
        crate::matrix::matvec_fits(ra, xy) <==> adjugate_product_fits(
            reg(x, l, 0, 0),
            reg(x, l, 0, 1),
            reg(x, l, 1, 0),
            reg(x, l, 1, 1),
            xty(x, y, 0),
            xty(x, y, 1),
        ),
        dot(ra[0], xy) == ridge_coef(x, y, l, 0),
        dot(ra[1], xy) == ridge_coef(x, y, l, 1),
{
    let (r00, r01, r10, r11) = (reg(x, l, 0, 0), reg(x, l, 0, 1), reg(x, l, 1, 0), reg(x, l, 1, 1));
    let (t0, t1) = (xty(x, y, 0), xty(x, y, 1));
    lemma_dot_fits2(ra[0], xy);
    lemma_dot_fits2(ra[1], xy);
    lemma_dot2(ra[0], xy);
    lemma_dot2(ra[1], xy);
    assert(r11 * t0 + (-r01) * t1 == r11 * t0 - r01 * t1) by (nonlinear_arith);
    assert((-r10) * t0 + r00 * t1 == r00 * t1 - r10 * t0) by (nonlinear_arith);
    if crate::matrix::matvec_fits(ra, xy) {
        assert(dot_fits(ra[0], xy) && dot_fits(ra[1], xy));
    }
    if adjugate_product_fits(r00, r01, r10, r11, t0, t1) {
        assert forall|i: int| 0 <= i < ra.len() implies #[trigger] dot_fits(ra[i], xy) by {
            if i == 0 {
                assert(dot_fits(ra[0], xy));
            } else {
                assert(dot_fits(ra[1], xy));
            }
        }
    }
}

/// Fits a ridge-regularised linear model in closed form:
/// `(Xt * X + lambda * I)^-1 * Xt * y`, returned as `coef / det`.
///
/// The inverse is the closed 2x2 form, so `x` must have exactly two feature
/// columns. The outcome, error or solution, is fixed by the inputs: see
/// `is_fit_result`.
pub fn fit(x: &Vec<Vec<i64>>, y: &Vec<i64>, lambda: i64) -> (r: Result<RidgeFit, EngineError>)
    requires
        lambda >= 0,
    ensures
        is_fit_result(r, rows_of(x), y@, lambda as int),
{
    if !check_rect(x) || x[0].len() != 2 {
        return Err(EngineError::InvalidShape);
    }
    if y.len() != x.len() {
        return Err(EngineError::DimensionMismatch);
    }
    let ghost rx = rows_of(x);
    let ghost l = lambda as int;
    let xt = match transpose(x) {
        Ok(t) => t,
        Err(e) => {
            return Err(e);
        },
    };
    let ghost rt = rows_of(&xt);
    proof {
        lemma_transpose_involution(rx);
        lemma_transposed_row(rx, 0);
        lemma_transposed_row(rx, 1);
        assert(crate::matrix::product_fits(rt, rx) <==> forall|i: int, j: int|
            0 <= i < 2 && 0 <= j < 2 ==> #[trigger] dot_fits(column(rx, i), column(rx, j))) by {
            if crate::matrix::product_fits(rt, rx) {
                assert forall|i: int, j: int| 0 <= i < 2 && 0 <= j < 2 implies #[trigger] dot_fits(
                    column(rx, i),
                    column(rx, j),
                ) by {
                    assert(dot_fits(rt[i], column(rx, j)));
                }
            }
        }
    }
    let xtx = match matmul(&xt, x) {
        Ok(p) => p,
        Err(e) => {
            return Err(e);
        },
    };
    let ghost rp = rows_of(&xtx);
    assert(rp.len() == 2 && rp[0].len() == 2 && rp[1].len() == 2);
    assert(forall|i: int, j: int| 0 <= i < 2 && 0 <= j < 2 ==> #[trigger] rp[i][j] as int == gram(rx, i, j));
    let d0 = match xtx[0][0].checked_add(lambda) {
        Some(v) => v,
        None => {
            return Err(EngineError::Overflow);
        },
    };
    let d1 = match xtx[1][1].checked_add(lambda) {
        Some(v) => v,
        None => {
            return Err(EngineError::Overflow);
        },
    };
    assert(gram_fits(rx, l));
    let regm = vec![vec![d0, xtx[0][1]], vec![xtx[1][0], d1]];
    let ghost rr = rows_of(&regm);
    assert(rr[0] == regm@[0]@ && rr[1] == regm@[1]@);
    assert(forall|i: int, j: int| 0 <= i < 2 && 0 <= j < 2 ==> #[trigger] rr[i][j] as int == reg(rx, l, i, j));
    assert(det2(rr) == ridge_det(rx, l));
    let inv = match inverse(&regm) {
        Ok(v) => v,
        Err(e) => {
            return Err(e);
        },
    };
    let xy = match matvec(&xt, y) {
        Ok(v) => v,
        Err(e) => {
            assert(!(dot_fits(column(rx, 0), y@) && dot_fits(column(rx, 1), y@)));
            return Err(e);
        },
    };
    assert(dot_fits(column(rx, 0), y@) && dot_fits(column(rx, 1), y@));
    assert(xy@.len() == 2);
    assert(xy@[0] as int == xty(rx, y@, 0) && xy@[1] as int == xty(rx, y@, 1));
    let ghost ra = rows_of(&inv.adj);
    proof {
        assert(ra[0][0] as int == adjugate2(rr)[0][0]);
        assert(ra[0][1] as int == adjugate2(rr)[0][1]);
        assert(ra[1][0] as int == adjugate2(rr)[1][0]);
        assert(ra[1][1] as int == adjugate2(rr)[1][1]);
        lemma_adjugate_product(rx, y@, l, ra, xy@);
    }
    let coef = match matvec(&inv.adj, &xy) {
        Ok(v) => v,
        Err(e) => {
            return Err(e);
        },
    };
    Ok(RidgeFit { coef, det: inv.det })
}

/// The solver has no hidden state: two outcomes of `fit` on the same `x`, `y`
/// and `lambda` agree, in success or error alike, and two solutions are equal.
pub proof fn lemma_fit_deterministic(
    r1: Result<RidgeFit, EngineError>,
    r2: Result<RidgeFit, EngineError>,
    x: Seq<Seq<i64>>,
    y: Seq<i64>,
    lambda: int,
)
    requires
        is_fit_result(r1, x, y, lambda),
        is_fit_result(r2, x, y, lambda),
    ensures
        r1 is Ok <==> r2 is Ok,
        r1 is Err ==> r2 is Err && r1->Err_0 == r2->Err_0,
        r1 is Ok ==> r1->Ok_0.coef@ == r2->Ok_0.coef@ && r1->Ok_0.det == r2->Ok_0.det,
{
    if r1 is Ok {
        assert(r1->Ok_0.coef@ =~= r2->Ok_0.coef@);
    }
}

} // verus!
