use vstd::prelude::*;
use rand::Rng;
use crate::matrix::{check_rect, fits, rows_of, EngineError};
use crate::standardize::{centered_matrix, has_constant_col, lemma_centered_matrix, normalize};
use crate::ranker::{
    common_len, count_matches, is_ranking, lemma_full_match, match_count, rank, rows_match, scores_fit,
    ScoredRow,
};
use crate::ridge::{
    fit, gram_fits, is_ridge_fit, ridge_coef, ridge_det, ridge_fits, ridge_shape_ok, RidgeFit,
};
use crate::standardize::{entries_within, SAFE_ENTRY, SAFE_ROWS};

verus! {

#[verifier::external_type_specification]
#[verifier::external_body]
pub struct ExStdRng(rand::rngs::StdRng);

/// Relies on rand's `SeedableRng::seed_from_u64`: a generator whose draws are
/// fixed by the seed.
#[verifier::external_body]
pub(crate) fn seeded_generator(seed: u64) -> rand::rngs::StdRng {
    rand::SeedableRng::seed_from_u64(seed)
}

/// Relies on rand's `SeedableRng::from_entropy`: a generator seeded by the
/// operating system.
#[verifier::external_body]
pub(crate) fn fresh_generator() -> rand::rngs::StdRng {
    rand::SeedableRng::from_entropy()
}

/// Relies on rand's `Rng::gen_range`: a value drawn uniformly from `0..bound`;
/// it panics on an empty range, hence `bound > 0`.
#[verifier::external_body]
fn draw_below(rng: &mut rand::rngs::StdRng, bound: i64) -> (r: i64)
    requires
        bound > 0,
    ensures
        0 <= r < bound,
{
    rng.gen_range(0..bound)
}

/// `c` is the coefficient vector of `f` with its scale made positive, so that
/// ordering by `c` is ordering by the exact coefficients `f.coef / f.det`.
pub open spec fn is_oriented(c: Seq<i64>, f: RidgeFit) -> bool {
    &&& c.len() == f.coef@.len()
    &&& forall|i: int|
        0 <= i < c.len() ==> #[trigger] c[i] as int == if f.det > 0 {
            f.coef@[i] as int
        } else {
            -f.coef@[i]
        }
}

/// Every row has exactly `len` entries.
pub open spec fn all_rows_len(rows: Seq<Seq<i64>>, len: int) -> bool {
    forall|i: int| 0 <= i < rows.len() ==> #[trigger] rows[i].len() == len
}

fn check_rows_len(rows: &Vec<Vec<i64>>, len: usize) -> (r: bool)
    ensures
        r == all_rows_len(rows_of(rows), len as int),
{
    let mut i: usize = 0;
    while i < rows.len()
        invariant
            0 <= i <= rows@.len(),
            forall|k: int| 0 <= k < i ==> #[trigger] rows_of(rows)[k].len() == len,
        decreases rows@.len() - i,
    {
        if rows[i].len() != len {
            assert(rows_of(rows)[i as int].len() != len);
            return false;
        }
        i += 1;
    }
    true
}

/// The coefficients of `f` with a positive scale.
fn orient(f: &RidgeFit) -> (r: Result<Vec<i64>, EngineError>)
    ensures
        r is Ok ==> is_oriented(r->Ok_0@, *f),
        r is Err ==> r->Err_0 == EngineError::Overflow,
        (f.det > 0 || forall|i: int| 0 <= i < f.coef@.len() ==> #[trigger] f.coef@[i] != i64::MIN) ==> r is Ok,
{
    let mut c: Vec<i64> = Vec::new();
    let mut i: usize = 0;
    while i < f.coef.len()
        invariant
            0 <= i <= f.coef@.len(),
            c@.len() == i,
            forall|k: int|
                0 <= k < i ==> #[trigger] c@[k] as int == if f.det > 0 {
                    f.coef@[k] as int
                } else {
                    -f.coef@[k]
                },
        decreases f.coef@.len() - i,
    {
        let v = f.coef[i];
        if f.det > 0 {
            c.push(v);
        } else {
            if v == i64::MIN {
                return Err(EngineError::Overflow);
            }
            c.push(-v);
        }
        i += 1;
    }
    Ok(c)
}

/// The fitted coefficients with a positive scale, in exact integers.
pub open spec fn oriented_coef(x: Seq<Seq<i64>>, y: Seq<i64>, lambda: int, i: int) -> int {
    if ridge_det(x, lambda) > 0 {
        ridge_coef(x, y, lambda, i)
    } else {
        -ridge_coef(x, y, lambda, i)
    }
}

/// Orienting the fitted coefficients and scoring every row of `eval` with
/// them stays within 64 bits.
pub open spec fn scoring_fits(x: Seq<Seq<i64>>, y: Seq<i64>, lambda: int, eval: Seq<Seq<i64>>) -> bool {
    &&& fits(oriented_coef(x, y, lambda, 0))
    &&& fits(oriented_coef(x, y, lambda, 1))
    &&& scores_fit(eval, seq![oriented_coef(x, y, lambda, 0) as i64, oriented_coef(x, y, lambda, 1) as i64])
}

/// One pass of the pipeline for a given target vector.
pub struct Attempt {
    pub fit: RidgeFit,
    /// The fitted coefficients with a positive scale.
    pub coef: Vec<i64>,
    pub ranking: Vec<ScoredRow>,
    /// The positions where `ranking` agrees with the expected order.
    pub matches: usize,
}

/// `a` is the outcome of one pass on `train`, `eval`, `truth`, `lambda` and the target `y`.
pub open spec fn is_attempt(
    a: Attempt,
    train: Seq<Seq<i64>>,
    eval: Seq<Seq<i64>>,
    truth: Seq<Seq<i64>>,
    lambda: int,
    y: Seq<i64>,
) -> bool {
    &&& is_ridge_fit(a.fit, train, y, lambda)
    &&& is_oriented(a.coef@, a.fit)
    &&& is_ranking(a.ranking@, eval, a.coef@)
    &&& a.matches == match_count(a.ranking@, truth, common_len(a.ranking@, truth))
}

/// Fits the model on `train` and the target `y`, ranks `eval` with it and
/// counts the positions that agree with `truth`.
///
/// Fails with `InvalidShape` unless `train` is a valid two-feature matrix, with
/// `DimensionMismatch` when `y` has not one entry per training row or a row of
/// `eval` has not two entries, with `SingularMatrix` when the regularised normal
/// matrix has a zero determinant, and with `Overflow` when an exact value leaves
/// the 64-bit range.
pub fn calibration_step(
    train: &Vec<Vec<i64>>,
    eval: &Vec<Vec<i64>>,
    truth: &Vec<Vec<i64>>,
    lambda: i64,
    y: &Vec<i64>,
) -> (r: Result<Attempt, EngineError>)
    requires
        lambda >= 0,
    ensures
        r is Err && r->Err_0 == EngineError::InvalidShape <==> !ridge_shape_ok(rows_of(train)),
        r is Err && r->Err_0 == EngineError::DimensionMismatch <==> ridge_shape_ok(rows_of(train))
            && (y@.len() != train@.len() || !all_rows_len(rows_of(eval), 2)),
        r is Err && r->Err_0 == EngineError::SingularMatrix <==> ridge_shape_ok(rows_of(train))
            && y@.len() == train@.len() && all_rows_len(rows_of(eval), 2) && gram_fits(
            rows_of(train),
            lambda as int,
        ) && ridge_det(rows_of(train), lambda as int) == 0,
        r is Err ==> r->Err_0 != EngineError::DegenerateColumn && r->Err_0
            != EngineError::IterationLimitExceeded,
        r is Ok ==> is_attempt(r->Ok_0, rows_of(train), rows_of(eval), rows_of(truth), lambda as int, y@),
        ridge_shape_ok(rows_of(train)) && y@.len() == train@.len() && all_rows_len(rows_of(eval), 2)
            && ridge_fits(rows_of(train), y@, lambda as int) && ridge_det(rows_of(train), lambda as int)
            != 0 && scoring_fits(rows_of(train), y@, lambda as int, rows_of(eval)) ==> r is Ok,
{
    if !check_rows_len(eval, 2) {
        if !crate::matrix::check_rect(train) || train[0].len() != 2 {
            return Err(EngineError::InvalidShape);
        }
        return Err(EngineError::DimensionMismatch);
    }
    let f = match fit(train, y, lambda) {
        Ok(f) => f,
        Err(e) => {
            return Err(e);
        },
    };
    let ghost owed = ridge_fits(rows_of(train), y@, lambda as int) && scoring_fits(
        rows_of(train),
        y@,
        lambda as int,
        rows_of(eval),
    );
    proof {
        if owed {
            assert forall|i: int| 0 <= i < f.coef@.len() implies #[trigger] f.coef@[i] != i64::MIN || f.det > 0 by {
                assert(fits(oriented_coef(rows_of(train), y@, lambda as int, i)));
            }
        }
    }
    let coef = match orient(&f) {
        Ok(c) => c,
        Err(e) => {
            return Err(e);
        },
    };
    proof {
        if owed {
            let l = lambda as int;
            let target = seq![oriented_coef(rows_of(train), y@, l, 0) as i64, oriented_coef(rows_of(train), y@, l, 1) as i64];
            assert(coef@ =~= target);
        }
    }
    let ranking = match rank(eval, &coef) {
        Ok(v) => v,
        Err(e) => {
            assert(rows_match(rows_of(eval), coef@));
            return Err(e);
        },
    };
    let matches = count_matches(&ranking, truth);
    Ok(Attempt { fit: f, coef, ranking, matches })
}

/// A converged calibration.
pub struct Calibration {
    pub fit: RidgeFit,
    /// The fitted coefficients with a positive scale.
    pub coef: Vec<i64>,
    /// The ranking of the evaluation rows, equal to the expected order.
    pub ranking: Vec<ScoredRow>,
    /// The number of targets drawn.
    pub iterations: usize,
}

/// `c` is a converged outcome: its ranking reproduces `truth` position by
/// position, and it comes from a target of one entry in `0..bound` per training row.
pub open spec fn is_converged(
    c: Calibration,
    train: Seq<Seq<i64>>,
    eval: Seq<Seq<i64>>,
    truth: Seq<Seq<i64>>,
    lambda: int,
    bound: int,
) -> bool {
    &&& exists|y: Seq<i64>|
        y.len() == train.len() && (forall|i: int| 0 <= i < y.len() ==> 0 <= #[trigger] y[i] < bound)
            && #[trigger] is_ridge_fit(c.fit, train, y, lambda)
    &&& is_oriented(c.coef@, c.fit)
    &&& is_ranking(c.ranking@, eval, c.coef@)
    &&& truth.len() <= c.ranking@.len()
    &&& forall|k: int| 0 <= k < truth.len() ==> (#[trigger] c.ranking@[k]).row@ == truth[k]
}

/// `y` is a possible target: one entry in `0..bound` per training row.
pub open spec fn is_target(y: Seq<i64>, rows: int, bound: int) -> bool {
    y.len() == rows && forall|i: int| 0 <= i < y.len() ==> 0 <= #[trigger] y[i] < bound
}

/// Every possible target leads to a fit and a scoring that stay within 64 bits.
pub open spec fn all_targets_fit(x: Seq<Seq<i64>>, eval: Seq<Seq<i64>>, lambda: int, bound: int) -> bool {
    forall|y: Seq<i64>|
        #[trigger] is_target(y, x.len() as int, bound) ==> ridge_fits(x, y, lambda) && scoring_fits(
            x,
            y,
            lambda,
            eval,
        )
}

/// The training and evaluation matrices are well formed and small enough for
/// standardisation to succeed.
pub open spec fn calibration_input_ok(train: Seq<Seq<i64>>, eval: Seq<Seq<i64>>) -> bool {
    &&& ridge_shape_ok(train)
    &&& all_rows_len(eval, 2)
    &&& !has_constant_col(train)
    &&& entries_within(train, SAFE_ENTRY as int)
    &&& train.len() <= SAFE_ROWS
}

pub(crate) fn draw_target(rng: &mut rand::rngs::StdRng, n: usize, bound: i64) -> (y: Vec<i64>)
    requires
        bound > 0,
    ensures
        y@.len() == n,
        forall|i: int| 0 <= i < n ==> 0 <= #[trigger] y@[i] < bound,
{
    let mut y: Vec<i64> = Vec::new();
    let mut i: usize = 0;
    while i < n
        invariant
            bound > 0,
            0 <= i <= n,
            y@.len() == i,
            forall|k: int| 0 <= k < i ==> 0 <= #[trigger] y@[k] < bound,
        decreases n - i,
    {
        y.push(draw_below(rng, bound));
        i += 1;
    }
    y
}

/// Standardises `train` (see `normalize`), then draws random targets (one
/// value in `0..target_bound` per training row), fits on the centered training
/// matrix (the z-scores up to a positive factor per column, which keeps the
/// arithmetic exact) and ranks `eval` with each, and stops at the first ranking that
/// reproduces `truth` at every position, or with `IterationLimitExceeded` after
/// `max_iterations` draws. With a `seed` the draws, and so the outcome, are
/// reproducible; without one the generator is seeded by the operating system.
///
/// Structural errors stop the loop at once: `InvalidShape` unless `train` is a
/// valid two-feature matrix, `DimensionMismatch` when a row of `eval` has not two
/// entries, `DegenerateColumn` when a training column takes a single value, and
/// `SingularMatrix` or `Overflow` from the solver.
pub fn calibrate(
    train: &Vec<Vec<i64>>,
    eval: &Vec<Vec<i64>>,
    truth: &Vec<Vec<i64>>,
    lambda: i64,
    max_iterations: usize,
    target_bound: i64,
    seed: Option<u64>,
) -> (r: Result<Calibration, EngineError>)
    requires
        lambda >= 0,
        max_iterations > 0,
        target_bound > 0,
    ensures
        r is Err && r->Err_0 == EngineError::InvalidShape <==> !ridge_shape_ok(rows_of(train)),
        r is Err && r->Err_0 == EngineError::DimensionMismatch <==> ridge_shape_ok(rows_of(train))
            && !all_rows_len(rows_of(eval), 2),
        r is Err && r->Err_0 == EngineError::DegenerateColumn <==> ridge_shape_ok(rows_of(train))
            && all_rows_len(rows_of(eval), 2) && has_constant_col(rows_of(train)),
        r is Err && r->Err_0 == EngineError::SingularMatrix ==> ridge_det(
            centered_matrix(rows_of(train)),
            lambda as int,
        ) == 0,
        calibration_input_ok(rows_of(train), rows_of(eval)) && gram_fits(
            centered_matrix(rows_of(train)),
            lambda as int,
        ) && ridge_det(centered_matrix(rows_of(train)), lambda as int) == 0 ==> r is Err && r->Err_0
            == EngineError::SingularMatrix,
        calibration_input_ok(rows_of(train), rows_of(eval)) && ridge_det(
            centered_matrix(rows_of(train)),
            lambda as int,
        ) != 0 && all_targets_fit(
            centered_matrix(rows_of(train)),
            rows_of(eval),
            lambda as int,
            target_bound as int,
        ) ==> r is Ok || (r is Err && r->Err_0 == EngineError::IterationLimitExceeded),
        r is Ok ==> is_converged(
            r->Ok_0,
            centered_matrix(rows_of(train)),
            rows_of(eval),
            rows_of(truth),
            lambda as int,
            target_bound as int,
        ) && 1 <= r->Ok_0.iterations <= max_iterations,
{
    if !check_rect(train) || train[0].len() != 2 {
        return Err(EngineError::InvalidShape);
    }
    if !check_rows_len(eval, 2) {
        return Err(EngineError::DimensionMismatch);
    }
    let st = match normalize(train) {
        Ok(st) => st,
        Err(e) => {
            return Err(e);
        },
    };
    let ghost prepared = centered_matrix(rows_of(train));
    let ghost l = lambda as int;
    let ghost input_ok = calibration_input_ok(rows_of(train), rows_of(eval));
    let ghost singular = input_ok && gram_fits(prepared, l) && ridge_det(prepared, l) == 0;
    let ghost fitting = input_ok && ridge_det(prepared, l) != 0 && all_targets_fit(
        prepared,
        rows_of(eval),
        l,
        target_bound as int,
    );
    proof {
        lemma_centered_matrix(st, rows_of(train));
        assert(ridge_shape_ok(rows_of(&st.centered))) by {
            assert(rows_of(&st.centered)[0].len() == 2);
            assert forall|i: int| 0 <= i < rows_of(&st.centered).len() implies #[trigger] rows_of(
                &st.centered,
            )[i].len() == rows_of(&st.centered)[0].len() by {}
        }
    }
    let mut rng = match seed {
        Some(s) => seeded_generator(s),
        None => fresh_generator(),
    };
    let mut iter: usize = 0;
    while iter < max_iterations
        invariant
            0 <= iter <= max_iterations,
            lambda >= 0,
            target_bound > 0,
            prepared == centered_matrix(rows_of(train)),
            rows_of(&st.centered) == prepared,
            ridge_shape_ok(prepared),
            ridge_shape_ok(rows_of(train)),
            all_rows_len(rows_of(eval), 2),
            !has_constant_col(rows_of(train)),
            l == lambda as int,
            singular == (input_ok && gram_fits(prepared, l) && ridge_det(prepared, l) == 0),
            fitting == (input_ok && ridge_det(prepared, l) != 0 && all_targets_fit(
                prepared,
                rows_of(eval),
                l,
                target_bound as int,
            )),
            singular ==> iter == 0,
        decreases max_iterations - iter,
    {
        let y = draw_target(&mut rng, st.centered.len(), target_bound);
        assert(is_target(y@, prepared.len() as int, target_bound as int));
        let a = match calibration_step(&st.centered, eval, truth, lambda, &y) {
            Ok(a) => a,
            Err(e) => {
                return Err(e);
            },
        };
        iter += 1;
        if a.matches == truth.len() {
            proof {
                let ghost (rt, ro) = (rows_of(truth), a.ranking@);
                lemma_full_match(ro, rt, common_len(ro, rt));
                assert(is_ridge_fit(a.fit, prepared, y@, lambda as int));
            }
            return Ok(Calibration { fit: a.fit, coef: a.coef, ranking: a.ranking, iterations: iter });
        }
    }
    Err(EngineError::IterationLimitExceeded)
}

/// The row `r` occurs in `rows`.
pub open spec fn occurs(rows: Seq<Seq<i64>>, r: Seq<i64>) -> bool {
    exists|i: int| 0 <= i < rows.len() && rows[i] == r
}

/// A converged calibration only reproduces an expected order whose rows all
/// occur among the evaluation rows; for any other order the loop can only end
/// with an error such as `IterationLimitExceeded`.
pub proof fn lemma_converged_rows_from_eval(
    c: Calibration,
    train: Seq<Seq<i64>>,
    eval: Seq<Seq<i64>>,
    truth: Seq<Seq<i64>>,
    lambda: int,
    bound: int,
)
    requires
        is_converged(c, train, eval, truth, lambda, bound),
    ensures
        forall|k: int| 0 <= k < truth.len() ==> occurs(eval, #[trigger] truth[k]),
{
    assert forall|k: int| 0 <= k < truth.len() implies occurs(eval, #[trigger] truth[k]) by {
        let e = c.ranking@[k];
        assert(eval[e.index as int] == truth[k]);
    }
}

} // verus!
