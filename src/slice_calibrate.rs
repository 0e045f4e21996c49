use vstd::prelude::*;
use rand::rngs::StdRng;
use crate::calibrate::{draw_target, fresh_generator, is_target, seeded_generator};
use crate::matrix::{check_rect, rows_of, EngineError};
use crate::ranker::{rows_match, scores_fit};
use crate::ridge::{is_ridge_fit, ridge_coef, ridge_det, ridge_fits, ridge_shape_ok, RidgeFit};
use crate::slice_rank::{
    count_slice_matches, first_rows, is_slice_ranking, lemma_full_slice_match, rank_slices,
    slice_common_len, slice_match_count, slices_nonempty, slices_view, ScoredSlice,
};
use crate::slices::{
    combine_first, combine_fits, first_pairs, fit_slices, prod_abs, prod_abs_except, slice_of, Combined,
};
use crate::standardize::{
    centered_matrix, entries_within, has_constant_col, has_degenerate_column, lemma_centered_matrix,
    normalize, SAFE_ENTRY, SAFE_ROWS,
};

verus! {

/// For each slice of `xs`, its first fitted coefficient with a positive
/// scale, and its determinant.
pub open spec fn fitted_pairs(xs: Seq<Seq<Seq<i64>>>, y: Seq<i64>, lambda: int) -> Seq<(int, int)> {
    Seq::new(
        xs.len(),
        |s: int|
            (
                if ridge_det(xs[s], lambda) > 0 {
                    ridge_coef(xs[s], y, lambda, 0)
                } else {
                    -ridge_coef(xs[s], y, lambda, 0)
                },
                ridge_det(xs[s], lambda),
            ),
    )
}

/// The combined coefficient vector of the pairs `p`.
pub open spec fn combined_coef(p: Seq<(int, int)>) -> Seq<i64> {
    Seq::new(p.len(), |s: int| (p[s].0 * prod_abs_except(p, s, p.len() as int)) as i64)
}

/// `c` combines the per-slice solutions `fs` (see `combine_first`).
pub open spec fn is_combined(c: Combined, fs: Seq<RidgeFit>) -> bool {
    &&& c.scale as int == prod_abs(first_pairs(fs), fs.len() as int)
    &&& c.coef@.len() == fs.len()
    &&& forall|s: int|
        0 <= s < fs.len() ==> #[trigger] c.coef@[s] as int == first_pairs(fs)[s].0 * prod_abs_except(
            first_pairs(fs),
            s,
            fs.len() as int,
        )
}

/// Every value of one pass over slices stays within 64 bits, and the shapes fit.
pub open spec fn slice_step_fits(xs: Seq<Seq<Seq<i64>>>, y: Seq<i64>, lambda: int, eval: Seq<Seq<Seq<i64>>>) -> bool {
    &&& forall|s: int|
        0 <= s < xs.len() ==> ridge_shape_ok(#[trigger] xs[s]) && y.len() == xs[s].len() && ridge_fits(
            xs[s],
            y,
            lambda,
        ) && ridge_det(xs[s], lambda) != 0
    &&& combine_fits(fitted_pairs(xs, y, lambda))
    &&& slices_nonempty(eval)
    &&& rows_match(first_rows(eval), combined_coef(fitted_pairs(xs, y, lambda)))
    &&& scores_fit(first_rows(eval), combined_coef(fitted_pairs(xs, y, lambda)))
}

/// One pass of the slice pipeline for a given target vector.
pub struct SliceAttempt {
    pub fits: Vec<RidgeFit>,
    pub combined: Combined,
    pub ranking: Vec<ScoredSlice>,
    /// The positions where `ranking` agrees with the expected order.
    pub matches: usize,
}

/// `a` is the outcome of one pass on `xs`, `eval`, `truth`, `lambda` and `y`.
pub open spec fn is_slice_attempt(
    a: SliceAttempt,
    xs: Seq<Seq<Seq<i64>>>,
    eval: Seq<Seq<Seq<i64>>>,
    truth: Seq<Seq<Seq<i64>>>,
    lambda: int,
    y: Seq<i64>,
) -> bool {
    &&& a.fits@.len() == xs.len()
    &&& forall|s: int| 0 <= s < xs.len() ==> is_ridge_fit(#[trigger] a.fits@[s], xs[s], y, lambda)
    &&& is_combined(a.combined, a.fits@)
    &&& is_slice_ranking(a.ranking@, eval, a.combined.coef@)
    &&& a.matches == slice_match_count(a.ranking@, truth, slice_common_len(a.ranking@, truth))
}

/// Fits every slice of `xs` on the target `y`, combines the first coefficient
/// of each into one vector (see `combine_first`), ranks the slices of `eval`
/// with it (see `rank_slices`) and counts the positions that agree with `truth`.
pub fn slice_step(
    xs: &Vec<Vec<Vec<i64>>>,
    eval: &Vec<Vec<Vec<i64>>>,
    truth: &Vec<Vec<Vec<i64>>>,
    lambda: i64,
    y: &Vec<i64>,
) -> (r: Result<SliceAttempt, EngineError>)
    requires
        lambda >= 0,
    ensures
        r is Ok ==> is_slice_attempt(
            r->Ok_0,
            slices_view(xs),
            slices_view(eval),
            slices_view(truth),
            lambda as int,
            y@,
        ),
        r is Err && r->Err_0 == EngineError::InvalidShape ==> !(forall|s: int|
            0 <= s < xs@.len() ==> ridge_shape_ok(#[trigger] slices_view(xs)[s])) || !slices_nonempty(
            slices_view(eval),
        ),
        r is Err && r->Err_0 == EngineError::DimensionMismatch ==> !(forall|s: int|
            0 <= s < xs@.len() ==> y@.len() == (#[trigger] slices_view(xs)[s]).len()) || !(forall|s: int|
            0 <= s < eval@.len() ==> (#[trigger] slices_view(eval)[s])[0].len() == xs@.len()),
        r is Err && r->Err_0 == EngineError::SingularMatrix ==> exists|s: int|
            0 <= s < xs@.len() && ridge_det(#[trigger] slices_view(xs)[s], lambda as int) == 0,
        r is Err ==> r->Err_0 != EngineError::DegenerateColumn && r->Err_0
            != EngineError::IterationLimitExceeded,
        slice_step_fits(slices_view(xs), y@, lambda as int, slices_view(eval)) ==> r is Ok,
{
    let ghost xv = slices_view(xs);
    let ghost l = lambda as int;
    proof {
        assert forall|s: int| 0 <= s < xs@.len() implies #[trigger] slice_of(xs, s) == xv[s] by {}
    }
    proof {
        if slice_step_fits(xv, y@, l, slices_view(eval)) {
            assert forall|s: int| 0 <= s < xs@.len() implies ridge_shape_ok(#[trigger] slice_of(xs, s))
                && y@.len() == xs@[s]@.len() && ridge_fits(slice_of(xs, s), y@, l) && ridge_det(
                slice_of(xs, s),
                l,
            ) != 0 by {
                assert(xv[s] == slice_of(xs, s));
                assert(xv[s].len() == xs@[s]@.len());
                assert(ridge_shape_ok(xv[s]) && y@.len() == xv[s].len() && ridge_fits(xv[s], y@, l)
                    && ridge_det(xv[s], l) != 0);
            }
        }
    }
    let fits = match fit_slices(xs, y, lambda) {
        Ok(f) => f,
        Err(e) => {
            proof {
                if e == EngineError::InvalidShape {
                    let s = choose|s: int| 0 <= s < xs@.len() && !ridge_shape_ok(#[trigger] slice_of(xs, s));
                    assert(!ridge_shape_ok(xv[s]));
                }
                if e == EngineError::DimensionMismatch {
                    let s = choose|s: int| 0 <= s < xs@.len() && ridge_shape_ok(#[trigger] slice_of(xs, s)) && y@.len() != xs@[s]@.len();
                    assert(y@.len() != xv[s].len());
                }
                if e == EngineError::SingularMatrix {
                    let s = choose|s: int| 0 <= s < xs@.len() && ridge_det(#[trigger] slice_of(xs, s), l) == 0;
                    assert(ridge_det(xv[s], l) == 0);
                }
            }
            return Err(e);
        },
    };
    proof {
        assert(first_pairs(fits@) =~= fitted_pairs(xv, y@, l)) by {
            assert forall|s: int| 0 <= s < fits@.len() implies #[trigger] first_pairs(fits@)[s] == fitted_pairs(xv, y@, l)[s] by {
                assert(is_ridge_fit(fits@[s], slice_of(xs, s), y@, l));
            }
        }
        assert forall|s: int| 0 <= s < fits@.len() implies (#[trigger] fits@[s]).coef@.len() >= 1 && fits@[s].det != 0 by {
            assert(is_ridge_fit(fits@[s], slice_of(xs, s), y@, l));
        }
    }
    let combined = match combine_first(&fits) {
        Ok(c) => c,
        Err(e) => {
            return Err(e);
        },
    };
    proof {
        assert(combined.coef@ =~= combined_coef(fitted_pairs(xv, y@, l)));
    }
    let ranking = match rank_slices(eval, &combined.coef) {
        Ok(v) => v,
        Err(e) => {
            proof {
                if e == EngineError::DimensionMismatch {
                    let fr = first_rows(slices_view(eval));
                    let s = choose|s: int| 0 <= s < fr.len() && !(#[trigger] fr[s].len() == combined.coef@.len());
                    assert(slices_view(eval)[s][0].len() != xs@.len());
                }
            }
            return Err(e);
        },
    };
    let matches = count_slice_matches(&ranking, truth);
    Ok(SliceAttempt { fits, combined, ranking, matches })
}

/// Slices exist, each training slice is a valid two-feature matrix, and each
/// evaluation slice has a row.
pub open spec fn slice_shapes_ok(train: Seq<Seq<Seq<i64>>>, eval: Seq<Seq<Seq<i64>>>) -> bool {
    &&& train.len() > 0
    &&& forall|s: int| 0 <= s < train.len() ==> ridge_shape_ok(#[trigger] train[s])
    &&& slices_nonempty(eval)
}

/// Every training slice has as many rows as the first (one target serves
/// them all), and every evaluation slice's first row has one entry per
/// training slice (one combined coefficient each).
pub open spec fn slice_dims_ok(train: Seq<Seq<Seq<i64>>>, eval: Seq<Seq<Seq<i64>>>) -> bool {
    &&& forall|s: int| 0 <= s < train.len() ==> (#[trigger] train[s]).len() == train[0].len()
    &&& forall|s: int| 0 <= s < eval.len() ==> (#[trigger] eval[s])[0].len() == train.len()
}

/// Every training slice, centered (see `centered_matrix`).
pub open spec fn centered_slices(train: Seq<Seq<Seq<i64>>>) -> Seq<Seq<Seq<i64>>> {
    Seq::new(train.len(), |s: int| centered_matrix(train[s]))
}

/// No training slice has a constant column, and each is small enough for
/// standardisation to succeed.
pub open spec fn slices_standardizable(train: Seq<Seq<Seq<i64>>>) -> bool {
    forall|s: int|
        0 <= s < train.len() ==> !has_constant_col(#[trigger] train[s]) && entries_within(
            train[s],
            SAFE_ENTRY as int,
        ) && train[s].len() <= SAFE_ROWS
}

/// Every possible target leads to a pass over slices that stays within 64 bits.
pub open spec fn all_slice_targets_fit(xs: Seq<Seq<Seq<i64>>>, eval: Seq<Seq<Seq<i64>>>, lambda: int, rows: int, bound: int) -> bool {
    forall|y: Seq<i64>| #[trigger] is_target(y, rows, bound) ==> slice_step_fits(xs, y, lambda, eval)
}

/// A converged calibration over slices.
pub struct SliceCalibration {
    pub fits: Vec<RidgeFit>,
    pub combined: Combined,
    /// The ranking of the evaluation slices, equal to the expected order.
    pub ranking: Vec<ScoredSlice>,
    /// The number of targets drawn.
    pub iterations: usize,
}

/// `c` is a converged outcome over the prepared slices `xs`.
pub open spec fn is_slice_converged(
    c: SliceCalibration,
    xs: Seq<Seq<Seq<i64>>>,
    eval: Seq<Seq<Seq<i64>>>,
    truth: Seq<Seq<Seq<i64>>>,
    lambda: int,
    bound: int,
) -> bool {
    &&& exists|y: Seq<i64>|
        is_target(y, xs[0].len() as int, bound) && c.fits@.len() == xs.len() && forall|s: int|
            0 <= s < xs.len() ==> #[trigger] is_ridge_fit(c.fits@[s], xs[s], y, lambda)
    &&& is_combined(c.combined, c.fits@)
    &&& is_slice_ranking(c.ranking@, eval, c.combined.coef@)
    &&& truth.len() <= c.ranking@.len()
    &&& forall|k: int| 0 <= k < truth.len() ==> rows_of(&(#[trigger] c.ranking@[k]).slice) == truth[k]
}

/// The slice form of `calibrate`: standardises every training slice, then
/// draws random targets (one value in `0..target_bound` per row), fits every
/// centered slice, combines the first coefficient of each into one vector,
/// ranks the evaluation slices by their first rows with it, and stops at the
/// first ranking that reproduces `truth` at every position, or with
/// `IterationLimitExceeded` after `max_iterations` draws.
///
/// Structural errors stop it at once: `InvalidShape` (see `slice_shapes_ok`),
/// `DimensionMismatch` (see `slice_dims_ok`), `DegenerateColumn` when a
/// training column takes a single value, and `SingularMatrix` or `Overflow`.
pub fn calibrate_slices(
    train: &Vec<Vec<Vec<i64>>>,
    eval: &Vec<Vec<Vec<i64>>>,
    truth: &Vec<Vec<Vec<i64>>>,
    lambda: i64,
    max_iterations: usize,
    target_bound: i64,
    seed: Option<u64>,
) -> (r: Result<SliceCalibration, EngineError>)
    requires
        lambda >= 0,
        max_iterations > 0,
        target_bound > 0,
    ensures
        r is Err && r->Err_0 == EngineError::InvalidShape <==> !slice_shapes_ok(
            slices_view(train),
            slices_view(eval),
        ),
        r is Err && r->Err_0 == EngineError::DimensionMismatch <==> slice_shapes_ok(
            slices_view(train),
            slices_view(eval),
        ) && !slice_dims_ok(slices_view(train), slices_view(eval)),
        r is Err && r->Err_0 == EngineError::DegenerateColumn <==> slice_shapes_ok(
            slices_view(train),
            slices_view(eval),
        ) && slice_dims_ok(slices_view(train), slices_view(eval)) && exists|s: int|
            0 <= s < train@.len() && has_constant_col(#[trigger] slices_view(train)[s]),
        r is Err && r->Err_0 == EngineError::SingularMatrix ==> exists|s: int|
            0 <= s < train@.len() && ridge_det(#[trigger] centered_slices(slices_view(train))[s], lambda as int)
                == 0,
        slice_shapes_ok(slices_view(train), slices_view(eval)) && slice_dims_ok(
            slices_view(train),
            slices_view(eval),
        ) && slices_standardizable(slices_view(train)) && all_slice_targets_fit(
            centered_slices(slices_view(train)),
            slices_view(eval),
            lambda as int,
            slices_view(train)[0].len() as int,
            target_bound as int,
        ) ==> r is Ok || (r is Err && r->Err_0 == EngineError::IterationLimitExceeded),
        r is Ok ==> is_slice_converged(
            r->Ok_0,
            centered_slices(slices_view(train)),
            slices_view(eval),
            slices_view(truth),
            lambda as int,
            target_bound as int,
        ) && 1 <= r->Ok_0.iterations <= max_iterations,
{
    let ghost tv = slices_view(train);
    let ghost ev = slices_view(eval);
    let ghost l = lambda as int;
    if train.len() == 0 {
        return Err(EngineError::InvalidShape);
    }
    let mut s: usize = 0;
    while s < train.len()
        invariant
            tv == slices_view(train),
            0 <= s <= train@.len(),
            forall|k: int| 0 <= k < s ==> ridge_shape_ok(#[trigger] tv[k]),
        decreases train@.len() - s,
    {
        assert(tv[s as int] == rows_of(&train@[s as int]));
        if !check_rect(&train[s]) || train[s][0].len() != 2 {
            return Err(EngineError::InvalidShape);
        }
        s += 1;
    }
    s = 0;
    while s < eval.len()
        invariant
            ev == slices_view(eval),
            0 <= s <= eval@.len(),
            forall|k: int| 0 <= k < s ==> (#[trigger] ev[k]).len() > 0,
        decreases eval@.len() - s,
    {
        assert(ev[s as int] == rows_of(&eval@[s as int]));
        if eval[s].len() == 0 {
            return Err(EngineError::InvalidShape);
        }
        s += 1;
    }
    assert(slice_shapes_ok(tv, ev));
    let rows = train[0].len();
    assert(tv[0].len() == rows);
    s = 0;
    while s < train.len()
        invariant
            tv == slices_view(train),
            ev == slices_view(eval),
            slice_shapes_ok(tv, ev),
            rows == tv[0].len(),
            0 <= s <= train@.len(),
            forall|k: int| 0 <= k < s ==> (#[trigger] tv[k]).len() == rows,
        decreases train@.len() - s,
    {
        assert(tv[s as int] == rows_of(&train@[s as int]));
        if train[s].len() != rows {
            assert(!slice_dims_ok(tv, ev));
            return Err(EngineError::DimensionMismatch);
        }
        s += 1;
    }
    s = 0;
    while s < eval.len()
        invariant
            tv == slices_view(train),
            ev == slices_view(eval),
            slice_shapes_ok(tv, ev),
            forall|k: int| 0 <= k < train@.len() ==> (#[trigger] tv[k]).len() == tv[0].len(),
            slices_nonempty(ev),
            0 <= s <= eval@.len(),
            forall|k: int| 0 <= k < s ==> (#[trigger] ev[k])[0].len() == train@.len(),
        decreases eval@.len() - s,
    {
        assert(ev[s as int] == rows_of(&eval@[s as int]));
        assert(ev[s as int].len() > 0);
        if eval[s][0].len() != train.len() {
            assert(!slice_dims_ok(tv, ev));
            return Err(EngineError::DimensionMismatch);
        }
        s += 1;
    }
    assert(slice_dims_ok(tv, ev));
    s = 0;
    while s < train.len()
        invariant
            tv == slices_view(train),
            ev == slices_view(eval),
            slice_shapes_ok(tv, ev),
            slice_dims_ok(tv, ev),
            0 <= s <= train@.len(),
            forall|k: int| 0 <= k < s ==> !has_constant_col(#[trigger] tv[k]),
        decreases train@.len() - s,
    {
        assert(tv[s as int] == rows_of(&train@[s as int]));
        assert(ridge_shape_ok(tv[s as int]));
        if has_degenerate_column(&train[s]) {
            return Err(EngineError::DegenerateColumn);
        }
        s += 1;
    }
    let ghost xs = centered_slices(tv);
    let mut prepared: Vec<Vec<Vec<i64>>> = Vec::new();
    s = 0;
    while s < train.len()
        invariant
            tv == slices_view(train),
            ev == slices_view(eval),
            xs == centered_slices(tv),
            slice_shapes_ok(tv, ev),
            slice_dims_ok(tv, ev),
            forall|k: int| 0 <= k < train@.len() ==> !has_constant_col(#[trigger] tv[k]),
            0 <= s <= train@.len(),
            prepared@.len() == s,
            forall|k: int| 0 <= k < s ==> rows_of(&(#[trigger] prepared@[k])) == xs[k],
            forall|k: int| 0 <= k < s ==> ridge_shape_ok(#[trigger] xs[k]) && xs[k].len() == tv[0].len(),
        decreases train@.len() - s,
    {
        assert(tv[s as int] == rows_of(&train@[s as int]));
        assert(ridge_shape_ok(tv[s as int]));
        let st = match normalize(&train[s]) {
            Ok(st) => st,
            Err(e) => {
                assert(e == EngineError::Overflow);
                assert(!(entries_within(tv[s as int], SAFE_ENTRY as int) && tv[s as int].len() <= SAFE_ROWS));
                return Err(e);
            },
        };
        proof {
            lemma_centered_matrix(st, tv[s as int]);
            let c = rows_of(&st.centered);
            assert(c[0].len() == 2);
            assert forall|i: int| 0 <= i < c.len() implies #[trigger] c[i].len() == c[0].len() by {}
            assert(ridge_shape_ok(xs[s as int]));
        }
        prepared.push(st.centered);
        s += 1;
    }
    proof {
        assert(slices_view(&prepared) =~= xs) by {
            assert forall|k: int| 0 <= k < xs.len() implies #[trigger] slices_view(&prepared)[k] == xs[k] by {
                assert(rows_of(&prepared@[k]) == xs[k]);
            }
        }
    }
    let ghost fitting = slices_standardizable(tv) && all_slice_targets_fit(xs, ev, l, tv[0].len() as int, target_bound as int);
    let mut rng: StdRng = match seed {
        Some(v) => seeded_generator(v),
        None => fresh_generator(),
    };
    let mut iter: usize = 0;
    while iter < max_iterations
        invariant
            0 <= iter <= max_iterations,
            lambda >= 0,
            target_bound > 0,
            l == lambda as int,
            tv == slices_view(train),
            ev == slices_view(eval),
            xs == centered_slices(tv),
            slices_view(&prepared) == xs,
            slice_shapes_ok(tv, ev),
            slice_dims_ok(tv, ev),
            forall|k: int| 0 <= k < train@.len() ==> !has_constant_col(#[trigger] tv[k]),
            forall|k: int| 0 <= k < xs.len() ==> ridge_shape_ok(#[trigger] xs[k]) && xs[k].len() == tv[0].len(),
            rows == tv[0].len(),
            fitting == (slices_standardizable(tv) && all_slice_targets_fit(xs, ev, l, tv[0].len() as int, target_bound as int)),
        decreases max_iterations - iter,
    {
        let y = draw_target(&mut rng, rows, target_bound);
        assert(is_target(y@, tv[0].len() as int, target_bound as int));
        let a = match slice_step(&prepared, eval, truth, lambda, &y) {
            Ok(a) => a,
            Err(e) => {
                proof {
                    if e == EngineError::InvalidShape {
                        assert forall|k: int| 0 <= k < prepared@.len() implies ridge_shape_ok(#[trigger] slices_view(&prepared)[k]) by {
                            assert(ridge_shape_ok(xs[k]));
                        }
                    }
                    if e == EngineError::DimensionMismatch {
                        assert forall|k: int| 0 <= k < prepared@.len() implies y@.len() == (#[trigger] slices_view(&prepared)[k]).len() by {
                            assert(xs[k].len() == tv[0].len());
                        }
                    }
                    if e == EngineError::SingularMatrix {
                        let k = choose|k: int| 0 <= k < prepared@.len() && ridge_det(#[trigger] slices_view(&prepared)[k], l) == 0;
                        assert(ridge_det(centered_slices(tv)[k], l) == 0);
                    }
                }
                return Err(e);
            },
        };
        iter += 1;
        if a.matches == truth.len() {
            proof {
                let tr = slices_view(truth);
                lemma_full_slice_match(a.ranking@, tr, slice_common_len(a.ranking@, tr));
                assert(is_target(y@, xs[0].len() as int, target_bound as int));
                assert(forall|k: int| 0 <= k < xs.len() ==> #[trigger] is_ridge_fit(a.fits@[k], xs[k], y@, l));
            }
            return Ok(SliceCalibration { fits: a.fits, combined: a.combined, ranking: a.ranking, iterations: iter });
        }
    }
    Err(EngineError::IterationLimitExceeded)
}

} // verus!
