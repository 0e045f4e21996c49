use rank_calib::matrix::EngineError;
use rank_calib::ridge::fit;
use rank_calib::slice_calibrate::{calibrate_slices, slice_step};
use rank_calib::slice_rank::{count_slice_matches, rank_slices};
use rank_calib::slices::{combine_first, fit_slices, normalize_slices, transpose_slices};

#[test]
fn transpose_slices_transposes_each_matrix() {
    let t = vec![vec![vec![1, 2], vec![3, 4]], vec![vec![5, 6, 7]]];
    let r = transpose_slices(&t).unwrap();
    assert_eq!(r, vec![vec![vec![1, 3], vec![2, 4]], vec![vec![5], vec![6], vec![7]]]);
    assert_eq!(transpose_slices(&r).unwrap(), t);
    let bad = vec![vec![vec![1, 2]], vec![vec![1], vec![2, 3]]];
    assert_eq!(transpose_slices(&bad), Err(EngineError::InvalidShape));
}

#[test]
fn normalize_slices_standardizes_each_matrix() {
    let t = vec![vec![vec![1, 2], vec![2, 4], vec![3, 9]], vec![vec![0, 1], vec![2, 0]]];
    let r = normalize_slices(&t).unwrap();
    assert_eq!(r.len(), 2);
    assert_eq!(r[0].spread, vec![6, 78]);
    assert_eq!(r[1].centered, vec![vec![-2, 1], vec![2, -1]]);
    assert_eq!(r[1].spread, vec![4, 1]);
    let degenerate = vec![vec![vec![1, 2], vec![2, 4]], vec![vec![1, 1], vec![1, 2]]];
    assert_eq!(normalize_slices(&degenerate).err(), Some(EngineError::DegenerateColumn));
}

#[test]
fn fit_slices_fits_each_matrix() {
    let a = vec![vec![1, 2], vec![3, 4], vec![5, 7]];
    let b = vec![vec![2, 0], vec![0, 3], vec![1, 1]];
    let y = vec![1, 2, 3];
    let fits = fit_slices(&vec![a.clone(), b.clone()], &y, 1).unwrap();
    assert_eq!(fits.len(), 2);
    assert_eq!(fits[0].coef, vec![21, 38]);
    assert_eq!(fits[0].det, 119);
    let single = fit(&b, &y, 1).unwrap();
    assert_eq!(fits[1].coef, single.coef);
    assert_eq!(fits[1].det, single.det);
    let short = vec![a, vec![vec![1, 2]]];
    assert_eq!(fit_slices(&short, &y, 1).err(), Some(EngineError::DimensionMismatch));
}


fn train_slices() -> Vec<Vec<Vec<i64>>> {
    vec![vec![vec![1, 2], vec![2, 1], vec![3, 5]], vec![vec![4, 1], vec![1, 3], vec![2, 2]]]
}

fn eval_slices() -> Vec<Vec<Vec<i64>>> {
    vec![vec![vec![1, 0], vec![7, 7]], vec![vec![2, 0]], vec![vec![3, 0], vec![0, 1]]]
}

#[test]
fn combine_first_uses_a_common_scale() {
    let a = vec![vec![1, 2], vec![3, 4], vec![5, 7]];
    let b = vec![vec![2, 0], vec![0, 3], vec![1, 1]];
    let fits = fit_slices(&vec![a, b], &vec![1, 2, 3], 1).unwrap();
    let c = combine_first(&fits).unwrap();
    assert_eq!(c.scale, 119 * 65);
    assert_eq!(c.coef, vec![21 * 65, 46 * 119]);
    for (s, f) in fits.iter().enumerate() {
        assert_eq!(c.coef[s] as i128 * f.det as i128, f.coef[0] as i128 * c.scale as i128);
    }
}

#[test]
fn combine_first_reports_overflow() {
    let big = vec![vec![3000, 0], vec![0, 3000]];
    let fits = fit_slices(&vec![big.clone(), big.clone(), big], &vec![1, 1], 0).unwrap();
    assert_eq!(combine_first(&fits).err(), Some(EngineError::Overflow));
}

#[test]
fn rank_slices_orders_by_first_row() {
    let data = vec![vec![vec![1, 0], vec![9, 9]], vec![vec![3, 0]], vec![vec![2, 0], vec![5]]];
    let out = rank_slices(&data, &vec![1, 0]).unwrap();
    let indices: Vec<usize> = out.iter().map(|s| s.index).collect();
    assert_eq!(indices, vec![1, 2, 0]);
    assert_eq!(out[2].slice, vec![vec![1, 0], vec![9, 9]]);
    let scores: Vec<i64> = out.iter().map(|s| s.score).collect();
    assert_eq!(scores, vec![3, 2, 1]);
    assert!(matches!(rank_slices(&vec![vec![]], &vec![1]), Err(EngineError::InvalidShape)));
    assert!(matches!(rank_slices(&data, &vec![1]), Err(EngineError::DimensionMismatch)));
}

#[test]
fn count_slice_matches_compares_whole_slices() {
    let data = vec![vec![vec![1, 0]], vec![vec![3, 0]]];
    let out = rank_slices(&data, &vec![1, 0]).unwrap();
    assert_eq!(count_slice_matches(&out, &vec![vec![vec![3, 0]], vec![vec![1, 0]]]), 2);
    assert_eq!(count_slice_matches(&out, &vec![vec![vec![3, 0]], vec![vec![1, 1]]]), 1);
}

#[test]
fn slice_step_fits_ranks_and_counts() {
    let xs = train_slices();
    let y = vec![1, 2, 3];
    let a = slice_step(&xs, &eval_slices(), &Vec::new(), 1, &y).unwrap();
    assert_eq!(a.fits.len(), 2);
    let f0 = fit(&xs[0], &y, 1).unwrap();
    assert_eq!(a.fits[0].coef, f0.coef);
    assert_eq!(a.combined.coef.len(), 2);
    assert_eq!(a.ranking.len(), 3);
    assert_eq!(a.matches, 0);
}

#[test]
fn calibrate_slices_reaches_a_reachable_order() {
    let truth = vec![vec![vec![3, 0], vec![0, 1]], vec![vec![2, 0]], vec![vec![1, 0], vec![7, 7]]];
    let c = calibrate_slices(&train_slices(), &eval_slices(), &truth, 1, 1000, 1000, Some(3)).unwrap();
    let got: Vec<Vec<Vec<i64>>> = c.ranking.iter().map(|s| s.slice.clone()).collect();
    assert_eq!(got, truth);
    assert!(c.iterations >= 1 && c.iterations <= 1000);
}

#[test]
fn calibrate_slices_stops_on_unreachable_order() {
    let truth = vec![vec![vec![2, 0]], vec![vec![1, 0], vec![7, 7]], vec![vec![3, 0], vec![0, 1]]];
    let r = calibrate_slices(&train_slices(), &eval_slices(), &truth, 1, 20, 1000, Some(5));
    assert_eq!(r.err(), Some(EngineError::IterationLimitExceeded));
}

#[test]
fn calibrate_slices_structural_errors() {
    let eval = eval_slices();
    let empty: Vec<Vec<Vec<i64>>> = Vec::new();
    assert_eq!(calibrate_slices(&empty, &eval, &empty, 1, 5, 10, None).err(), Some(EngineError::InvalidShape));
    let uneven = vec![vec![vec![1, 2], vec![2, 1], vec![3, 5]], vec![vec![4, 1], vec![1, 3]]];
    assert_eq!(calibrate_slices(&uneven, &eval, &empty, 1, 5, 10, None).err(), Some(EngineError::DimensionMismatch));
    let wide_eval = vec![vec![vec![1, 2, 3]]];
    assert_eq!(calibrate_slices(&train_slices(), &wide_eval, &empty, 1, 5, 10, None).err(), Some(EngineError::DimensionMismatch));
    let constant = vec![vec![vec![1, 2], vec![1, 1], vec![1, 5]], vec![vec![4, 1], vec![1, 3], vec![2, 2]]];
    assert_eq!(calibrate_slices(&constant, &eval, &empty, 1, 5, 10, None).err(), Some(EngineError::DegenerateColumn));
}
