use rank_calib::calibrate::{calibrate, calibration_step};
use rank_calib::matrix::{inverse, matmul, matvec, transpose, EngineError};
use rank_calib::ranker::{count_matches, rank};
use rank_calib::ridge::fit;
use rank_calib::standardize::normalize;

fn training_rows() -> Vec<Vec<i64>> {
    vec![
        vec![1, 16],
        vec![2, 49],
        vec![3, 34],
        vec![4, 9],
        vec![5, 78],
        vec![6, 17],
        vec![7, 42],
        vec![8, 28],
        vec![9, 62],
        vec![10, 17],
    ]
}

fn candidate_rows() -> Vec<Vec<i64>> {
    vec![
        vec![21, 16],
        vec![52, 49],
        vec![23, 34],
        vec![14, 9],
        vec![15, 78],
        vec![46, 17],
        vec![7, 42],
        vec![8, 28],
        vec![29, 62],
        vec![20, 17],
    ]
}

fn expected_order() -> Vec<Vec<i64>> {
    vec![
        vec![7, 42],
        vec![8, 28],
        vec![14, 9],
        vec![15, 78],
        vec![20, 17],
        vec![21, 16],
        vec![23, 34],
        vec![29, 62],
        vec![46, 17],
        vec![52, 49],
    ]
}

#[test]
fn transpose_swaps_rows_and_columns() {
    let m = vec![vec![1, 2, 3], vec![4, 5, 6]];
    let t = transpose(&m).unwrap();
    assert_eq!(t, vec![vec![1, 4], vec![2, 5], vec![3, 6]]);
}

#[test]
fn transpose_twice_gives_back_the_matrix() {
    let m = vec![vec![1i64, -2, 3, 9], vec![4, 5, -6, 0], vec![7, 8, 9, 1]];
    let t = transpose(&m).unwrap();
    assert_eq!(transpose(&t).unwrap(), m);
}

#[test]
fn transpose_rejects_ragged_and_empty() {
    let ragged = vec![vec![1i64, 2], vec![3]];
    assert_eq!(transpose(&ragged), Err(EngineError::InvalidShape));
    let empty: Vec<Vec<i64>> = Vec::new();
    assert_eq!(transpose(&empty), Err(EngineError::InvalidShape));
    let no_columns: Vec<Vec<i64>> = vec![vec![]];
    assert_eq!(transpose(&no_columns), Err(EngineError::InvalidShape));
}

#[test]
fn matmul_multiplies_exactly() {
    let a = vec![vec![1, 2], vec![3, 4]];
    let b = vec![vec![5, 6], vec![7, 8]];
    assert_eq!(matmul(&a, &b).unwrap(), vec![vec![19, 22], vec![43, 50]]);
    let row = vec![vec![1, 2, 3]];
    let col = vec![vec![4], vec![5], vec![6]];
    assert_eq!(matmul(&row, &col).unwrap(), vec![vec![32]]);
}

#[test]
fn matmul_mismatched_shapes_fail() {
    let shapes = [(2usize, 3usize, 2usize, 2usize), (1, 1, 2, 1), (3, 2, 3, 2), (2, 4, 5, 1)];
    for (ar, ac, br, bc) in shapes {
        let a = vec![vec![1i64; ac]; ar];
        let b = vec![vec![1i64; bc]; br];
        assert_eq!(matmul(&a, &b), Err(EngineError::DimensionMismatch));
    }
}

#[test]
fn matmul_reports_overflow() {
    let a = vec![vec![i64::MAX]];
    let b = vec![vec![2]];
    assert_eq!(matmul(&a, &b), Err(EngineError::Overflow));
}

#[test]
fn matvec_multiplies_and_checks_length() {
    let a = vec![vec![1, 2], vec![3, 4], vec![-1, 0]];
    assert_eq!(matvec(&a, &vec![10, 1]).unwrap(), vec![12, 34, -10]);
    assert_eq!(matvec(&a, &vec![1, 2, 3]), Err(EngineError::DimensionMismatch));
    let ragged = vec![vec![1i64, 2], vec![3]];
    assert_eq!(matvec(&ragged, &vec![1, 2]), Err(EngineError::InvalidShape));
}

#[test]
fn inverse_gives_adjugate_and_determinant() {
    let m = vec![vec![4, 7], vec![2, 6]];
    let inv = inverse(&m).unwrap();
    assert_eq!(inv.adj, vec![vec![6, -7], vec![-2, 4]]);
    assert_eq!(inv.det, 10);
    let product = matmul(&m, &inv.adj).unwrap();
    assert_eq!(product, vec![vec![10, 0], vec![0, 10]]);
}

#[test]
fn inverse_times_matrix_is_scaled_identity() {
    let m = vec![vec![-3, 5], vec![11, 2]];
    let inv = inverse(&m).unwrap();
    assert_eq!(inv.det, -61);
    let product = matmul(&m, &inv.adj).unwrap();
    assert_eq!(product, vec![vec![inv.det, 0], vec![0, inv.det]]);
}

#[test]
fn inverse_errors() {
    assert_eq!(inverse(&vec![vec![1, 2], vec![2, 4]]).err(), Some(EngineError::SingularMatrix));
    assert_eq!(inverse(&vec![vec![1, 2, 3], vec![2, 4, 5]]).err(), Some(EngineError::InvalidShape));
    let big = vec![vec![i64::MAX, i64::MIN], vec![i64::MAX, i64::MAX]];
    assert_eq!(inverse(&big).err(), Some(EngineError::Overflow));
}

#[test]
fn normalize_centers_and_measures_spread() {
    let m = vec![vec![1, 2], vec![2, 4], vec![3, 9]];
    let st = normalize(&m).unwrap();
    assert_eq!(st.centered, vec![vec![-3, -9], vec![0, -3], vec![3, 12]]);
    assert_eq!(st.spread, vec![6, 78]);
    // Mean zero and unit population variance of centered / sqrt(spread).
    for j in 0..2 {
        let col: Vec<i64> = st.centered.iter().map(|r| r[j]).collect();
        assert_eq!(col.iter().sum::<i64>(), 0);
        let sq: i128 = col.iter().map(|v| (*v as i128) * (*v as i128)).sum();
        assert_eq!(sq, 3 * st.spread[j]);
        let z: Vec<f64> = col.iter().map(|v| *v as f64 / (st.spread[j] as f64).sqrt()).collect();
        let mean = z.iter().sum::<f64>() / 3.0;
        let var = z.iter().map(|v| (v - mean) * (v - mean)).sum::<f64>() / 3.0;
        assert!(mean.abs() < 1e-9);
        assert!((var - 1.0).abs() < 1e-9);
    }
}

#[test]
fn normalize_rejects_constant_column() {
    let m = vec![vec![1, 5], vec![2, 5], vec![3, 5]];
    assert_eq!(normalize(&m).err(), Some(EngineError::DegenerateColumn));
    let single_row = vec![vec![1, 2]];
    assert_eq!(normalize(&single_row).err(), Some(EngineError::DegenerateColumn));
    let ragged = vec![vec![1i64, 2], vec![3]];
    assert_eq!(normalize(&ragged).err(), Some(EngineError::InvalidShape));
}

#[test]
fn fit_solves_ridge_exactly() {
    let x = vec![vec![1, 2], vec![3, 4], vec![5, 7]];
    let y = vec![1, 2, 3];
    let f = fit(&x, &y, 1).unwrap();
    assert_eq!(f.coef, vec![21, 38]);
    assert_eq!(f.det, 119);
}

#[test]
fn fit_is_deterministic() {
    let x = vec![vec![1, 2], vec![3, 4], vec![5, 7], vec![-2, 9]];
    let y = vec![4, 0, 7, 3];
    let a = fit(&x, &y, 3).unwrap();
    let b = fit(&x, &y, 3).unwrap();
    assert_eq!(a.coef, b.coef);
    assert_eq!(a.det, b.det);
}

#[test]
fn fit_errors() {
    let three = vec![vec![1, 2, 3], vec![4, 5, 6]];
    assert_eq!(fit(&three, &vec![1, 2], 1).err(), Some(EngineError::InvalidShape));
    let x = vec![vec![1, 2], vec![3, 4]];
    assert_eq!(fit(&x, &vec![1, 2, 3], 1).err(), Some(EngineError::DimensionMismatch));
    let zeros = vec![vec![0, 0], vec![0, 0]];
    assert_eq!(fit(&zeros, &vec![1, 2], 0).err(), Some(EngineError::SingularMatrix));
    let collinear = vec![vec![1, 2], vec![2, 4]];
    assert_eq!(fit(&collinear, &vec![1, 2], 0).err(), Some(EngineError::SingularMatrix));
}

#[test]
fn rank_sorts_by_descending_score() {
    let rows = vec![vec![1, 0], vec![3, 0], vec![2, 0], vec![3, 0]];
    let out = rank(&rows, &vec![1, 0]).unwrap();
    let indices: Vec<usize> = out.iter().map(|s| s.index).collect();
    assert_eq!(indices, vec![1, 3, 2, 0]);
    let scores: Vec<i64> = out.iter().map(|s| s.score).collect();
    assert_eq!(scores, vec![3, 3, 2, 1]);
    assert_eq!(out[2].row, vec![2, 0]);
}

#[test]
fn rank_scores_are_non_increasing() {
    let rows = candidate_rows();
    let out = rank(&rows, &vec![-7, 3]).unwrap();
    assert_eq!(out.len(), rows.len());
    for w in out.windows(2) {
        assert!(w[0].score >= w[1].score);
    }
    for s in &out {
        assert_eq!(s.score, -7 * rows[s.index][0] + 3 * rows[s.index][1]);
        assert_eq!(s.row, rows[s.index]);
    }
}

#[test]
fn rank_errors() {
    let rows = vec![vec![1, 2], vec![3]];
    assert!(matches!(rank(&rows, &vec![1, 1]), Err(EngineError::DimensionMismatch)));
    let big = vec![vec![i64::MAX, 1]];
    assert!(matches!(rank(&big, &vec![2, 0]), Err(EngineError::Overflow)));
    let none: Vec<Vec<i64>> = Vec::new();
    assert_eq!(rank(&none, &vec![1, 2]).unwrap().len(), 0);
}

#[test]
fn count_matches_counts_equal_positions() {
    let rows = vec![vec![1, 0], vec![3, 0], vec![2, 0]];
    let out = rank(&rows, &vec![1, 0]).unwrap();
    assert_eq!(count_matches(&out, &vec![vec![3, 0], vec![2, 0], vec![1, 0]]), 3);
    assert_eq!(count_matches(&out, &vec![vec![3, 0], vec![1, 0], vec![2, 0]]), 1);
    assert_eq!(count_matches(&out, &vec![vec![3, 0]]), 1);
    assert_eq!(count_matches(&out, &Vec::new()), 0);
}

#[test]
fn calibration_step_with_a_fitting_target() {
    let train = training_rows();
    let st = normalize(&train).unwrap();
    let y = vec![460, 483, 667, 388, 807, 214, 96, 499, 29, 914];
    let a = calibration_step(&st.centered, &candidate_rows(), &expected_order(), 1, &y).unwrap();
    assert_eq!(a.fit.det, 3731324011);
    assert_eq!(a.coef, vec![-3123194205, -68231354]);
    let indices: Vec<usize> = a.ranking.iter().map(|s| s.index).collect();
    assert_eq!(indices, vec![6, 7, 3, 4, 9, 0, 2, 8, 5, 1]);
    assert_eq!(a.matches, 10);
}

#[test]
fn calibration_step_with_a_wrong_target() {
    let train = training_rows();
    let st = normalize(&train).unwrap();
    let mut y = vec![0; 10];
    y[9] = 1;
    let a = calibration_step(&st.centered, &candidate_rows(), &expected_order(), 1, &y).unwrap();
    assert_eq!(a.fit.coef, vec![21492045, -1744682]);
    assert_eq!(a.matches, 0);
}

#[test]
fn calibration_step_errors() {
    let train = training_rows();
    let y = vec![1; 10];
    let wide = vec![vec![1, 2, 3]];
    assert_eq!(calibration_step(&wide, &candidate_rows(), &expected_order(), 1, &y).err(), Some(EngineError::InvalidShape));
    assert_eq!(calibration_step(&train, &vec![vec![1]], &expected_order(), 1, &y).err(), Some(EngineError::DimensionMismatch));
    assert_eq!(calibration_step(&train, &candidate_rows(), &expected_order(), 1, &vec![1; 3]).err(), Some(EngineError::DimensionMismatch));
}

#[test]
fn calibrate_reaches_the_expected_order() {
    let c = calibrate(&training_rows(), &candidate_rows(), &expected_order(), 1, 100_000, 1000, None).unwrap();
    let rows: Vec<Vec<i64>> = c.ranking.iter().map(|s| s.row.clone()).collect();
    assert_eq!(rows, expected_order());
    assert!(c.iterations >= 1);
    assert!(c.fit.det != 0);
}

#[test]
fn calibrate_stops_on_unreachable_order() {
    let train = vec![vec![1, 3], vec![2, 1], vec![3, 4]];
    let eval = vec![vec![1, 0], vec![2, 0], vec![3, 0]];
    // Any linear score is monotone along the first feature: the middle row can never lead.
    let truth = vec![vec![2, 0], vec![1, 0], vec![3, 0]];
    assert_eq!(calibrate(&train, &eval, &truth, 1, 25, 1000, None).err(), Some(EngineError::IterationLimitExceeded));
    let foreign = vec![vec![9, 9], vec![1, 0], vec![2, 0]];
    assert_eq!(calibrate(&train, &eval, &foreign, 1, 5, 1000, None).err(), Some(EngineError::IterationLimitExceeded));
}

#[test]
fn calibrate_structural_errors() {
    let eval = candidate_rows();
    let truth = expected_order();
    let constant = vec![vec![1, 5], vec![2, 5], vec![3, 5]];
    assert_eq!(calibrate(&constant, &eval, &truth, 1, 10, 1000, None).err(), Some(EngineError::DegenerateColumn));
    let wide = vec![vec![1, 2, 3], vec![4, 5, 6]];
    assert_eq!(calibrate(&wide, &eval, &truth, 1, 10, 1000, None).err(), Some(EngineError::InvalidShape));
    assert_eq!(calibrate(&training_rows(), &vec![vec![1, 2, 3]], &truth, 1, 10, 1000, None).err(), Some(EngineError::DimensionMismatch));
}

fn sample_training() -> Vec<Vec<i64>> {
    vec![
        vec![1, 16, 60, 20, 5, 71, 8, 26, 90, 34],
        vec![2, 49, 99, 88, 82, 10, 68, 14, 19, 62],
        vec![3, 34, 68, 89, 38, 27, 77, 79, 78, 42],
        vec![4, 9, 97, 55, 63, 36, 58, 29, 21, 45],
        vec![5, 78, 51, 76, 50, 89, 40, 13, 78, 71],
        vec![6, 17, 51, 56, 90, 17, 67, 69, 29, 82],
        vec![7, 42, 57, 34, 88, 45, 72, 58, 58, 8],
        vec![8, 28, 38, 23, 91, 12, 99, 62, 90, 92],
        vec![9, 62, 70, 63, 2, 96, 18, 30, 84, 100],
        vec![10, 17, 6, 16, 85, 94, 71, 4, 53, 23],
    ]
}

fn sample_new_data() -> Vec<Vec<i64>> {
    vec![
        vec![21, 16, 60, 20, 5, 71, 8, 26, 90, 34],
        vec![52, 49, 99, 88, 82, 10, 68, 14, 19, 62],
        vec![23, 34, 68, 89, 38, 27, 77, 79, 78, 42],
        vec![14, 9, 97, 55, 63, 36, 58, 29, 21, 45],
        vec![15, 78, 51, 76, 50, 89, 40, 13, 78, 71],
        vec![46, 17, 51, 56, 90, 17, 67, 69, 29, 82],
        vec![7, 42, 57, 34, 88, 45, 72, 58, 58, 8],
        vec![8, 28, 38, 23, 91, 12, 99, 62, 90, 92],
        vec![29, 62, 70, 63, 2, 96, 18, 30, 84, 100],
        vec![20, 17, 6, 16, 85, 94, 71, 4, 53, 23],
    ]
}

fn sample_true_order() -> Vec<Vec<i64>> {
    vec![
        vec![7, 42, 57, 34, 88, 45, 72, 58, 58, 8],
        vec![8, 28, 38, 23, 91, 12, 99, 62, 90, 92],
        vec![14, 9, 97, 55, 63, 36, 58, 29, 21, 45],
        vec![15, 78, 51, 76, 50, 89, 40, 13, 78, 71],
        vec![20, 17, 6, 16, 85, 94, 71, 4, 53, 23],
        vec![21, 16, 60, 20, 5, 71, 8, 26, 90, 34],
        vec![23, 34, 68, 89, 38, 27, 77, 79, 78, 42],
        vec![29, 62, 70, 63, 2, 96, 18, 30, 84, 100],
        vec![46, 17, 51, 56, 90, 17, 67, 69, 29, 82],
        vec![52, 49, 99, 88, 82, 10, 68, 14, 19, 62],
    ]
}

fn first_two(rows: &[Vec<i64>]) -> Vec<Vec<i64>> {
    rows.iter().map(|r| vec![r[0], r[1]]).collect()
}

#[test]
fn calibrate_on_the_ten_feature_sample() {
    // The closed 2x2 inverse takes two features: the first two of each row.
    let new_data = sample_new_data();
    let c = calibrate(
        &first_two(&sample_training()),
        &first_two(&new_data),
        &first_two(&sample_true_order()),
        1,
        100_000,
        1000,
        Some(7),
    )
    .unwrap();
    let ranked: Vec<Vec<i64>> = c.ranking.iter().map(|s| new_data[s.index].clone()).collect();
    assert_eq!(ranked, sample_true_order());
}

#[test]
fn calibrate_with_a_seed_is_reproducible() {
    let first = calibrate(&training_rows(), &candidate_rows(), &expected_order(), 1, 100_000, 1000, Some(42)).unwrap();
    let second = calibrate(&training_rows(), &candidate_rows(), &expected_order(), 1, 100_000, 1000, Some(42)).unwrap();
    assert_eq!(first.iterations, second.iterations);
    assert_eq!(first.coef, second.coef);
    assert_eq!(first.fit.det, second.fit.det);
    let rows: Vec<Vec<i64>> = first.ranking.iter().map(|s| s.row.clone()).collect();
    assert_eq!(rows, expected_order());
}

#[test]
fn calibrate_reports_a_singular_normal_matrix() {
    // Proportional columns stay proportional once centered: with no
    // regularisation the normal matrix is singular before any draw matters.
    let train = vec![vec![1, 2], vec![2, 4], vec![3, 6]];
    let r = calibrate(&train, &candidate_rows(), &expected_order(), 0, 10, 1000, Some(1));
    assert_eq!(r.err(), Some(EngineError::SingularMatrix));
}

#[test]
fn fit_outcomes_repeat() {
    let x = vec![vec![1, 2], vec![2, 4]];
    let y = vec![5, 6];
    assert_eq!(fit(&x, &y, 0).err(), fit(&x, &y, 0).err());
    let big = vec![vec![i64::MAX, 1], vec![1, 2]];
    assert_eq!(fit(&big, &y, 0).err(), Some(EngineError::Overflow));
    assert_eq!(fit(&big, &y, 0).err(), fit(&big, &y, 0).err());
}
