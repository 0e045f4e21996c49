//! Ranking calibration over integer feature data: exact matrix primitives, a
//! column standardiser, a closed-form ridge solver, a ranker and a sampling
//! loop that searches for a target whose fitted model reproduces a known
//! order; per-slice forms of the primitives for lists of matrices; and the
//! text helpers that turn scraped pages into words and counts.
pub mod calibrate;
pub mod extract;
pub mod matrix;
pub mod measures;
pub mod ranker;
pub mod ridge;
pub mod slice_calibrate;
pub mod slice_rank;
pub mod slices;
pub mod standardize;
pub mod tags;
pub mod text;
pub mod tokens;
pub mod words;
