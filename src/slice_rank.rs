use vstd::prelude::*;
use crate::matrix::{dot, rows_of, EngineError};
use crate::ranker::{copy_row, rank, rows_equal, rows_match, scores_fit};

verus! {

/// The slices of a rank-3 array, each as rows of sequences.
pub open spec fn slices_view(t: &Vec<Vec<Vec<i64>>>) -> Seq<Seq<Seq<i64>>> {
    t@.map_values(|m: Vec<Vec<i64>>| rows_of(&m))
}

/// The first row of every slice.
pub open spec fn first_rows(d: Seq<Seq<Seq<i64>>>) -> Seq<Seq<i64>> {
    Seq::new(d.len(), |s: int| d[s][0])
}

/// Every slice has at least one row.
pub open spec fn slices_nonempty(d: Seq<Seq<Seq<i64>>>) -> bool {
    forall|s: int| 0 <= s < d.len() ==> (#[trigger] d[s]).len() > 0
}

/// A slice with its position in the input and its score.
pub struct ScoredSlice {
    pub index: usize,
    pub score: i64,
    pub slice: Vec<Vec<i64>>,
}

/// `out` is every slice of `d` scored by its first row with `coef`, sorted by
/// descending score, equal scores in input order.
pub open spec fn is_slice_ranking(out: Seq<ScoredSlice>, d: Seq<Seq<Seq<i64>>>, coef: Seq<i64>) -> bool {
    &&& out.len() == d.len()
    &&& forall|k: int|
        0 <= k < out.len() ==> {
            &&& (#[trigger] out[k]).index < d.len()
            &&& rows_of(&out[k].slice) == d[out[k].index as int]
            &&& out[k].score == dot(d[out[k].index as int][0], coef)
        }
    &&& forall|a: int, b: int|
        0 <= a < b < out.len() ==> (#[trigger] out[a]).score > (#[trigger] out[b]).score || (out[a].score
            == out[b].score && out[a].index < out[b].index)
}

fn copy_matrix(m: &Vec<Vec<i64>>) -> (r: Vec<Vec<i64>>)
    ensures
        rows_of(&r) == rows_of(m),
{
    let mut r: Vec<Vec<i64>> = Vec::new();
    let mut i: usize = 0;
    while i < m.len()
        invariant
            0 <= i <= m@.len(),
            r@.len() == i,
            forall|k: int| 0 <= k < i ==> (#[trigger] r@[k])@ == m@[k]@,
        decreases m@.len() - i,
    {
        r.push(copy_row(&m[i]));
        i += 1;
    }
    assert(rows_of(&r) =~= rows_of(m));
    r
}

/// Scores each slice by the dot product of its first row with `coef` and
/// returns the slices sorted by descending score; equal scores keep their
/// input order.
///
/// Fails with `InvalidShape` when a slice has no row, with `DimensionMismatch`
/// when a first row's length differs from the number of coefficients, and with
/// `Overflow` when a score does not fit in 64 bits.
pub fn rank_slices(data: &Vec<Vec<Vec<i64>>>, coef: &Vec<i64>) -> (r: Result<Vec<ScoredSlice>, EngineError>)
    ensures
        r is Err && r->Err_0 == EngineError::InvalidShape <==> !slices_nonempty(slices_view(data)),
        r is Err && r->Err_0 == EngineError::DimensionMismatch <==> slices_nonempty(slices_view(data))
            && !rows_match(first_rows(slices_view(data)), coef@),
        r is Err && r->Err_0 == EngineError::Overflow <==> slices_nonempty(slices_view(data))
            && rows_match(first_rows(slices_view(data)), coef@) && !scores_fit(
            first_rows(slices_view(data)),
            coef@,
        ),
        r is Err ==> r->Err_0 == EngineError::InvalidShape || r->Err_0
            == EngineError::DimensionMismatch || r->Err_0 == EngineError::Overflow,
        r is Ok ==> is_slice_ranking(r->Ok_0@, slices_view(data), coef@),
{
    let ghost d = slices_view(data);
    let mut firsts: Vec<Vec<i64>> = Vec::new();
    let mut s: usize = 0;
    while s < data.len()
        invariant
            d == slices_view(data),
            0 <= s <= data@.len(),
            firsts@.len() == s,
            forall|k: int| 0 <= k < s ==> (#[trigger] d[k]).len() > 0,
            forall|k: int| 0 <= k < s ==> (#[trigger] firsts@[k])@ == d[k][0],
        decreases data@.len() - s,
    {
        assert(d[s as int] == rows_of(&data@[s as int]));
        if data[s].len() == 0 {
            return Err(EngineError::InvalidShape);
        }
        firsts.push(copy_row(&data[s][0]));
        s += 1;
    }
    assert(rows_of(&firsts) =~= first_rows(d));
    let ranked = match rank(&firsts, coef) {
        Ok(v) => v,
        Err(e) => {
            return Err(e);
        },
    };
    let mut out: Vec<ScoredSlice> = Vec::new();
    let mut k: usize = 0;
    while k < ranked.len()
        invariant
            d == slices_view(data),
            crate::ranker::is_ranking(ranked@, first_rows(d), coef@),
            0 <= k <= ranked@.len(),
            out@.len() == k,
            forall|q: int|
                0 <= q < k ==> (#[trigger] out@[q]).index == ranked@[q].index && out@[q].score
                    == ranked@[q].score && rows_of(&out@[q].slice) == d[ranked@[q].index as int],
        decreases ranked@.len() - k,
    {
        let idx = ranked[k].index;
        assert(ranked@[k as int].index < d.len());
        assert(d[idx as int] == rows_of(&data@[idx as int]));
        let slice = copy_matrix(&data[idx]);
        out.push(ScoredSlice { index: idx, score: ranked[k].score, slice });
        k += 1;
    }
    proof {
        assert forall|a: int, b: int| 0 <= a < b < out@.len() implies (#[trigger] out@[a]).score > (
        #[trigger] out@[b]).score || (out@[a].score == out@[b].score && out@[a].index < out@[b].index) by {
            assert(crate::ranker::ranks_before(ranked@[a], ranked@[b]));
        }
    }
    Ok(out)
}

/// The number of leading positions, out of the first `k`, where the ranked
/// slice equals the expected one.
pub open spec fn slice_match_count(out: Seq<ScoredSlice>, truth: Seq<Seq<Seq<i64>>>, k: int) -> nat
    decreases k,
{
    if k <= 0 {
        0
    } else {
        slice_match_count(out, truth, k - 1) + if rows_of(&out[k - 1].slice) == truth[k - 1] {
            1nat
        } else {
            0nat
        }
    }
}

/// The positions that a slice ranking and an expected order have in common.
pub open spec fn slice_common_len(out: Seq<ScoredSlice>, truth: Seq<Seq<Seq<i64>>>) -> int {
    if out.len() < truth.len() {
        out.len() as int
    } else {
        truth.len() as int
    }
}

/// A match count reaches `k` only when all of the first `k` positions match.
pub proof fn lemma_full_slice_match(out: Seq<ScoredSlice>, truth: Seq<Seq<Seq<i64>>>, k: int)
    requires
        0 <= k,
    ensures
        slice_match_count(out, truth, k) <= k,
        slice_match_count(out, truth, k) == k ==> forall|p: int|
            0 <= p < k ==> rows_of(&(#[trigger] out[p]).slice) == truth[p],
    decreases k,
{
    if k > 0 {
        lemma_full_slice_match(out, truth, k - 1);
    }
}

fn matrices_equal(a: &Vec<Vec<i64>>, b: &Vec<Vec<i64>>) -> (r: bool)
    ensures
        r == (rows_of(a) == rows_of(b)),
{
    if a.len() != b.len() {
        assert(rows_of(a).len() != rows_of(b).len());
        return false;
    }
    let mut i: usize = 0;
    while i < a.len()
        invariant
            a@.len() == b@.len(),
            0 <= i <= a@.len(),
            forall|j: int| 0 <= j < i ==> (#[trigger] a@[j])@ == b@[j]@,
        decreases a@.len() - i,
    {
        if !rows_equal(&a[i], &b[i]) {
            assert(rows_of(a)[i as int] != rows_of(b)[i as int]);
            return false;
        }
        i += 1;
    }
    assert(rows_of(a) =~= rows_of(b));
    true
}

/// Counts the positions where the ranked slice equals the expected slice, over
/// the positions that both sequences have.
pub fn count_slice_matches(ranking: &Vec<ScoredSlice>, truth: &Vec<Vec<Vec<i64>>>) -> (r: usize)
    ensures
        r == slice_match_count(ranking@, slices_view(truth), slice_common_len(ranking@, slices_view(truth))),
{
    let ghost t = slices_view(truth);
    let n = if ranking.len() < truth.len() {
        ranking.len()
    } else {
        truth.len()
    };
    let mut count: usize = 0;
    let mut k: usize = 0;
    while k < n
        invariant
            t == slices_view(truth),
            n as int == slice_common_len(ranking@, t),
            n <= ranking@.len(),
            n <= truth@.len(),
            0 <= k <= n,
            count == slice_match_count(ranking@, t, k as int),
            count <= k,
        decreases n - k,
    {
        proof {
            lemma_full_slice_match(ranking@, t, k as int);
        }
        assert(t[k as int] == rows_of(&truth@[k as int]));
        if matrices_equal(&ranking[k].slice, &truth[k]) {
            count += 1;
        }
        k += 1;
    }
    count
}

} // verus!
