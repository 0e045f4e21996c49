use vstd::prelude::*;
use crate::matrix::{dot, dot_checked, rows_of, EngineError};

verus! {

/// A candidate row with its position in the input and its score.
pub struct ScoredRow {
    pub index: usize,
    pub score: i64,
    pub row: Vec<i64>,
}

/// Row `a` goes before row `b`: a higher score, or an equal score and a lower index.
pub open spec fn ranks_before(a: ScoredRow, b: ScoredRow) -> bool {
    a.score > b.score || (a.score == b.score && a.index < b.index)
}

/// `out` is `rows` scored with `coef` and sorted by descending score, equal
/// scores in input order.
pub open spec fn is_ranking(out: Seq<ScoredRow>, rows: Seq<Seq<i64>>, coef: Seq<i64>) -> bool {
    &&& out.len() == rows.len()
    &&& forall|k: int|
        0 <= k < out.len() ==> {
            &&& (#[trigger] out[k]).index < rows.len()
            &&& out[k].row@ == rows[out[k].index as int]
            &&& out[k].score == dot(rows[out[k].index as int], coef)
        }
    &&& forall|a: int, b: int| 0 <= a < b < out.len() ==> ranks_before(#[trigger] out[a], #[trigger] out[b])
}

/// Every row has one entry per coefficient.
pub open spec fn rows_match(rows: Seq<Seq<i64>>, coef: Seq<i64>) -> bool {
    forall|i: int| 0 <= i < rows.len() ==> #[trigger] rows[i].len() == coef.len()
}

/// Every score fits in 64 bits.
pub open spec fn scores_fit(rows: Seq<Seq<i64>>, coef: Seq<i64>) -> bool {
    forall|i: int| 0 <= i < rows.len() ==> crate::matrix::dot_fits(#[trigger] rows[i], coef)
}

/// Adjacent entries of a ranking have non-increasing scores.
pub proof fn lemma_ranking_descending(out: Seq<ScoredRow>, rows: Seq<Seq<i64>>, coef: Seq<i64>)
    requires
        is_ranking(out, rows, coef),
    ensures
        forall|i: int| 0 <= i < out.len() - 1 ==> #[trigger] out[i].score >= out[i + 1].score,
{
    assert forall|i: int| 0 <= i < out.len() - 1 implies #[trigger] out[i].score >= out[i + 1].score by {
        assert(ranks_before(out[i], out[i + 1]));
    }
}

/// The number of leading positions, out of the first `k`, where the ranked row
/// equals the expected row.
pub open spec fn match_count(out: Seq<ScoredRow>, truth: Seq<Seq<i64>>, k: int) -> nat
    decreases k,
{
    if k <= 0 {
        0
    } else {
        match_count(out, truth, k - 1) + if out[k - 1].row@ == truth[k - 1] {
            1nat
        } else {
            0nat
        }
    }
}

/// The positions that a ranking and an expected order have in common.
pub open spec fn common_len(out: Seq<ScoredRow>, truth: Seq<Seq<i64>>) -> int {
    if out.len() < truth.len() {
        out.len() as int
    } else {
        truth.len() as int
    }
}

/// A match count reaches `k` only when all of the first `k` positions match.
pub proof fn lemma_full_match(out: Seq<ScoredRow>, truth: Seq<Seq<i64>>, k: int)
    requires
        0 <= k,
    ensures
        match_count(out, truth, k) <= k,
        match_count(out, truth, k) == k ==> forall|p: int| 0 <= p < k ==> #[trigger] out[p].row@ == truth[p],
    decreases k,
{
    if k > 0 {
        lemma_full_match(out, truth, k - 1);
    }
}

pub(crate) fn rows_equal(a: &Vec<i64>, b: &Vec<i64>) -> (r: bool)
    ensures
        r == (a@ == b@),
{
    if a.len() != b.len() {
        return false;
    }
    let mut i: usize = 0;
    while i < a.len()
        invariant
            a@.len() == b@.len(),
            0 <= i <= a@.len(),
            forall|j: int| 0 <= j < i ==> a@[j] == b@[j],
        decreases a@.len() - i,
    {
        if a[i] != b[i] {
            return false;
        }
        i += 1;
    }
    assert(a@ =~= b@);
    true
}

/// Counts the positions where the ranked row equals the expected row, over the
/// positions that both sequences have.
pub fn count_matches(ranking: &Vec<ScoredRow>, truth: &Vec<Vec<i64>>) -> (r: usize)
    ensures
        r == match_count(ranking@, rows_of(truth), common_len(ranking@, rows_of(truth))),
{
    let n = if ranking.len() < truth.len() {
        ranking.len()
    } else {
        truth.len()
    };
    let mut count: usize = 0;
    let mut k: usize = 0;
    while k < n
        invariant
            n as int == common_len(ranking@, rows_of(truth)),
            n <= ranking@.len(),
            n <= truth@.len(),
            0 <= k <= n,
            count == match_count(ranking@, rows_of(truth), k as int),
            count <= k,
        decreases n - k,
    {
        proof {
            lemma_full_match(ranking@, rows_of(truth), k as int);
        }
        if rows_equal(&ranking[k].row, &truth[k]) {
            count += 1;
        }
        k += 1;
    }
    count
}

pub(crate) fn copy_row(v: &Vec<i64>) -> (r: Vec<i64>)
    ensures
        r@ == v@,
{
    let mut r: Vec<i64> = Vec::new();
    let mut i: usize = 0;
    while i < v.len()
        invariant
            0 <= i <= v@.len(),
            r@ == v@.subrange(0, i as int),
        decreases v@.len() - i,
    {
        r.push(v[i]);
        i += 1;
        assert(r@ =~= v@.subrange(0, i as int));
    }
    r
}

/// Scores each row of `rows` with `coef` (the dot product) and returns the rows
/// sorted by descending score; rows with equal scores keep their input order.
///
/// Fails with `DimensionMismatch` when a row's length differs from the number of
/// coefficients, and with `Overflow` when a score does not fit in 64 bits.
pub fn rank(rows: &Vec<Vec<i64>>, coef: &Vec<i64>) -> (r: Result<Vec<ScoredRow>, EngineError>)
    ensures
        r is Err && r->Err_0 == EngineError::DimensionMismatch <==> !rows_match(rows_of(rows), coef@),
        r is Err && r->Err_0 == EngineError::Overflow <==> rows_match(rows_of(rows), coef@)
            && !scores_fit(rows_of(rows), coef@),
        r is Err ==> r->Err_0 == EngineError::DimensionMismatch || r->Err_0 == EngineError::Overflow,
        r is Ok ==> is_ranking(r->Ok_0@, rows_of(rows), coef@),
{
    let ghost rr = rows_of(rows);
    let n = rows.len();
    let mut k: usize = 0;
    while k < n
        invariant
            n == rows@.len(),
            rr == rows_of(rows),
            0 <= k <= n,
            forall|i: int| 0 <= i < k ==> #[trigger] rr[i].len() == coef@.len(),
        decreases n - k,
    {
        if rows[k].len() != coef.len() {
            assert(rr[k as int].len() != coef@.len());
            return Err(EngineError::DimensionMismatch);
        }
        k += 1;
    }
    let mut scores: Vec<i64> = Vec::new();
    k = 0;
    while k < n
        invariant
            n == rows@.len(),
            rr == rows_of(rows),
            rows_match(rr, coef@),
            0 <= k <= n,
            scores@.len() == k,
            forall|i: int| 0 <= i < k ==> #[trigger] scores@[i] == dot(rr[i], coef@),
            forall|i: int| 0 <= i < k ==> crate::matrix::dot_fits(#[trigger] rr[i], coef@),
        decreases n - k,
    {
        assert(rows@[k as int]@ == rr[k as int]);
        match dot_checked(&rows[k], coef) {
            Some(s) => scores.push(s),
            None => {
                return Err(EngineError::Overflow);
            },
        }
        k += 1;
    }
    // Insertion of each index in turn into an order that is strict in (score desc, index asc).
    let mut order: Vec<usize> = Vec::new();
    k = 0;
    while k < n
        invariant
            n == rows@.len(),
            scores@.len() == n,
            0 <= k <= n,
            order@.len() == k,
            forall|p: int| 0 <= p < k ==> #[trigger] order@[p] < k,
            forall|a: int, b: int|
                0 <= a < b < k ==> {
                    let (x, y) = (#[trigger] order@[a], #[trigger] order@[b]);
                    scores@[x as int] > scores@[y as int] || (scores@[x as int] == scores@[y as int]
                        && x < y)
                },
        decreases n - k,
    {
        let mut p: usize = 0;
        while p < order.len() && (scores[order[p]] > scores[k] || scores[order[p]] == scores[k])
            invariant
                n == rows@.len(),
                scores@.len() == n,
                0 <= k < n,
                order@.len() == k,
                0 <= p <= k,
                forall|q: int| 0 <= q < k ==> #[trigger] order@[q] < k,
                forall|q: int| 0 <= q < p ==> scores@[#[trigger] order@[q] as int] >= scores@[k as int],
            decreases k - p,
        {
            p += 1;
        }
        let ghost old_order = order@;
        order.insert(p, k);
        proof {
            assert forall|a: int, b: int| 0 <= a < b < k + 1 implies {
                let (x, y) = (#[trigger] order@[a], #[trigger] order@[b]);
                scores@[x as int] > scores@[y as int] || (scores@[x as int] == scores@[y as int]
                    && x < y)
            } by {
                if b < p {
                    assert(order@[a] == old_order[a] && order@[b] == old_order[b]);
                } else if b == p {
                    assert(order@[a] == old_order[a]);
                    assert(scores@[old_order[a] as int] >= scores@[k as int]);
                } else if a == p {
                    assert(order@[b] == old_order[b - 1]);
                    assert(p < k);
                    assert(!(scores@[old_order[p as int] as int] >= scores@[k as int]));
                    if b - 1 > p {
                        assert(order@[p + 1] == old_order[p as int]);
                    }
                } else if a < p {
                    assert(order@[a] == old_order[a] && order@[b] == old_order[b - 1]);
                } else {
                    assert(order@[a] == old_order[a - 1] && order@[b] == old_order[b - 1]);
                }
            }
            assert forall|q: int| 0 <= q < k + 1 implies #[trigger] order@[q] < k + 1 by {
                if q < p {
                    assert(order@[q] == old_order[q]);
                } else if q > p {
                    assert(order@[q] == old_order[q - 1]);
                }
            }
        }
        k += 1;
    }
    let mut out: Vec<ScoredRow> = Vec::new();
    k = 0;
    while k < n
        invariant
            n == rows@.len(),
            rr == rows_of(rows),
            scores@.len() == n,
            forall|i: int| 0 <= i < n ==> #[trigger] scores@[i] == dot(rr[i], coef@),
            order@.len() == n,
            forall|p: int| 0 <= p < n ==> #[trigger] order@[p] < n,
            forall|a: int, b: int|
                0 <= a < b < n ==> {
                    let (x, y) = (#[trigger] order@[a], #[trigger] order@[b]);
                    scores@[x as int] > scores@[y as int] || (scores@[x as int] == scores@[y as int]
                        && x < y)
                },
            0 <= k <= n,
            out@.len() == k,
            forall|p: int|
                0 <= p < k ==> (#[trigger] out@[p]).index == order@[p] && out@[p].score
                    == scores@[order@[p] as int] && out@[p].row@ == rr[order@[p] as int],
        decreases n - k,
    {
        let idx = order[k];
        let row = copy_row(&rows[idx]);
        out.push(ScoredRow { index: idx, score: scores[idx], row });
        k += 1;
    }
    proof {
        assert forall|a: int, b: int| 0 <= a < b < out@.len() implies ranks_before(
            #[trigger] out@[a],
            #[trigger] out@[b],
        ) by {
            let (x, y) = (order@[a], order@[b]);
        }
    }
    Ok(out)
}

} // verus!
