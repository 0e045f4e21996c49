use vstd::prelude::*;
use crate::text::chars_of;

verus! {

/// The characters of each string.
pub open spec fn str_views<'a>(v: Seq<&'a str>) -> Seq<Seq<char>> {
    v.map_values(|s: &'a str| s@)
}

/// The characters of each string.
pub open spec fn string_views(v: Seq<String>) -> Seq<Seq<char>> {
    v.map_values(|s: String| s@)
}

/// `s` with every entry after its first occurrence dropped.
pub open spec fn dedup(s: Seq<Seq<char>>) -> Seq<Seq<char>>
    decreases s.len(),
{
    if s.len() == 0 {
        Seq::empty()
    } else {
        let d = dedup(s.drop_last());
        if d.contains(s.last()) {
            d
        } else {
            d.push(s.last())
        }
    }
}

/// The number of entries of `s` equal to `w`.
pub open spec fn occurrences(s: Seq<Seq<char>>, w: Seq<char>) -> nat
    decreases s.len(),
{
    if s.len() == 0 {
        0
    } else {
        occurrences(s.drop_last(), w) + if s.last() == w {
            1nat
        } else {
            0nat
        }
    }
}

proof fn lemma_contains_split(s: Seq<Seq<char>>, w: Seq<char>)
    requires
        s.len() > 0,
    ensures
        s.contains(w) <==> s.drop_last().contains(w) || s.last() == w,
{
    if s.contains(w) && s.last() != w {
        let i = choose|i: int| 0 <= i < s.len() && s[i] == w;
        assert(s.drop_last()[i] == w);
    }
    if s.drop_last().contains(w) {
        let i = choose|i: int| 0 <= i < s.drop_last().len() && s.drop_last()[i] == w;
        assert(s[i] == w);
    }
    if s.last() == w {
        assert(s[s.len() - 1] == w);
    }
}

proof fn lemma_dedup_contains(s: Seq<Seq<char>>, w: Seq<char>)
    ensures
        dedup(s).contains(w) <==> s.contains(w),
    decreases s.len(),
{
    if s.len() > 0 {
        lemma_dedup_contains(s.drop_last(), w);
        lemma_contains_split(s, w);
        let d = dedup(s.drop_last());
        if !d.contains(s.last()) {
            lemma_contains_split(d.push(s.last()), w);
            assert(d.push(s.last()).drop_last() =~= d);
        }
    }
}

proof fn lemma_dedup_distinct(s: Seq<Seq<char>>)
    ensures
        forall|a: int, b: int| 0 <= a < b < dedup(s).len() ==> dedup(s)[a] != dedup(s)[b],
    decreases s.len(),
{
    if s.len() > 0 {
        lemma_dedup_distinct(s.drop_last());
        let d = dedup(s.drop_last());
        if !d.contains(s.last()) {
            assert forall|a: int, b: int| 0 <= a < b < dedup(s).len() implies dedup(s)[a] != dedup(s)[b] by {
                if b == d.len() {
                    assert(dedup(s)[a] == d[a]);
                }
            }
        }
    }
}

proof fn lemma_occurrences_positive(s: Seq<Seq<char>>, w: Seq<char>)
    ensures
        s.contains(w) <==> occurrences(s, w) > 0,
    decreases s.len(),
{
    if s.len() > 0 {
        lemma_occurrences_positive(s.drop_last(), w);
        if s.drop_last().contains(w) {
            let i = choose|i: int| 0 <= i < s.drop_last().len() && s.drop_last()[i] == w;
            assert(s[i] == w);
        }
        if s.contains(w) && s.last() != w {
            let i = choose|i: int| 0 <= i < s.len() && s[i] == w;
            assert(s.drop_last()[i] == w);
        }
        if s.last() == w {
            assert(s[s.len() - 1] == w);
        }
    }
}

fn same_chars(a: &Vec<char>, b: &Vec<char>) -> (r: bool)
    ensures
        r == (a@ == b@),
{
    if a.len() != b.len() {
        return false;
    }
    let mut i: usize = 0;
    while i < a.len()
        invariant
            a@.len() == b@.len(),
            0 <= i <= a@.len(),
            forall|j: int| 0 <= j < i ==> a@[j] == b@[j],
        decreases a@.len() - i,
    {
        if a[i] != b[i] {
            return false;
        }
        i += 1;
    }
    assert(a@ =~= b@);
    true
}

/// The characters of each string, one vector per string.
fn char_rows_of_strs(v: &Vec<&str>) -> (r: Vec<Vec<char>>)
    ensures
        r@.len() == v@.len(),
        forall|i: int| 0 <= i < v@.len() ==> #[trigger] r@[i]@ == v@[i]@,
{
    let mut r: Vec<Vec<char>> = Vec::new();
    let mut i: usize = 0;
    while i < v.len()
        invariant
            0 <= i <= v@.len(),
            r@.len() == i,
            forall|j: int| 0 <= j < i ==> #[trigger] r@[j]@ == v@[j]@,
        decreases v@.len() - i,
    {
        r.push(chars_of(v[i]));
        i += 1;
    }
    r
}

/// The characters of each string, one vector per string.
fn char_rows_of_strings(v: &Vec<String>) -> (r: Vec<Vec<char>>)
    ensures
        r@.len() == v@.len(),
        forall|i: int| 0 <= i < v@.len() ==> #[trigger] r@[i]@ == v@[i]@,
{
    let mut r: Vec<Vec<char>> = Vec::new();
    let mut i: usize = 0;
    while i < v.len()
        invariant
            0 <= i <= v@.len(),
            r@.len() == i,
            forall|j: int| 0 <= j < i ==> #[trigger] r@[j]@ == v@[j]@,
        decreases v@.len() - i,
    {
        r.push(chars_of(v[i].as_str()));
        i += 1;
    }
    r
}

/// The views of a vector of character vectors.
pub open spec fn char_rows(v: Seq<Vec<char>>) -> Seq<Seq<char>> {
    v.map_values(|r: Vec<char>| r@)
}

/// The position of `w` in `keys`, if any.
fn find_key(keys: &Vec<Vec<char>>, w: &Vec<char>) -> (r: Option<usize>)
    ensures
        r is Some ==> r->0 < keys@.len() && keys@[r->0 as int]@ == w@,
        r is None ==> !char_rows(keys@).contains(w@),
{
    let mut k: usize = 0;
    while k < keys.len()
        invariant
            0 <= k <= keys@.len(),
            forall|q: int| 0 <= q < k ==> (#[trigger] keys@[q])@ != w@,
        decreases keys@.len() - k,
    {
        if same_chars(&keys[k], w) {
            return Some(k);
        }
        k += 1;
    }
    proof {
        if char_rows(keys@).contains(w@) {
            let q = choose|q: int| 0 <= q < char_rows(keys@).len() && char_rows(keys@)[q] == w@;
            assert(keys@[q]@ == w@);
        }
    }
    None
}

/// The distinct entries of `ws` in order of first occurrence, the position of
/// that first occurrence, and how often each occurs.
struct Tally {
    keys: Vec<Vec<char>>,
    firsts: Vec<usize>,
    counts: Vec<usize>,
}

/// `t` tallies the first `j` entries of `all`.
spec fn is_tally(t: Tally, all: Seq<Seq<char>>, j: int) -> bool {
    &&& char_rows(t.keys@) == dedup(all.subrange(0, j))
    &&& t.firsts@.len() == t.keys@.len()
    &&& t.counts@.len() == t.keys@.len()
    &&& forall|k: int|
        0 <= k < t.keys@.len() ==> #[trigger] t.firsts@[k] < j && all[t.firsts@[k] as int]
            == t.keys@[k]@
    &&& forall|k: int|
        0 <= k < t.keys@.len() ==> #[trigger] t.counts@[k] as int == occurrences(
            all.subrange(0, j),
            t.keys@[k]@,
        )
}

proof fn lemma_occurrences_bound(s: Seq<Seq<char>>, w: Seq<char>)
    ensures
        occurrences(s, w) <= s.len(),
    decreases s.len(),
{
    if s.len() > 0 {
        lemma_occurrences_bound(s.drop_last(), w);
    }
}

fn tally(ws: &Vec<Vec<char>>) -> (t: Tally)
    ensures
        is_tally(t, char_rows(ws@), ws@.len() as int),
{
    let ghost all = char_rows(ws@);
    let mut t = Tally { keys: Vec::new(), firsts: Vec::new(), counts: Vec::new() };
    assert(char_rows(t.keys@) =~= dedup(all.subrange(0, 0)));
    let mut j: usize = 0;
    while j < ws.len()
        invariant
            all == char_rows(ws@),
            0 <= j <= ws@.len(),
            is_tally(t, all, j as int),
        decreases ws@.len() - j,
    {
        let ghost prev = all.subrange(0, j as int);
        let ghost next = all.subrange(0, j as int + 1);
        let ghost w = all[j as int];
        assert(next.drop_last() =~= prev);
        assert(next.last() == w);
        assert(ws@[j as int]@ == w);
        match find_key(&t.keys, &ws[j]) {
            Some(k) => {
                proof {
                    lemma_occurrences_bound(prev, w);
                    lemma_dedup_contains(prev, w);
                    assert(char_rows(t.keys@)[k as int] == w);
                }
                let ghost old_counts = t.counts@;
                let c = t.counts[k];
                t.counts.set(k, c + 1);
                proof {
                    assert(char_rows(t.keys@) =~= dedup(next));
                    lemma_dedup_distinct(prev);
                    assert forall|q: int| 0 <= q < t.keys@.len() implies #[trigger] t.counts@[q] as int
                        == occurrences(next, t.keys@[q]@) by {
                        if q != k {
                            assert(char_rows(t.keys@)[q] != char_rows(t.keys@)[k as int]);
                            assert(old_counts[q] == t.counts@[q]);
                        }
                    }
                }
            },
            None => {
                proof {
                    lemma_dedup_contains(prev, w);
                    lemma_occurrences_positive(prev, w);
                }
                let ghost old_t = t;
                t.keys.push(chars_copy(&ws[j]));
                t.firsts.push(j);
                t.counts.push(1);
                proof {
                    assert(char_rows(t.keys@) =~= dedup(next));
                    assert forall|q: int| 0 <= q < t.keys@.len() implies #[trigger] t.counts@[q] as int
                        == occurrences(next, t.keys@[q]@) by {
                        if q < old_t.keys@.len() {
                            assert(char_rows(old_t.keys@)[q] == old_t.keys@[q]@);
                            assert(old_t.counts@[q] == t.counts@[q]);
                            assert(old_t.keys@[q] == t.keys@[q]);
                        }
                    }
                    assert forall|q: int| 0 <= q < t.keys@.len() implies #[trigger] t.firsts@[q] < j + 1
                        && all[t.firsts@[q] as int] == t.keys@[q]@ by {
                        if q < old_t.keys@.len() {
                            assert(old_t.firsts@[q] == t.firsts@[q]);
                            assert(old_t.keys@[q] == t.keys@[q]);
                        }
                    }
                }
            },
        }
        j += 1;
    }
    assert(all.subrange(0, j as int) =~= all);
    t
}

fn chars_copy(v: &Vec<char>) -> (r: Vec<char>)
    ensures
        r@ == v@,
{
    let mut r: Vec<char> = Vec::new();
    let mut i: usize = 0;
    while i < v.len()
        invariant
            0 <= i <= v@.len(),
            r@ == v@.subrange(0, i as int),
        decreases v@.len() - i,
    {
        r.push(v[i]);
        i += 1;
        assert(r@ =~= v@.subrange(0, i as int));
    }
    assert(r@ =~= v@);
    r
}

/// The value `i` is an entry of `o`.
pub open spec fn appears(o: Seq<usize>, i: int) -> bool {
    exists|p: int| 0 <= p < o.len() && o[p] == i
}

/// The positions `0..keys.len()` ordered by descending key, equal keys by
/// ascending position.
fn order_by_key(keys: &Vec<usize>) -> (o: Vec<usize>)
    ensures
        o@.len() == keys@.len(),
        forall|p: int| 0 <= p < o@.len() ==> #[trigger] o@[p] < keys@.len(),
        forall|i: int| 0 <= i < keys@.len() ==> #[trigger] appears(o@, i),
        forall|a: int, b: int|
            0 <= a < b < o@.len() ==> {
                let (x, y) = (#[trigger] o@[a], #[trigger] o@[b]);
                keys@[x as int] > keys@[y as int] || (keys@[x as int] == keys@[y as int] && x < y)
            },
{
    let n = keys.len();
    let mut o: Vec<usize> = Vec::new();
    let mut k: usize = 0;
    while k < n
        invariant
            n == keys@.len(),
            0 <= k <= n,
            o@.len() == k,
            forall|p: int| 0 <= p < k ==> #[trigger] o@[p] < k,
            forall|i: int| 0 <= i < k ==> #[trigger] appears(o@, i),
            forall|a: int, b: int|
                0 <= a < b < k ==> {
                    let (x, y) = (#[trigger] o@[a], #[trigger] o@[b]);
                    keys@[x as int] > keys@[y as int] || (keys@[x as int] == keys@[y as int] && x < y)
                },
        decreases n - k,
    {
        let mut p: usize = 0;
        while p < o.len() && keys[o[p]] >= keys[k]
            invariant
                n == keys@.len(),
                0 <= k < n,
                o@.len() == k,
                0 <= p <= k,
                forall|q: int| 0 <= q < k ==> #[trigger] o@[q] < k,
                forall|q: int| 0 <= q < p ==> keys@[#[trigger] o@[q] as int] >= keys@[k as int],
            decreases k - p,
        {
            p += 1;
        }
        let ghost old_o = o@;
        o.insert(p, k);
        proof {
            assert forall|a: int, b: int| 0 <= a < b < k + 1 implies {
                let (x, y) = (#[trigger] o@[a], #[trigger] o@[b]);
                keys@[x as int] > keys@[y as int] || (keys@[x as int] == keys@[y as int] && x < y)
            } by {
                if b < p {
                    assert(o@[a] == old_o[a] && o@[b] == old_o[b]);
                } else if b == p {
                    assert(o@[a] == old_o[a]);
                    assert(keys@[old_o[a] as int] >= keys@[k as int]);
                } else if a == p {
                    assert(o@[b] == old_o[b - 1]);
                    assert(!(keys@[old_o[p as int] as int] >= keys@[k as int]));
                    if b - 1 > p {
                        assert(o@[p + 1] == old_o[p as int]);
                    }
                } else if a < p {
                    assert(o@[a] == old_o[a] && o@[b] == old_o[b - 1]);
                } else {
                    assert(o@[a] == old_o[a - 1] && o@[b] == old_o[b - 1]);
                }
            }
            assert forall|q: int| 0 <= q < k + 1 implies #[trigger] o@[q] < k + 1 by {
                if q < p {
                    assert(o@[q] == old_o[q]);
                } else if q > p {
                    assert(o@[q] == old_o[q - 1]);
                }
            }
            assert forall|i: int| 0 <= i < k + 1 implies #[trigger] appears(o@, i) by {
                if i == k {
                    assert(o@[p as int] == k);
                } else {
                    assert(appears(old_o, i));
                    let q = choose|q: int| 0 <= q < old_o.len() && old_o[q] == i;
                    if q < p {
                        assert(o@[q] == i);
                    } else {
                        assert(o@[q + 1] == i);
                    }
                }
            }
        }
        k += 1;
    }
    o
}

/// Each distinct string of `input`, once, in order of first occurrence.
pub fn unique_strings<'a>(input: Vec<&'a str>) -> (r: Vec<&'a str>)
    ensures
        str_views(r@) == dedup(str_views(input@)),
{
    let ws = char_rows_of_strs(&input);
    proof {
        assert(char_rows(ws@) =~= str_views(input@));
    }
    let t = tally(&ws);
    proof {
        assert(str_views(input@).subrange(0, input@.len() as int) =~= str_views(input@));
    }
    let mut r: Vec<&'a str> = Vec::new();
    let mut k: usize = 0;
    while k < t.keys.len()
        invariant
            is_tally(t, str_views(input@), input@.len() as int),
            0 <= k <= t.keys@.len(),
            r@.len() == k,
            forall|q: int| 0 <= q < k ==> (#[trigger] r@[q])@ == t.keys@[q]@,
        decreases t.keys@.len() - k,
    {
        let i = t.firsts[k];
        r.push(input[i]);
        k += 1;
    }
    proof {
        assert(str_views(r@) =~= char_rows(t.keys@));
    }
    r
}

/// Each distinct string of `strings` with the number of times it occurs,
/// ordered by descending count.
pub fn word_distribution(strings: Vec<String>) -> (r: Vec<(String, usize)>)
    ensures
        r@.len() == dedup(string_views(strings@)).len(),
        forall|k: int|
            0 <= k < r@.len() ==> string_views(strings@).contains((#[trigger] r@[k]).0@) && r@[k].1
                == occurrences(string_views(strings@), r@[k].0@),
        forall|j: int|
            0 <= j < strings@.len() ==> exists|k: int| 0 <= k < r@.len() && (#[trigger] r@[k]).0@ == (#[trigger] strings@[j])@,
        forall|a: int, b: int|
            0 <= a < b < r@.len() ==> (#[trigger] r@[a]).0@ != (#[trigger] r@[b]).0@ && r@[a].1 >= r@[b].1,
{
    let ghost all = string_views(strings@);
    let ws = char_rows_of_strings(&strings);
    proof {
        assert(char_rows(ws@) =~= all);
        assert(all.subrange(0, strings@.len() as int) =~= all);
        lemma_dedup_distinct(all);
    }
    let t = tally(&ws);
    let o = order_by_key(&t.counts);
    let mut r: Vec<(String, usize)> = Vec::new();
    let mut k: usize = 0;
    while k < o.len()
        invariant
            all == string_views(strings@),
            is_tally(t, all, strings@.len() as int),
            char_rows(t.keys@) == dedup(all),
            o@.len() == t.keys@.len(),
            forall|p: int| 0 <= p < o@.len() ==> #[trigger] o@[p] < t.keys@.len(),
            0 <= k <= o@.len(),
            r@.len() == k,
            forall|q: int|
                0 <= q < k ==> (#[trigger] r@[q]).0@ == t.keys@[o@[q] as int]@ && r@[q].1 == t.counts@[o@[q] as int],
        decreases o@.len() - k,
    {
        let p = o[k];
        let i = t.firsts[p];
        let w = strings[i].clone();
        r.push((w, t.counts[p]));
        k += 1;
    }
    proof {
        assert forall|q: int| 0 <= q < r@.len() implies all.contains((#[trigger] r@[q]).0@) && r@[q].1
            == occurrences(all, r@[q].0@) by {
            let p = o@[q] as int;
            assert(all[t.firsts@[p] as int] == t.keys@[p]@);
        }
        assert forall|j: int| 0 <= j < strings@.len() implies exists|q: int| 0 <= q < r@.len() && (#[trigger] r@[q]).0@ == (#[trigger] strings@[j])@ by {
            assert(all[j] == strings@[j]@);
            assert(all.contains(all[j]));
            lemma_dedup_contains(all, all[j]);
            let p = choose|p: int| 0 <= p < dedup(all).len() && dedup(all)[p] == all[j];
            assert(char_rows(t.keys@)[p] == t.keys@[p]@);
            assert(appears(o@, p));
            let q = choose|q: int| 0 <= q < o@.len() && o@[q] == p;
            assert(r@[q].0@ == strings@[j]@);
        }
        assert forall|a: int, b: int| 0 <= a < b < r@.len() implies (#[trigger] r@[a]).0@ != (#[trigger] r@[b]).0@ && r@[a].1 >= r@[b].1 by {
            let (x, y) = (o@[a], o@[b]);
            assert(char_rows(t.keys@)[x as int] == t.keys@[x as int]@);
            assert(char_rows(t.keys@)[y as int] == t.keys@[y as int]@);
        }
    }
    r
}

/// Each distinct string of `input` that occurs at least `min_count` times,
/// with its count, ordered by descending count.
pub fn unique_strings_with_count<'a>(input: Vec<&'a str>, min_count: i32) -> (r: Vec<(&'a str, i32)>)
    requires
        input@.len() <= i32::MAX,
    ensures
        forall|k: int|
            0 <= k < r@.len() ==> str_views(input@).contains((#[trigger] r@[k]).0@) && r@[k].1
                == occurrences(str_views(input@), r@[k].0@) && r@[k].1 >= min_count,
        forall|j: int|
            0 <= j < input@.len() && occurrences(str_views(input@), input@[j]@) >= min_count ==> exists|k: int|
                0 <= k < r@.len() && (#[trigger] r@[k]).0@ == (#[trigger] input@[j])@,
        forall|a: int, b: int|
            0 <= a < b < r@.len() ==> (#[trigger] r@[a]).0@ != (#[trigger] r@[b]).0@ && r@[a].1 >= r@[b].1,
{
    let ghost all = str_views(input@);
    let ws = char_rows_of_strs(&input);
    proof {
        assert(char_rows(ws@) =~= all);
        assert(all.subrange(0, input@.len() as int) =~= all);
        lemma_dedup_distinct(all);
    }
    let t = tally(&ws);
    proof {
        assert forall|q: int| 0 <= q < t.counts@.len() implies #[trigger] t.counts@[q] <= input@.len() by {
            lemma_occurrences_bound(all.subrange(0, input@.len() as int), t.keys@[q]@);
        }
    }
    // The tally positions that reach the minimum, and their counts.
    let mut sel: Vec<usize> = Vec::new();
    let mut sel_counts: Vec<usize> = Vec::new();
    let mut p: usize = 0;
    while p < t.counts.len()
        invariant
            is_tally(t, all, input@.len() as int),
            input@.len() <= i32::MAX,
            forall|q: int| 0 <= q < t.counts@.len() ==> #[trigger] t.counts@[q] <= input@.len(),
            0 <= p <= t.keys@.len(),
            sel@.len() == sel_counts@.len(),
            forall|q: int| 0 <= q < sel@.len() ==> #[trigger] sel@[q] < p,
            forall|q: int| 0 <= q < sel@.len() ==> #[trigger] sel_counts@[q] == t.counts@[sel@[q] as int],
            forall|q: int| 0 <= q < sel@.len() ==> t.counts@[#[trigger] sel@[q] as int] >= min_count,
            forall|a: int, b: int| 0 <= a < b < sel@.len() ==> #[trigger] sel@[a] < #[trigger] sel@[b],
            forall|x: int| 0 <= x < p && t.counts@[x] >= min_count ==> #[trigger] appears(sel@, x),
        decreases t.keys@.len() - p,
    {
        if t.counts[p] as i32 >= min_count {
            let ghost old_sel = sel@;
            sel.push(p);
            sel_counts.push(t.counts[p]);
            proof {
                assert forall|x: int| 0 <= x < p + 1 && t.counts@[x] >= min_count implies #[trigger] appears(sel@, x) by {
                    if x == p {
                        assert(sel@[sel@.len() - 1] == p);
                    } else {
                        assert(appears(old_sel, x));
                        let q = choose|q: int| 0 <= q < old_sel.len() && old_sel[q] == x;
                        assert(sel@[q] == x);
                    }
                }
            }
        }
        p += 1;
    }
    let o = order_by_key(&sel_counts);
    let mut r: Vec<(&'a str, i32)> = Vec::new();
    let mut k: usize = 0;
    while k < o.len()
        invariant
            input@.len() <= i32::MAX,
            all == str_views(input@),
            is_tally(t, all, input@.len() as int),
            forall|q: int| 0 <= q < t.counts@.len() ==> #[trigger] t.counts@[q] <= input@.len(),
            sel@.len() == sel_counts@.len(),
            forall|q: int| 0 <= q < sel@.len() ==> #[trigger] sel@[q] < t.keys@.len(),
            forall|q: int| 0 <= q < sel@.len() ==> #[trigger] sel_counts@[q] == t.counts@[sel@[q] as int],
            o@.len() == sel@.len(),
            forall|q: int| 0 <= q < o@.len() ==> #[trigger] o@[q] < sel@.len(),
            0 <= k <= o@.len(),
            r@.len() == k,
            forall|q: int|
                0 <= q < k ==> (#[trigger] r@[q]).0@ == t.keys@[sel@[o@[q] as int] as int]@ && r@[q].1
                    == t.counts@[sel@[o@[q] as int] as int],
        decreases o@.len() - k,
    {
        let p = sel[o[k]];
        let i = t.firsts[p];
        r.push((input[i], t.counts[p] as i32));
        k += 1;
    }
    proof {
        assert forall|q: int| 0 <= q < r@.len() implies all.contains((#[trigger] r@[q]).0@) && r@[q].1
            == occurrences(all, r@[q].0@) && r@[q].1 >= min_count by {
            let p = sel@[o@[q] as int] as int;
            assert(all[t.firsts@[p] as int] == t.keys@[p]@);
        }
        assert forall|j: int| 0 <= j < input@.len() && occurrences(all, input@[j]@) >= min_count implies exists|q: int|
            0 <= q < r@.len() && (#[trigger] r@[q]).0@ == (#[trigger] input@[j])@ by {
            assert(all[j] == input@[j]@);
            assert(all.contains(all[j]));
            lemma_dedup_contains(all, all[j]);
            let p = choose|p: int| 0 <= p < dedup(all).len() && dedup(all)[p] == all[j];
            assert(char_rows(t.keys@)[p] == t.keys@[p]@);
            assert(appears(sel@, p));
            let s = choose|s: int| 0 <= s < sel@.len() && sel@[s] == p;
            assert(appears(o@, s));
            let q = choose|q: int| 0 <= q < o@.len() && o@[q] == s;
            assert(r@[q].0@ == input@[j]@);
        }
        assert forall|a: int, b: int| 0 <= a < b < r@.len() implies (#[trigger] r@[a]).0@ != (#[trigger] r@[b]).0@ && r@[a].1 >= r@[b].1 by {
            let (x, y) = (o@[a], o@[b]);
            let (px, py) = (sel@[x as int], sel@[y as int]);
            assert(x != y);
            if px == py {
                if x < y {
                    assert(sel@[x as int] < sel@[y as int]);
                } else {
                    assert(sel@[y as int] < sel@[x as int]);
                }
            }
            assert(char_rows(t.keys@)[px as int] == t.keys@[px as int]@);
            assert(char_rows(t.keys@)[py as int] == t.keys@[py as int]@);
        }
    }
    r
}

} // verus!
