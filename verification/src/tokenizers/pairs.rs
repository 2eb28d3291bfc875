//! Counting the pairs of adjacent characters of a list of words.
use vstd::prelude::*;

use crate::tokenizers::concat;

verus! {

/// The number of places where `a` is directly followed by `b` in `w`.
pub open spec fn adj_count(w: Seq<char>, a: char, b: char) -> int
    decreases w.len(),
{
    if w.len() < 2 {
        0
    } else {
        adj_count(w.drop_last(), a, b) + if w[w.len() - 2] == a && w[w.len() - 1] == b {
            1int
        } else {
            0int
        }
    }
}

/// The number of places where `a` is directly followed by `b` in the words.
pub open spec fn pair_count(ws: Seq<Seq<char>>, a: char, b: char) -> int
    decreases ws.len(),
{
    if ws.len() == 0 {
        0
    } else {
        pair_count(ws.drop_last(), a, b) + adj_count(ws.last(), a, b)
    }
}

/// Some word has two characters in a row.
pub open spec fn has_pair(ws: Seq<Seq<char>>) -> bool {
    exists|i: int| 0 <= i < ws.len() && #[trigger] ws[i].len() >= 2
}

/// `(a, b)` occurs in the words at least as often as every other pair.
pub open spec fn is_most_frequent_pair(ws: Seq<Seq<char>>, a: char, b: char) -> bool {
    &&& pair_count(ws, a, b) >= 1
    &&& forall|x: char, y: char| #[trigger] pair_count(ws, x, y) <= pair_count(ws, a, b)
}

/// `p` is a pair of adjacent characters of one of the words.
pub open spec fn occurs(ws: Seq<Seq<char>>, p: (char, char)) -> bool {
    exists|k: int, i: int| 0 <= k < ws.len() && 0 <= i < ws[k].len() - 1 && #[trigger] ws[k][i] == p.0 && ws[k][i + 1] == p.1
}

proof fn lemma_adj_count_pos(w: Seq<char>, i: int, a: char, b: char)
    requires
        0 <= i < w.len() - 1,
        w[i] == a,
        w[i + 1] == b,
    ensures
        adj_count(w, a, b) >= 1,
    decreases w.len(),
{
    lemma_adj_count_bounds(w.drop_last(), a, b);
    if i < w.len() - 2 {
        lemma_adj_count_pos(w.drop_last(), i, a, b);
    }
}

pub(crate) proof fn lemma_pair_count_pos(ws: Seq<Seq<char>>, p: (char, char))
    requires
        occurs(ws, p),
    ensures
        pair_count(ws, p.0, p.1) >= 1,
    decreases ws.len(),
{
    let (k, i) = choose|k: int, i: int|
        0 <= k < ws.len() && 0 <= i < ws[k].len() - 1 && #[trigger] ws[k][i] == p.0 && ws[k][i + 1] == p.1;
    lemma_pair_count_bounds(ws.drop_last(), p.0, p.1);
    lemma_adj_count_bounds(ws.last(), p.0, p.1);
    if k == ws.len() - 1 {
        lemma_adj_count_pos(ws.last(), i, p.0, p.1);
    } else {
        assert(ws.drop_last()[k] == ws[k]);
        assert(occurs(ws.drop_last(), p));
        lemma_pair_count_pos(ws.drop_last(), p);
    }
}

proof fn lemma_adj_count_bounds(w: Seq<char>, a: char, b: char)
    ensures
        0 <= adj_count(w, a, b) <= w.len(),
        adj_count(w, a, b) >= 1 ==> exists|i: int| 0 <= i < w.len() - 1 && #[trigger] w[i] == a && w[i + 1] == b,
    decreases w.len(),
{
    if w.len() >= 2 {
        lemma_adj_count_bounds(w.drop_last(), a, b);
        if adj_count(w.drop_last(), a, b) >= 1 {
            let i = choose|i: int| 0 <= i < w.drop_last().len() - 1 && #[trigger] w.drop_last()[i] == a && w.drop_last()[i + 1] == b;
            assert(w[i] == a && w[i + 1] == b);
        }
    }
}

pub(crate) proof fn lemma_pair_count_bounds(ws: Seq<Seq<char>>, a: char, b: char)
    ensures
        0 <= pair_count(ws, a, b) <= concat(ws).len(),
        pair_count(ws, a, b) >= 1 ==> exists|k: int, i: int|
            0 <= k < ws.len() && 0 <= i < ws[k].len() - 1 && #[trigger] ws[k][i] == a && ws[k][i + 1] == b,
    decreases ws.len(),
{
    if ws.len() > 0 {
        lemma_pair_count_bounds(ws.drop_last(), a, b);
        lemma_adj_count_bounds(ws.last(), a, b);
        if pair_count(ws.drop_last(), a, b) >= 1 {
            let (k, i) = choose|k: int, i: int|
                0 <= k < ws.drop_last().len() && 0 <= i < ws.drop_last()[k].len() - 1 && #[trigger] ws.drop_last()[k][i] == a
                    && ws.drop_last()[k][i + 1] == b;
            assert(ws[k] == ws.drop_last()[k]);
        } else if adj_count(ws.last(), a, b) >= 1 {
            let i = choose|i: int| 0 <= i < ws.last().len() - 1 && #[trigger] ws.last()[i] == a && ws.last()[i + 1] == b;
            assert(ws[ws.len() - 1] == ws.last());
        }
    }
}

/// The number of places where `a` is directly followed by `b` in `w`.
fn count_in_word(w: &Vec<char>, a: char, b: char) -> (r: usize)
    ensures
        r == adj_count(w@, a, b),
{
    let mut count: usize = 0;
    let mut i: usize = 2;
    if w.len() < 2 {
        return 0;
    }
    proof {
        lemma_adj_count_bounds(w@.take(2), a, b);
        assert(w@.take(2).drop_last() =~= w@.take(1));
        assert(adj_count(w@.take(1), a, b) == 0);
    }
    if w[0] == a && w[1] == b {
        count = 1;
    }
    assert(count == adj_count(w@.take(2), a, b));
    while i < w.len()
        invariant
            2 <= i <= w@.len(),
            count == adj_count(w@.take(i as int), a, b),
            count <= i,
        decreases w.len() - i,
    {
        assert(w@.take(i + 1).drop_last() =~= w@.take(i as int));
        if w[i - 1] == a && w[i] == b {
            count = count + 1;
        }
        i = i + 1;
    }
    assert(w@.take(w@.len() as int) =~= w@);
    count
}

/// The views of a list of character vectors.
pub open spec fn char_views(ws: Seq<Vec<char>>) -> Seq<Seq<char>> {
    ws.map_values(|w: Vec<char>| w@)
}

pub proof fn lemma_char_views_push(ws: Seq<Vec<char>>, w: Vec<char>)
    ensures
        char_views(ws.push(w)) == char_views(ws).push(w@),
{
    assert(char_views(ws.push(w)) =~= char_views(ws).push(w@));
}

/// A copy of a character sequence.
pub fn copy_chars(a: &[char]) -> (r: Vec<char>)
    ensures
        r@ == a@,
{
    let mut v: Vec<char> = Vec::new();
    let mut i: usize = 0;
    while i < a.len()
        invariant
            i <= a@.len(),
            v@ == a@.take(i as int),
        decreases a.len() - i,
    {
        v.push(a[i]);
        i = i + 1;
        assert(v@ =~= a@.take(i as int));
    }
    assert(a@.take(a@.len() as int) =~= a@);
    v
}

/// The number of places where `a` is directly followed by `b` in the words.
pub(crate) fn count_pair(ws: &Vec<Vec<char>>, a: char, b: char) -> (r: usize)
    requires
        concat(char_views(ws@)).len() <= usize::MAX,
    ensures
        r == pair_count(char_views(ws@), a, b),
{
    let ghost v = char_views(ws@);
    let mut total: usize = 0;
    let mut k: usize = 0;
    while k < ws.len()
        invariant
            k <= ws@.len(),
            v == char_views(ws@),
            concat(v).len() <= usize::MAX,
            total == pair_count(v.take(k as int), a, b),
        decreases ws.len() - k,
    {
        assert(v.take(k + 1).drop_last() =~= v.take(k as int));
        assert(v.take(k + 1).last() == ws@[k as int]@);
        let c = count_in_word(&ws[k], a, b);
        proof {
            lemma_pair_count_bounds(v.take(k + 1), a, b);
            lemma_concat_prefix_len(v, k + 1);
        }
        total = total + c;
        k = k + 1;
    }
    assert(v.take(ws@.len() as int) =~= v);
    total
}

proof fn lemma_concat_prefix_len(v: Seq<Seq<char>>, k: int)
    requires
        0 <= k <= v.len(),
    ensures
        concat(v.take(k)).len() <= concat(v).len(),
    decreases v.len() - k,
{
    if k < v.len() {
        lemma_concat_prefix_len(v, k + 1);
        assert(v.take(k + 1).drop_last() =~= v.take(k));
    } else {
        assert(v.take(k) =~= v);
    }
}

/// Every pair of adjacent characters of the words, once each, in order of
/// first occurrence.
pub(crate) fn adjacent_pairs(ws: &Vec<Vec<char>>) -> (pairs: Vec<(char, char)>)
    ensures
        forall|kk: int, i: int|
            0 <= kk < ws@.len() && 0 <= i < ws@[kk]@.len() - 1 ==> pairs@.contains(
                (#[trigger] ws@[kk]@[i], ws@[kk]@[i + 1]),
            ),
        pairs@.len() > 0 ==> has_pair(char_views(ws@)),
        forall|m: int| 0 <= m < pairs@.len() ==> occurs(char_views(ws@), #[trigger] pairs@[m]),
        pairs@.no_duplicates(),
{
    let mut pairs: Vec<(char, char)> = Vec::new();
    let mut k: usize = 0;
    while k < ws.len()
        invariant
            k <= ws@.len(),
            forall|kk: int, i: int|
                0 <= kk < k && 0 <= i < ws@[kk]@.len() - 1 ==> pairs@.contains(
                    (#[trigger] ws@[kk]@[i], ws@[kk]@[i + 1]),
                ),
            pairs@.len() > 0 ==> has_pair(char_views(ws@)),
            forall|m: int| 0 <= m < pairs@.len() ==> occurs(char_views(ws@), #[trigger] pairs@[m]),
            pairs@.no_duplicates(),
        decreases ws.len() - k,
    {
        let w = &ws[k];
        let mut i: usize = 0;
        if w.len() >= 2 {
            while i < w.len() - 1
                invariant
                    k < ws@.len(),
                    *w == ws@[k as int],
                    w@.len() >= 2,
                    i <= w@.len() - 1,
                    forall|kk: int, j: int|
                        0 <= kk < k && 0 <= j < ws@[kk]@.len() - 1 ==> pairs@.contains(
                            (#[trigger] ws@[kk]@[j], ws@[kk]@[j + 1]),
                        ),
                    forall|j: int| 0 <= j < i ==> pairs@.contains((#[trigger] w@[j], w@[j + 1])),
                    pairs@.len() > 0 ==> has_pair(char_views(ws@)),
                    forall|m: int| 0 <= m < pairs@.len() ==> occurs(char_views(ws@), #[trigger] pairs@[m]),
                    pairs@.no_duplicates(),
                decreases w.len() - 1 - i,
            {
                let p = (w[i], w[i + 1]);
                let ghost p0 = pairs@;
                let mut found = false;
                let mut j: usize = 0;
                while j < pairs.len()
                    invariant
                        j <= pairs@.len(),
                        found ==> pairs@.contains(p),
                        !found ==> forall|m: int| 0 <= m < j ==> pairs@[m] != p,
                    decreases pairs.len() - j,
                {
                    if pairs[j].0 == p.0 && pairs[j].1 == p.1 {
                        found = true;
                    }
                    j = j + 1;
                }
                if !found {
                    pairs.push(p);
                    proof {
                        assert(pairs@[p0.len() as int] == p);
                        assert(char_views(ws@)[k as int].len() >= 2);
                        assert(char_views(ws@)[k as int][i as int] == p.0);
                        assert(occurs(char_views(ws@), p));
                        assert forall|m: int| 0 <= m < pairs@.len() implies occurs(char_views(ws@), #[trigger] pairs@[m]) by {
                            if m < p0.len() {
                                assert(pairs@[m] == p0[m]);
                            }
                        }
                        assert forall|a: int, b: int| 0 <= a < b < pairs@.len() implies pairs@[a] != pairs@[b] by {
                            if b == p0.len() {
                                assert(pairs@[a] == p0[a]);
                            }
                        }
                        assert forall|x: (char, char)| p0.contains(x) implies pairs@.contains(x) by {
                            let m = choose|m: int| 0 <= m < p0.len() && p0[m] == x;
                            assert(pairs@[m] == x);
                        }
                    }
                }
                i = i + 1;
            }
        }
        k = k + 1;
    }
    pairs
}

proof fn lemma_best_is_most(v: Seq<Seq<char>>, pairs: Seq<(char, char)>, best: int, a: char, b: char)
    requires
        forall|kk: int, i: int|
            0 <= kk < v.len() && 0 <= i < v[kk].len() - 1 ==> pairs.contains((#[trigger] v[kk][i], v[kk][i + 1])),
        forall|m: int| 0 <= m < pairs.len() ==> pair_count(v, #[trigger] pairs[m].0, pairs[m].1) <= best,
        best == pair_count(v, a, b),
        pair_count(v, a, b) >= 1,
    ensures
        is_most_frequent_pair(v, a, b),
{
    assert forall|x1: char, y1: char| #[trigger] pair_count(v, x1, y1) <= pair_count(v, a, b) by {
        lemma_pair_count_bounds(v, x1, y1);
        if pair_count(v, x1, y1) >= 1 {
            let (kk, ii) = choose|kk: int, ii: int|
                0 <= kk < v.len() && 0 <= ii < v[kk].len() - 1 && #[trigger] v[kk][ii] == x1 && v[kk][ii + 1] == y1;
            assert(pairs.contains((v[kk][ii], v[kk][ii + 1])));
            let m = choose|m: int| 0 <= m < pairs.len() && pairs[m] == (x1, y1);
            assert(pair_count(v, pairs[m].0, pairs[m].1) <= best);
        }
    }
}

/// The pairs of adjacent characters that occur most often in the words.
pub open spec fn top_pairs(ws: Seq<Seq<char>>) -> Set<(char, char)> {
    Set::new(|p: (char, char)| is_most_frequent_pair(ws, p.0, p.1))
}

/// The pairs whose count is `best`, once each, in order.
/// `res.1` gives the position in `pairs` of each pair of `res.0`.
fn pairs_with_count(pairs: &Vec<(char, char)>, counts: &Vec<usize>, best: usize) -> (res: (Vec<(char, char)>, Ghost<Seq<int>>))
    requires
        counts@.len() == pairs@.len(),
        pairs@.no_duplicates(),
    ensures
        res.0@.no_duplicates(),
        res.1@.len() == res.0@.len(),
        forall|i: int| 0 <= i < res.0@.len() ==> 0 <= #[trigger] res.1@[i] < pairs@.len() && pairs@[res.1@[i]] == res.0@[i] && counts@[res.1@[i]] == best,
        forall|m: int| 0 <= m < pairs@.len() && counts@[m] == best ==> res.0@.contains(#[trigger] pairs@[m]),
{
    let mut r: Vec<(char, char)> = Vec::new();
    let ghost mut src: Seq<int> = Seq::empty();
    let mut k: usize = 0;
    while k < pairs.len()
        invariant
            k <= pairs@.len(),
            counts@.len() == pairs@.len(),
            pairs@.no_duplicates(),
            r@.no_duplicates(),
            src.len() == r@.len(),
            forall|i: int| 0 <= i < r@.len() ==> 0 <= #[trigger] src[i] < k && pairs@[src[i]] == r@[i] && counts@[src[i]] == best,
            forall|m: int| 0 <= m < k && counts@[m] == best ==> r@.contains(#[trigger] pairs@[m]),
        decreases pairs.len() - k,
    {
        if counts[k] == best {
            let ghost r0 = r@;
            let p = pairs[k];
            proof {
                assert(!r0.contains(p)) by {
                    if r0.contains(p) {
                        let i = choose|i: int| 0 <= i < r0.len() && r0[i] == p;
                        assert(0 <= src[i] < k);
                        assert(pairs@[src[i]] == pairs@[k as int]);
                    }
                }
            }
            r.push(p);
            proof {
                src = src.push(k as int);
                assert forall|a: int, b: int| 0 <= a < b < r@.len() implies r@[a] != r@[b] by {
                    if b == r0.len() {
                        assert(r0.contains(r0[a]));
                    } else {
                        assert(r@[a] == r0[a] && r@[b] == r0[b]);
                    }
                }
                assert forall|i: int| 0 <= i < r@.len() implies 0 <= #[trigger] src[i] < k + 1 && pairs@[src[i]] == r@[i] && counts@[src[i]] == best by {
                    if i < r0.len() {
                        assert(r@[i] == r0[i]);
                    }
                }
                assert forall|m: int| 0 <= m < k + 1 && counts@[m] == best implies r@.contains(#[trigger] pairs@[m]) by {
                    if m < k {
                        assert(r0.contains(pairs@[m]));
                        let i = choose|i: int| 0 <= i < r0.len() && r0[i] == pairs@[m];
                        assert(r@[i] == pairs@[m]);
                    } else {
                        assert(r@[r0.len() as int] == pairs@[m]);
                    }
                }
            }
        }
        k = k + 1;
    }
    (r, Ghost(src))
}

/// A pair counted `best`, the largest count of a pair that occurs, is a
/// most frequent pair.
proof fn lemma_best_count_is_top(v: Seq<Seq<char>>, pairs: Seq<(char, char)>, best: int, x: (char, char))
    requires
        pair_count(v, x.0, x.1) == best,
        pairs.contains(x),
        forall|m: int| 0 <= m < pairs.len() ==> pair_count(v, #[trigger] pairs[m].0, pairs[m].1) <= best,
        forall|m: int| 0 <= m < pairs.len() ==> occurs(v, #[trigger] pairs[m]),
        forall|kk: int, i: int| 0 <= kk < v.len() && 0 <= i < v[kk].len() - 1 ==> pairs.contains((#[trigger] v[kk][i], v[kk][i + 1])),
    ensures
        top_pairs(v).contains(x),
{
    let m = choose|m: int| 0 <= m < pairs.len() && pairs[m] == x;
    assert(occurs(v, pairs[m]));
    lemma_pair_count_pos(v, pairs[m]);
    lemma_best_is_most(v, pairs, best, x.0, x.1);
}

/// A most frequent pair has the largest count of a pair that occurs.
proof fn lemma_top_has_best_count(v: Seq<Seq<char>>, pairs: Seq<(char, char)>, best: int, bi: int, x: (char, char))
    requires
        0 <= bi < pairs.len(),
        pair_count(v, pairs[bi].0, pairs[bi].1) == best,
        forall|m: int| 0 <= m < pairs.len() ==> pair_count(v, #[trigger] pairs[m].0, pairs[m].1) <= best,
        forall|kk: int, i: int| 0 <= kk < v.len() && 0 <= i < v[kk].len() - 1 ==> pairs.contains((#[trigger] v[kk][i], v[kk][i + 1])),
        top_pairs(v).contains(x),
    ensures
        pairs.contains(x),
        pair_count(v, x.0, x.1) == best,
{
    assert(is_most_frequent_pair(v, x.0, x.1));
    lemma_pair_count_bounds(v, x.0, x.1);
    let (kk, ii) = choose|kk: int, ii: int|
        0 <= kk < v.len() && 0 <= ii < v[kk].len() - 1 && #[trigger] v[kk][ii] == x.0 && v[kk][ii + 1] == x.1;
    assert(pairs.contains((v[kk][ii], v[kk][ii + 1])));
    let m = choose|m: int| 0 <= m < pairs.len() && pairs[m] == x;
    assert(pair_count(v, pairs[bi].0, pairs[bi].1) <= pair_count(v, x.0, x.1));
    assert(pair_count(v, pairs[m].0, pairs[m].1) <= best);
}

/// Every pair of adjacent characters that occurs most often in the words,
/// once each, in order of first occurrence.
pub(crate) fn most_frequent_pairs(ws: &Vec<Vec<char>>) -> (r: Vec<(char, char)>)
    requires
        concat(char_views(ws@)).len() <= usize::MAX,
    ensures
        r@.no_duplicates(),
        r@.to_set() == top_pairs(char_views(ws@)),
        r@.len() == top_pairs(char_views(ws@)).len(),
        r@.len() == 0 <==> !has_pair(char_views(ws@)),
{
    let ghost v = char_views(ws@);
    let pairs = adjacent_pairs(ws);
    proof {
        assert forall|kk: int, i: int| 0 <= kk < v.len() && 0 <= i < v[kk].len() - 1 implies pairs@.contains(
            (#[trigger] v[kk][i], v[kk][i + 1]),
        ) by {
            assert(v[kk] == ws@[kk]@);
            assert(pairs@.contains((ws@[kk]@[i], ws@[kk]@[i + 1])));
        }
    }
    if pairs.len() == 0 {
        let r: Vec<(char, char)> = Vec::new();
        proof {
            assert forall|kk: int| 0 <= kk < v.len() implies #[trigger] v[kk].len() < 2 by {
                if v[kk].len() >= 2 {
                    assert(pairs@.contains((v[kk][0], v[kk][1])));
                }
            }
            assert forall|x: (char, char)| !(#[trigger] top_pairs(v).contains(x)) by {
                lemma_pair_count_bounds(v, x.0, x.1);
            }
            assert(r@.to_set() =~= top_pairs(v));
            r@.unique_seq_to_set();
        }
        return r;
    }
    let mut counts: Vec<usize> = Vec::new();
    let mut best: usize = 0;
    let ghost mut bi: int = 0;
    let mut j: usize = 0;
    while j < pairs.len()
        invariant
            j <= pairs@.len(),
            counts@.len() == j,
            v == char_views(ws@),
            concat(v).len() <= usize::MAX,
            forall|m: int| 0 <= m < j ==> counts@[m] == pair_count(v, #[trigger] pairs@[m].0, pairs@[m].1),
            forall|m: int| 0 <= m < j ==> counts@[m] <= best,
            j > 0 ==> 0 <= bi < j && counts@[bi] == best,
        decreases pairs.len() - j,
    {
        let c = count_pair(ws, pairs[j].0, pairs[j].1);
        counts.push(c);
        if j == 0 || c > best {
            best = c;
            proof {
                bi = j as int;
            }
        }
        j = j + 1;
    }
    let (r, Ghost(src)) = pairs_with_count(&pairs, &counts, best);
    proof {
        assert forall|m: int| 0 <= m < pairs@.len() implies pair_count(v, #[trigger] pairs@[m].0, pairs@[m].1) <= best by {
            assert(counts@[m] == pair_count(v, pairs@[m].0, pairs@[m].1));
        }
        assert(pair_count(v, pairs@[bi].0, pairs@[bi].1) == best);
        assert forall|x: (char, char)| r@.contains(x) implies #[trigger] top_pairs(v).contains(x) by {
            let i = choose|i: int| 0 <= i < r@.len() && r@[i] == x;
            let m = src[i];
            assert(pairs@[m] == x);
            assert(pairs@.contains(x));
            lemma_best_count_is_top(v, pairs@, best as int, x);
        }
        assert forall|x: (char, char)| #[trigger] top_pairs(v).contains(x) implies r@.contains(x) by {
            lemma_top_has_best_count(v, pairs@, best as int, bi, x);
            let m = choose|m: int| 0 <= m < pairs@.len() && pairs@[m] == x;
            assert(counts@[m] == best);
        }
        assert(r@.to_set() =~= top_pairs(v));
        r@.unique_seq_to_set();
        assert(r@.contains(pairs@[bi]));
    }
    r
}

} // verus!
