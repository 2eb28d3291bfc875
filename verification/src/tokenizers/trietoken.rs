//! TrieToken tokenizer: frequent word prefixes and merges of frequent
//! character pairs on top of the 256 character tokens.
use vstd::prelude::*;

use crate::tokenizers::bpe::{byte_token, chars_equal, singletons};
use crate::tokenizers::pairs::{
    adjacent_pairs, char_views, copy_chars, count_pair, lemma_char_views_push, occurs, pair_count,
};
use crate::tokenizers::{
    chars_of, concat, lemma_concat_append, lemma_concat_first, lemma_concat_single, pre_tokenize_words, string_of, views,
    words, Tokenizer,
};

verus! {

/// A TrieToken tokenizer: `vocab` maps tokens to ids (each token once,
/// in insertion order), `merges` are the learned pair merges in order.
pub struct TrieTokenTokenizer {
    pub vocab: Vec<(Vec<char>, u32)>,
    pub merges: Vec<(char, char)>,
    pub min_freq: usize,
}

/// The views of a token-to-id list.
pub open spec fn entries(v: Seq<(Vec<char>, u32)>) -> Seq<(Seq<char>, u32)> {
    v.map_values(|e: (Vec<char>, u32)| (e.0@, e.1))
}

/// The position of token `t` in the list, if present.
pub open spec fn key_pos(v: Seq<(Seq<char>, u32)>, t: Seq<char>) -> Option<int>
    decreases v.len(),
{
    if v.len() == 0 {
        None
    } else if v.last().0 == t {
        Some(v.len() - 1)
    } else {
        key_pos(v.drop_last(), t)
    }
}

/// The list with token `t` given id `id`: replaced in place when present,
/// appended otherwise (as a map insert does).
pub open spec fn assoc_insert(v: Seq<(Seq<char>, u32)>, t: Seq<char>, id: u32) -> Seq<(Seq<char>, u32)> {
    match key_pos(v, t) {
        Some(k) => v.update(k, (t, id)),
        None => v.push((t, id)),
    }
}

/// The number of words of which `p` is a prefix.
pub open spec fn prefix_count(ws: Seq<Seq<char>>, p: Seq<char>) -> int
    decreases ws.len(),
{
    if ws.len() == 0 {
        0
    } else {
        prefix_count(ws.drop_last(), p) + if p.len() <= ws.last().len() && ws.last().subrange(0, p.len() as int)
            == p {
            1int
        } else {
            0int
        }
    }
}

/// The substrings of `w` starting at `start` and ending at `end` or later,
/// of length at least 2, that begin at least `min_freq` (and at least one)
/// of the words, with those counts.
pub open spec fn subs_at(w: Seq<char>, ws: Seq<Seq<char>>, mf: int, start: int, end: int) -> Seq<(Seq<char>, int)>
    decreases w.len() + 1 - end,
{
    if end > w.len() || end < 0 {
        Seq::empty()
    } else {
        let s = w.subrange(start, end);
        let c = prefix_count(ws, s);
        (if c >= 1 && c >= mf { seq![(s, c)] } else { Seq::empty() }) + subs_at(w, ws, mf, start, end + 1)
    }
}

/// The frequent substrings of `w` from every start position on, in order.
pub open spec fn subs_from(w: Seq<char>, ws: Seq<Seq<char>>, mf: int, start: int) -> Seq<(Seq<char>, int)>
    decreases w.len() - start,
{
    if start >= w.len() || start < 0 {
        Seq::empty()
    } else {
        subs_at(w, ws, mf, start, start + 2) + subs_from(w, ws, mf, start + 1)
    }
}

/// `x` inserted after every element whose count is at least its own.
pub open spec fn insert_desc(sorted: Seq<(Seq<char>, int)>, x: (Seq<char>, int)) -> Seq<(Seq<char>, int)>
    decreases sorted.len(),
{
    if sorted.len() == 0 {
        seq![x]
    } else if sorted.last().1 >= x.1 {
        sorted.push(x)
    } else {
        insert_desc(sorted.drop_last(), x).push(sorted.last())
    }
}

/// The stable sort of `l` by decreasing count.
pub open spec fn sort_desc(l: Seq<(Seq<char>, int)>) -> Seq<(Seq<char>, int)>
    decreases l.len(),
{
    if l.len() == 0 {
        Seq::empty()
    } else {
        insert_desc(sort_desc(l.drop_last()), l.last())
    }
}

/// The frequent substrings of `w`, most frequent first.
pub open spec fn frequent_substrings(w: Seq<char>, ws: Seq<Seq<char>>, mf: int) -> Seq<(Seq<char>, int)> {
    sort_desc(subs_from(w, ws, mf, 0))
}

/// `w` with a leading space.
pub open spec fn spaced(w: Seq<char>) -> Seq<char> {
    seq![' '] + w
}

/// The spaced forms of the words.
pub open spec fn spaced_words(ws: Seq<Seq<char>>) -> Seq<Seq<char>> {
    ws.map_values(|w: Seq<char>| spaced(w))
}

/// The vocabulary after adding the substrings `subs` in order, each when new
/// and while the vocabulary is smaller than `vs`.
pub open spec fn add_subs(v: Seq<(Seq<char>, u32)>, subs: Seq<(Seq<char>, int)>, vs: int) -> Seq<(Seq<char>, u32)>
    decreases subs.len(),
{
    if subs.len() == 0 {
        v
    } else {
        let v1 = add_subs(v, subs.drop_last(), vs);
        let s = subs.last().0;
        if key_pos(v1, s) is None && v1.len() < vs {
            v1.push((s, v1.len() as u32))
        } else {
            v1
        }
    }
}

/// The vocabulary after the frequent substrings of the first `k` words.
pub open spec fn add_words(v: Seq<(Seq<char>, u32)>, ws: Seq<Seq<char>>, k: int, mf: int, vs: int) -> Seq<(Seq<char>, u32)>
    decreases k,
{
    if k <= 0 {
        v
    } else {
        add_subs(add_words(v, ws, k - 1, mf, vs), frequent_substrings(spaced(ws[k - 1]), ws, mf), vs)
    }
}

/// The 256 character tokens with their codes as ids.
pub open spec fn base_entries() -> Seq<(Seq<char>, u32)> {
    Seq::new(256, |i: int| (byte_token(i), i as u32))
}

/// The pairs of adjacent characters of the spaced words that are counted:
/// those whose two characters already form a token, or all of them while
/// the vocabulary can still grow and some word exists.
pub open spec fn pair_counted(v: Seq<(Seq<char>, u32)>, ws: Seq<Seq<char>>, vs: int, p: (char, char)) -> bool {
    key_pos(v, seq![p.0, p.1]) is Some || (v.len() < vs && ws.len() > 0)
}

/// The first position of a most frequent pair among those counted at least
/// `mf` times, from position `i` on.
pub open spec fn best_from(rem: Seq<((char, char), int)>, mf: int, i: int) -> Option<int>
    decreases rem.len() - i,
{
    if i >= rem.len() || i < 0 {
        None
    } else {
        match best_from(rem, mf, i + 1) {
            None => if rem[i].1 >= mf { Some(i) } else { None },
            Some(j) => if rem[i].1 >= mf && rem[i].1 >= rem[j].1 { Some(i) } else { Some(j) },
        }
    }
}

/// The vocabulary and merges the merge loop ends with, from vocabulary `v`
/// and remaining pair counts `rem`.
pub open spec fn merge_loop(
    v: Seq<(Seq<char>, u32)>,
    rem: Seq<((char, char), int)>,
    vs: int,
    mf: int,
) -> (Seq<(Seq<char>, u32)>, Seq<(char, char)>)
    decreases rem.len(),
{
    if v.len() >= vs {
        (v, Seq::empty())
    } else {
        match best_from(rem, mf, 0) {
            None => (v, Seq::empty()),
            Some(k) => if 0 <= k < rem.len() {
                let p = rem[k].0;
                let next = merge_loop(assoc_insert(v, seq![p.0, p.1], v.len() as u32), rem.remove(k), vs, mf);
                (next.0, seq![p] + next.1)
            } else {
                (v, Seq::empty())
            },
        }
    }
}

/// The views of a list of counted substrings.
pub open spec fn sub_views(l: Seq<(Vec<char>, usize)>) -> Seq<(Seq<char>, int)> {
    l.map_values(|e: (Vec<char>, usize)| (e.0@, e.1 as int))
}

proof fn lemma_sub_views_push(l: Seq<(Vec<char>, usize)>, x: (Vec<char>, usize))
    ensures
        sub_views(l.push(x)) == sub_views(l).push((x.0@, x.1 as int)),
{
    assert(sub_views(l.push(x)) =~= sub_views(l).push((x.0@, x.1 as int)));
}

proof fn lemma_entries_push(l: Seq<(Vec<char>, u32)>, x: (Vec<char>, u32))
    ensures
        entries(l.push(x)) == entries(l).push((x.0@, x.1)),
{
    assert(entries(l.push(x)) =~= entries(l).push((x.0@, x.1)));
}

/// The position of token `t` in the vocabulary, if present.
fn key_pos_exec(v: &Vec<(Vec<char>, u32)>, t: &[char]) -> (r: Option<usize>)
    ensures
        match r {
            Some(k) => key_pos(entries(v@), t@) == Some(k as int) && k < v@.len(),
            None => key_pos(entries(v@), t@) is None,
        },
{
    let ghost e = entries(v@);
    let mut i: usize = v.len();
    assert(e.take(i as int) =~= e);
    while i > 0
        invariant
            i <= v@.len(),
            e == entries(v@),
            key_pos(e, t@) == key_pos(e.take(i as int), t@),
        decreases i,
    {
        assert(e.take(i as int).drop_last() =~= e.take(i - 1));
        assert(e.take(i as int).last() == (v@[i - 1].0@, v@[i - 1].1));
        i = i - 1;
        if chars_equal(v[i].0.as_slice(), t) {
            return Some(i);
        }
    }
    assert(e.take(0) =~= Seq::<(Seq<char>, u32)>::empty());
    None
}

/// Gives token `t` the id `id`, replacing its entry when present.
fn insert_token(v: &mut Vec<(Vec<char>, u32)>, t: Vec<char>, id: u32)
    ensures
        entries(final(v)@) == assoc_insert(entries(old(v)@), t@, id),
{
    match key_pos_exec(v, t.as_slice()) {
        Some(k) => {
            let ghost tv = t@;
            v.set(k, (t, id));
            assert(entries(v@) =~= entries(old(v)@).update(k as int, (tv, id)));
        },
        None => {
            let ghost tv = t@;
            proof {
                lemma_entries_push(v@, (t, id));
            }
            v.push((t, id));
        },
    }
}

/// The number of words of which `p` is a prefix.
fn prefix_count_exec(ws: &Vec<Vec<char>>, p: &[char]) -> (r: usize)
    ensures
        r == prefix_count(char_views(ws@), p@),
{
    let ghost v = char_views(ws@);
    let mut n: usize = 0;
    let mut j: usize = 0;
    while j < ws.len()
        invariant
            j <= ws@.len(),
            v == char_views(ws@),
            n == prefix_count(v.take(j as int), p@),
            n <= j,
        decreases ws.len() - j,
    {
        assert(v.take(j + 1).drop_last() =~= v.take(j as int));
        let w = &ws[j];
        assert(v.take(j + 1).last() == w@);
        if p.len() <= w.len() {
            let mut same = true;
            let mut i: usize = 0;
            while i < p.len()
                invariant
                    i <= p@.len(),
                    p@.len() <= w@.len(),
                    same == (forall|k: int| 0 <= k < i ==> w@[k] == p@[k]),
                decreases p.len() - i,
            {
                if w[i] != p[i] {
                    same = false;
                }
                i = i + 1;
            }
            if same {
                assert(w@.subrange(0, p@.len() as int) =~= p@);
                n = n + 1;
            } else {
                assert(w@.subrange(0, p@.len() as int) != p@) by {
                    let k = choose|k: int| 0 <= k < p@.len() && w@[k] != p@[k];
                    assert(w@.subrange(0, p@.len() as int)[k] == w@[k]);
                }
            }
        }
        j = j + 1;
    }
    assert(v.take(ws@.len() as int) =~= v);
    n
}

/// The characters of `w` from `start` to `end`.
fn chars_range(w: &Vec<char>, start: usize, end: usize) -> (r: Vec<char>)
    requires
        start <= end <= w@.len(),
    ensures
        r@ == w@.subrange(start as int, end as int),
{
    let mut v: Vec<char> = Vec::new();
    let mut i: usize = start;
    while i < end
        invariant
            start <= i <= end,
            end <= w@.len(),
            v@ == w@.subrange(start as int, i as int),
        decreases end - i,
    {
        v.push(w[i]);
        i = i + 1;
        assert(v@ =~= w@.subrange(start as int, i as int));
    }
    v
}

/// The frequent substrings of `w`, in order of start and then end.
fn substrings_of(w: &Vec<char>, ws: &Vec<Vec<char>>, mf: usize) -> (r: Vec<(Vec<char>, usize)>)
    ensures
        sub_views(r@) == subs_from(w@, char_views(ws@), mf as int, 0),
{
    let ghost v = char_views(ws@);
    let mut out: Vec<(Vec<char>, usize)> = Vec::new();
    let mut start: usize = 0;
    while start < w.len()
        invariant
            start <= w@.len(),
            v == char_views(ws@),
            sub_views(out@) + subs_from(w@, v, mf as int, start as int) == subs_from(w@, v, mf as int, 0),
        decreases w.len() - start,
    {
        let ghost o0 = sub_views(out@);
        proof {
            assert(subs_from(w@, v, mf as int, start as int) == subs_at(w@, v, mf as int, start as int, start + 2)
                + subs_from(w@, v, mf as int, start + 1));
        }
        if w.len() - start >= 2 {
            let mut end: usize = start + 2;
            let mut done = false;
            while !done
                invariant
                    start < w@.len(),
                    start + 2 <= end <= w@.len(),
                    v == char_views(ws@),
                    done ==> end == w@.len(),
                    sub_views(out@) + (if done {
                        Seq::<(Seq<char>, int)>::empty()
                    } else {
                        subs_at(w@, v, mf as int, start as int, end as int)
                    }) == o0 + subs_at(w@, v, mf as int, start as int, start + 2),
                decreases w.len() - end, if done { 0int } else { 1int },
            {
                let piece = chars_range(w, start, end);
                let c = prefix_count_exec(ws, piece.as_slice());
                let ghost o1 = sub_views(out@);
                if c >= 1 && c >= mf {
                    proof {
                        lemma_sub_views_push(out@, (piece, c));
                    }
                    out.push((piece, c));
                }
                proof {
                    assert(sub_views(out@) + subs_at(w@, v, mf as int, start as int, end + 1) =~= o1 + subs_at(
                        w@,
                        v,
                        mf as int,
                        start as int,
                        end as int,
                    ));
                }
                if end == w.len() {
                    proof {
                        assert(subs_at(w@, v, mf as int, start as int, end + 1) == Seq::<(Seq<char>, int)>::empty());
                        assert(sub_views(out@) =~= sub_views(out@) + Seq::<(Seq<char>, int)>::empty());
                    }
                    done = true;
                } else {
                    end = end + 1;
                }
            }
            assert(sub_views(out@) =~= o0 + subs_at(w@, v, mf as int, start as int, start + 2));
        } else {
            assert(subs_at(w@, v, mf as int, start as int, start + 2) == Seq::<(Seq<char>, int)>::empty());
            assert(sub_views(out@) =~= o0 + subs_at(w@, v, mf as int, start as int, start + 2));
        }
        start = start + 1;
    }
    assert(sub_views(out@) =~= subs_from(w@, v, mf as int, 0));
    out
}

/// Inserts `x` after every element whose count is at least its own.
fn insert_desc_exec(sorted: &mut Vec<(Vec<char>, usize)>, x: (Vec<char>, usize))
    ensures
        sub_views(final(sorted)@) == insert_desc(sub_views(old(sorted)@), (x.0@, x.1 as int)),
{
    let ghost s = sub_views(sorted@);
    let ghost xv = (x.0@, x.1 as int);
    let mut j: usize = sorted.len();
    assert(s.take(j as int) =~= s);
    assert(s.skip(j as int) =~= Seq::<(Seq<char>, int)>::empty());
    assert(insert_desc(s, xv) =~= insert_desc(s.take(j as int), xv) + s.skip(j as int));
    while j > 0 && sorted[j - 1].1 < x.1
        invariant
            j <= sorted@.len(),
            s == sub_views(sorted@),
            xv == (x.0@, x.1 as int),
            insert_desc(s, xv) == insert_desc(s.take(j as int), xv) + s.skip(j as int),
        decreases j,
    {
        proof {
            let t = s.take(j as int);
            assert(s[j - 1] == (sorted@[j - 1].0@, sorted@[j - 1].1 as int));
            assert(t.last() == s[j - 1]);
            assert(!(t.last().1 >= xv.1));
            assert(t.drop_last() =~= s.take(j - 1));
            assert(insert_desc(t, xv) == insert_desc(s.take(j - 1), xv).push(s[j - 1]));
            assert(insert_desc(s.take(j - 1), xv).push(s[j - 1]) + s.skip(j as int) =~= insert_desc(
                s.take(j - 1),
                xv,
            ) + s.skip(j - 1));
        }
        j = j - 1;
    }
    proof {
        if j == 0 {
            assert(s.take(0) =~= Seq::<(Seq<char>, int)>::empty());
        } else {
            assert(s.take(j as int).last() == s[j - 1]);
            assert(s[j - 1] == (sorted@[j - 1].0@, sorted@[j - 1].1 as int));
        }
        assert(insert_desc(s.take(j as int), xv) =~= s.take(j as int).push(xv));
    }
    sorted.insert(j, x);
    proof {
        assert(sub_views(sorted@) =~= s.take(j as int).push(xv) + s.skip(j as int));
    }
}

/// The stable sort of `l` by decreasing count.
fn sort_desc_exec(l: Vec<(Vec<char>, usize)>) -> (r: Vec<(Vec<char>, usize)>)
    ensures
        sub_views(r@) == sort_desc(sub_views(l@)),
{
    let ghost lv = sub_views(l@);
    let mut sorted: Vec<(Vec<char>, usize)> = Vec::new();
    let mut i: usize = 0;
    assert(lv.take(0) =~= Seq::<(Seq<char>, int)>::empty());
    while i < l.len()
        invariant
            i <= l@.len(),
            lv == sub_views(l@),
            sub_views(sorted@) == sort_desc(lv.take(i as int)),
        decreases l.len() - i,
    {
        let x = (copy_chars(l[i].0.as_slice()), l[i].1);
        proof {
            assert(lv.take(i + 1).drop_last() =~= lv.take(i as int));
            assert(lv.take(i + 1).last() == (x.0@, x.1 as int));
        }
        insert_desc_exec(&mut sorted, x);
        i = i + 1;
    }
    assert(lv.take(l@.len() as int) =~= lv);
    sorted
}

/// The views of a list of counted pairs.
pub open spec fn rem_views(l: Seq<((char, char), usize)>) -> Seq<((char, char), int)> {
    l.map_values(|e: ((char, char), usize)| (e.0, e.1 as int))
}

/// `rem` lists each counted pair of adjacent characters of the spaced words
/// once, with the number of times it occurs.
pub open spec fn pair_table(v: Seq<(Seq<char>, u32)>, ws: Seq<Seq<char>>, vs: int, rem: Seq<((char, char), int)>) -> bool {
    let sws = spaced_words(ws);
    &&& forall|a: int, b: int| 0 <= a < b < rem.len() ==> rem[a].0 != rem[b].0
    &&& forall|m: int| 0 <= m < rem.len() ==> {
        let p = (#[trigger] rem[m]).0;
        &&& occurs(sws, p)
        &&& pair_counted(v, ws, vs, p)
        &&& rem[m].1 == pair_count(sws, p.0, p.1)
    }
    &&& forall|p: (char, char)| occurs(sws, p) && pair_counted(v, ws, vs, p) ==> exists|m: int| 0 <= m < rem.len() && (#[trigger] rem[m]).0 == p
}

/// The first position of a most frequent pair counted at least `mf` times.
fn best_index(rem: &Vec<((char, char), usize)>, mf: usize) -> (r: Option<usize>)
    ensures
        match r {
            Some(k) => k < rem@.len() && best_from(rem_views(rem@), mf as int, 0) == Some(k as int),
            None => best_from(rem_views(rem@), mf as int, 0) is None,
        },
{
    let ghost rv = rem_views(rem@);
    let mut best: Option<usize> = None;
    let mut i: usize = rem.len();
    while i > 0
        invariant
            i <= rem@.len(),
            rv == rem_views(rem@),
            best_from(rv, mf as int, i as int) == match best {
                Some(b) => Some(b as int),
                None => None::<int>,
            },
            best matches Some(b) ==> i <= b < rem@.len(),
        decreases i,
    {
        i = i - 1;
        assert(rv[i as int] == (rem@[i as int].0, rem@[i as int].1 as int));
        if rem[i].1 >= mf {
            match best {
                None => {
                    best = Some(i);
                },
                Some(k) => {
                    assert(rv[k as int] == (rem@[k as int].0, rem@[k as int].1 as int));
                    if rem[i].1 >= rem[k].1 {
                        best = Some(i);
                    }
                },
            }
        }
    }
    best
}

/// The character tokens, then the frequent substrings of every word (read
/// with a leading space); also the spaced words.
fn substring_vocab(ws: &Vec<Vec<char>>, vocab_size: usize, min_frequency: usize) -> (r: (Vec<(Vec<char>, u32)>, Vec<Vec<char>>))
    ensures
        entries(r.0@) == add_words(
            base_entries(),
            char_views(ws@),
            ws@.len() as int,
            min_frequency as int,
            vocab_size as int,
        ),
        char_views(r.1@) == spaced_words(char_views(ws@)),
{
    let ghost wv = char_views(ws@);
    let ghost vs = vocab_size as int;
    let ghost mf = min_frequency as int;
    let mut vocab: Vec<(Vec<char>, u32)> = Vec::new();
    let mut b: u32 = 0;
    while b < 256
        invariant
            b <= 256,
            entries(vocab@) == base_entries().take(b as int),
        decreases 256 - b,
    {
        let t: Vec<char> = vec![(b as u8) as char];
        proof {
            lemma_entries_push(vocab@, (t, b));
            assert(base_entries().take(b + 1) =~= base_entries().take(b as int).push((byte_token(b as int), b)));
            assert(t@ =~= byte_token(b as int));
        }
        vocab.push((t, b));
        b = b + 1;
    }
    assert(base_entries().take(256) =~= base_entries());
    let mut sws: Vec<Vec<char>> = Vec::new();
    let mut j: usize = 0;
    while j < ws.len()
        invariant
            j <= ws@.len(),
            wv == char_views(ws@),
            entries(vocab@) == add_words(base_entries(), wv, j as int, mf, vs),
            char_views(sws@) == spaced_words(wv).take(j as int),
            vs == vocab_size as int,
            mf == min_frequency as int,
        decreases ws.len() - j,
    {
        let mut sw: Vec<char> = vec![' '];
        let mut i: usize = 0;
        while i < ws[j].len()
            invariant
                j < ws@.len(),
                i <= ws@[j as int]@.len(),
                sw@ == seq![' '] + ws@[j as int]@.take(i as int),
            decreases ws[j as int]@.len() - i,
        {
            sw.push(ws[j][i]);
            i = i + 1;
            assert(sw@ =~= seq![' '] + ws@[j as int]@.take(i as int));
        }
        assert(ws@[j as int]@.take(ws@[j as int]@.len() as int) =~= ws@[j as int]@);
        assert(wv[j as int] == ws@[j as int]@);
        let subs = sort_desc_exec(substrings_of(&sw, ws, min_frequency));
        let ghost sv = sub_views(subs@);
        let ghost v0 = entries(vocab@);
        let mut m: usize = 0;
        assert(sv.take(0) =~= Seq::<(Seq<char>, int)>::empty());
        while m < subs.len()
            invariant
                m <= subs@.len(),
                sv == sub_views(subs@),
                entries(vocab@) == add_subs(v0, sv.take(m as int), vs),
                vs == vocab_size as int,
            decreases subs.len() - m,
        {
            assert(sv.take(m + 1).drop_last() =~= sv.take(m as int));
            assert(sv.take(m + 1).last().0 == subs@[m as int].0@);
            let absent = key_pos_exec(&vocab, subs[m].0.as_slice()).is_none();
            if absent && vocab.len() < vocab_size {
                let t = copy_chars(subs[m].0.as_slice());
                let id = vocab.len() as u32;
                proof {
                    lemma_entries_push(vocab@, (t, id));
                }
                vocab.push((t, id));
            }
            m = m + 1;
        }
        assert(sv.take(subs@.len() as int) =~= sv);
        proof {
            lemma_char_views_push(sws@, sw);
            assert(spaced_words(wv).take(j + 1) =~= spaced_words(wv).take(j as int).push(spaced(wv[j as int])));
            assert(sw@ =~= spaced(wv[j as int]));
        }
        sws.push(sw);
        j = j + 1;
    }
    assert(spaced_words(wv).take(ws@.len() as int) =~= spaced_words(wv));
    (vocab, sws)
}

/// The counted pairs of adjacent characters of the spaced words, each once
/// with its number of occurrences, in order of first occurrence.
fn pair_counts(vocab: &Vec<(Vec<char>, u32)>, sws: &Vec<Vec<char>>, ws: Ghost<Seq<Seq<char>>>, nonempty: bool, vocab_size: usize) -> (rem: Vec<((char, char), usize)>)
    requires
        char_views(sws@) == spaced_words(ws@),
        nonempty == (ws@.len() > 0),
        concat(spaced_words(ws@)).len() <= usize::MAX,
    ensures
        pair_table(entries(vocab@), ws@, vocab_size as int, rem_views(rem@)),
{
    let ghost v1 = entries(vocab@);
    let ghost wv = ws@;
    let ghost vs = vocab_size as int;
    let pairs = adjacent_pairs(sws);
    let mut rem: Vec<((char, char), usize)> = Vec::new();
    let mut q: usize = 0;
    while q < pairs.len()
        invariant
            q <= pairs@.len(),
            v1 == entries(vocab@),
            vs == vocab_size as int,
            nonempty == (wv.len() > 0),
            char_views(sws@) == spaced_words(wv),
            concat(spaced_words(wv)).len() <= usize::MAX,
            pairs@.no_duplicates(),
            forall|n: int| 0 <= n < pairs@.len() ==> occurs(char_views(sws@), #[trigger] pairs@[n]),
            forall|a: int, c: int| 0 <= a < c < rem@.len() ==> rem@[a].0 != rem@[c].0,
            forall|m: int| 0 <= m < rem@.len() ==> exists|n: int| 0 <= n < q && pairs@[n] == (#[trigger] rem@[m]).0,
            forall|m: int| 0 <= m < rem@.len() ==> {
                let p = (#[trigger] rem@[m]).0;
                &&& occurs(spaced_words(wv), p)
                &&& pair_counted(v1, wv, vs, p)
                &&& rem@[m].1 as int == pair_count(spaced_words(wv), p.0, p.1)
            },
            forall|n: int| 0 <= n < q && pair_counted(v1, wv, vs, #[trigger] pairs@[n]) ==> exists|m: int|
                0 <= m < rem@.len() && rem@[m].0 == pairs@[n],
        decreases pairs.len() - q,
    {
        let (a, c) = pairs[q];
        let joined_ac: Vec<char> = vec![a, c];
        assert(joined_ac@ =~= seq![a, c]);
        let counted = key_pos_exec(vocab, joined_ac.as_slice()).is_some() || (vocab.len() < vocab_size && nonempty);
        if counted {
            let cnt = count_pair(sws, a, c);
            let ghost r0 = rem@;
            rem.push(((a, c), cnt));
            proof {
                assert forall|x: int, y: int| 0 <= x < y < rem@.len() implies rem@[x].0 != rem@[y].0 by {
                    if y == r0.len() {
                        let n = choose|n: int| 0 <= n < q && pairs@[n] == r0[x].0;
                        assert(rem@[x] == r0[x]);
                        assert(pairs@[n] != pairs@[q as int]);
                    } else {
                        assert(rem@[x] == r0[x]);
                        assert(rem@[y] == r0[y]);
                    }
                }
                assert forall|m: int| 0 <= m < rem@.len() implies exists|n: int| 0 <= n < q + 1 && pairs@[n] == (
                #[trigger] rem@[m]).0 by {
                    if m < r0.len() {
                        assert(rem@[m] == r0[m]);
                        let n = choose|n: int| 0 <= n < q && pairs@[n] == r0[m].0;
                    } else {
                        assert(pairs@[q as int] == rem@[m].0);
                    }
                }
                assert forall|m: int| 0 <= m < rem@.len() implies {
                    let p = (#[trigger] rem@[m]).0;
                    &&& occurs(spaced_words(wv), p)
                    &&& pair_counted(v1, wv, vs, p)
                    &&& rem@[m].1 as int == pair_count(spaced_words(wv), p.0, p.1)
                } by {
                    if m < r0.len() {
                        assert(rem@[m] == r0[m]);
                    } else {
                        assert(occurs(char_views(sws@), pairs@[q as int]));
                    }
                }
                assert forall|n: int| 0 <= n < q + 1 && pair_counted(v1, wv, vs, #[trigger] pairs@[n]) implies exists|m: int|
                    0 <= m < rem@.len() && rem@[m].0 == pairs@[n] by {
                    if n < q {
                        let m = choose|m: int| 0 <= m < r0.len() && r0[m].0 == pairs@[n];
                        assert(rem@[m] == r0[m]);
                    } else {
                        assert(rem@[r0.len() as int].0 == pairs@[n]);
                    }
                }
            }
        }
        q = q + 1;
    }
    proof {
        let rem0 = rem_views(rem@);
        assert forall|x: int, y: int| 0 <= x < y < rem0.len() implies rem0[x].0 != rem0[y].0 by {
            assert(rem0[x].0 == rem@[x].0);
            assert(rem0[y].0 == rem@[y].0);
        }
        assert forall|m: int| 0 <= m < rem0.len() implies {
            let p = (#[trigger] rem0[m]).0;
            &&& occurs(spaced_words(wv), p)
            &&& pair_counted(v1, wv, vs, p)
            &&& rem0[m].1 == pair_count(spaced_words(wv), p.0, p.1)
        } by {
            assert(rem0[m] == (rem@[m].0, rem@[m].1 as int));
        }
        assert forall|p: (char, char)| occurs(spaced_words(wv), p) && pair_counted(v1, wv, vs, p) implies exists|m: int|
            0 <= m < rem0.len() && (#[trigger] rem0[m]).0 == p by {
            let (kk, ii) = choose|kk: int, ii: int|
                0 <= kk < spaced_words(wv).len() && 0 <= ii < spaced_words(wv)[kk].len() - 1
                    && #[trigger] spaced_words(wv)[kk][ii] == p.0 && spaced_words(wv)[kk][ii + 1] == p.1;
            assert(char_views(sws@)[kk] == sws@[kk]@);
            assert(pairs@.contains((sws@[kk]@[ii], sws@[kk]@[ii + 1])));
            let n = choose|n: int| 0 <= n < pairs@.len() && pairs@[n] == p;
            let m = choose|m: int| 0 <= m < rem@.len() && rem@[m].0 == pairs@[n];
            assert(rem0[m].0 == rem@[m].0);
        }
    }
    rem
}

/// Merges the most frequent counted pair while the vocabulary can grow.
fn run_merges(vocab: &mut Vec<(Vec<char>, u32)>, rem: Vec<((char, char), usize)>, vocab_size: usize, min_frequency: usize) -> (merges: Vec<(char, char)>)
    ensures
        merge_loop(entries(old(vocab)@), rem_views(rem@), vocab_size as int, min_frequency as int) == (
        entries(final(vocab)@), merges@),
{
    let ghost vs = vocab_size as int;
    let ghost mf = min_frequency as int;
    let ghost target = merge_loop(entries(vocab@), rem_views(rem@), vs, mf);
    let mut rem = rem;
    let mut merges: Vec<(char, char)> = Vec::new();
    assert(merges@ + target.1 =~= target.1);
    while vocab.len() < vocab_size
        invariant
            vs == vocab_size as int,
            mf == min_frequency as int,
            merge_loop(entries(vocab@), rem_views(rem@), vs, mf).0 == target.0,
            merges@ + merge_loop(entries(vocab@), rem_views(rem@), vs, mf).1 == target.1,
        ensures
            merge_loop(entries(vocab@), rem_views(rem@), vs, mf) == (entries(vocab@), Seq::<(char, char)>::empty()),
            merge_loop(entries(vocab@), rem_views(rem@), vs, mf).0 == target.0,
            merges@ + merge_loop(entries(vocab@), rem_views(rem@), vs, mf).1 == target.1,
        decreases rem.len(),
    {
        let ghost rv = rem_views(rem@);
        match best_index(&rem, min_frequency) {
            None => {
                proof {
                    assert(merges@ + Seq::<(char, char)>::empty() =~= merges@);
                }
                break;
            },
            Some(kk) => {
                assert(rv[kk as int] == (rem@[kk as int].0, rem@[kk as int].1 as int));
                let (p, _) = rem.remove(kk);
                let id = vocab.len() as u32;
                let t: Vec<char> = vec![p.0, p.1];
                let ghost m0 = merges@;
                merges.push(p);
                insert_token(vocab, t, id);
                proof {
                    assert(t@ =~= seq![p.0, p.1]);
                    assert(rem_views(rem@) =~= rv.remove(kk as int));
                    assert(merges@ + merge_loop(entries(vocab@), rem_views(rem@), vs, mf).1 =~= m0 + (seq![p]
                        + merge_loop(entries(vocab@), rem_views(rem@), vs, mf).1));
                }
            },
        }
    }
    assert(merges@ + Seq::<(char, char)>::empty() =~= merges@);
    merges
}

impl TrieTokenTokenizer {
    /// Whether `r` is what training on `text` gives: the 256 character
    /// tokens; then, word by word, the substrings of the word (read with a
    /// leading space) of at least two characters that begin at least
    /// `min_frequency` words, most frequent first, each added when new and
    /// while the vocabulary is smaller than `vocab_size`; then merges of the
    /// most frequent counted pairs of adjacent characters, each giving its
    /// two characters the next id, until the vocabulary is full or no pair
    /// is counted `min_frequency` times (among pairs counted equally often,
    /// which one goes first is not fixed).
    pub open spec fn trained(text: Seq<char>, vocab_size: usize, min_frequency: usize, r: TrieTokenTokenizer) -> bool {
        let ws = words(text);
        let v1 = add_words(base_entries(), ws, ws.len() as int, min_frequency as int, vocab_size as int);
        &&& r.min_freq == min_frequency
        &&& exists|rem: Seq<((char, char), int)>|
            pair_table(v1, ws, vocab_size as int, rem) && merge_loop(
                v1,
                rem,
                vocab_size as int,
                min_frequency as int,
            ) == (entries(r.vocab@), r.merges@)
    }

    /// Learns the vocabulary and merges of `text`.
    pub fn train(text: &str, vocab_size: usize, min_frequency: usize) -> (r: Self)
        requires
            concat(spaced_words(words(text@))).len() <= usize::MAX,
        ensures
            TrieTokenTokenizer::trained(text@, vocab_size, min_frequency, r),
    {
        let pieces = pre_tokenize_words(text);
        let mut ws: Vec<Vec<char>> = Vec::new();
        let mut k: usize = 0;
        while k < pieces.len()
            invariant
                k <= pieces@.len(),
                char_views(ws@) == views(pieces@).take(k as int),
            decreases pieces.len() - k,
        {
            let w = chars_of(pieces[k].as_str());
            proof {
                lemma_char_views_push(ws@, w);
            }
            ws.push(w);
            k = k + 1;
            assert(char_views(ws@) =~= views(pieces@).take(k as int));
        }
        assert(views(pieces@).take(pieces@.len() as int) =~= views(pieces@));
        let (mut vocab, sws) = substring_vocab(&ws, vocab_size, min_frequency);
        let ghost v1 = entries(vocab@);
        let rem = pair_counts(&vocab, &sws, Ghost(char_views(ws@)), ws.len() > 0, vocab_size);
        let ghost rem0 = rem_views(rem@);
        let merges = run_merges(&mut vocab, rem, vocab_size, min_frequency);
        TrieTokenTokenizer { vocab, merges, min_freq: min_frequency }
    }
}

/// `w` with each adjacent pair of symbols `f`, `s` joined, scanning from the left.
pub open spec fn tt_pass(w: Seq<Seq<char>>, f: char, s: char) -> Seq<Seq<char>>
    decreases w.len(),
{
    if w.len() == 0 {
        Seq::empty()
    } else if w.len() >= 2 && w[0] == seq![f] && w[1] == seq![s] {
        seq![seq![f, s]] + tt_pass(w.skip(2), f, s)
    } else {
        seq![w[0]] + tt_pass(w.skip(1), f, s)
    }
}

/// A merge pass only regroups symbols: the characters they spell, in
/// order, are the same before and after.
pub proof fn law_tt_pass_keeps_text(w: Seq<Seq<char>>, f: char, s: char)
    ensures
        concat(tt_pass(w, f, s)) == concat(w),
    decreases w.len(),
{
    if w.len() > 0 {
        let r = tt_pass(w, f, s);
        lemma_concat_first(w);
        if w.len() >= 2 && w[0] == seq![f] && w[1] == seq![s] {
            law_tt_pass_keeps_text(w.skip(2), f, s);
            lemma_concat_first(w.skip(1));
            assert(w.skip(1).skip(1) =~= w.skip(2));
            lemma_concat_append(seq![seq![f, s]], tt_pass(w.skip(2), f, s));
            lemma_concat_single(seq![f, s]);
            assert(seq![f, s] =~= w[0] + w[1]);
            assert(concat(w) =~= w[0] + w[1] + concat(w.skip(2)));
        } else {
            law_tt_pass_keeps_text(w.skip(1), f, s);
            lemma_concat_append(seq![w[0]], tt_pass(w.skip(1), f, s));
            lemma_concat_single(w[0]);
        }
    }
}

/// The first symbol after a merge pass is the first symbol before it, or
/// the pair joined.
proof fn lemma_tt_pass_first(w: Seq<Seq<char>>, f: char, s: char)
    requires
        w.len() > 0,
    ensures
        tt_pass(w, f, s).len() > 0,
        tt_pass(w, f, s)[0] == w[0] || tt_pass(w, f, s)[0] == seq![f, s],
        tt_pass(w, f, s)[0] == seq![f, s] || !(w.len() >= 2 && w[0] == seq![f] && w[1] == seq![s]),
{
}

/// After a merge pass, no symbol `f` is directly followed by a symbol `s`:
/// every such pair has been joined.
pub proof fn law_tt_pass_leaves_no_pair(w: Seq<Seq<char>>, f: char, s: char)
    ensures
        forall|i: int|
            0 <= i < tt_pass(w, f, s).len() - 1 ==> !(#[trigger] tt_pass(w, f, s)[i] == seq![f] && tt_pass(w, f, s)[i
                + 1] == seq![s]),
    decreases w.len(),
{
    let r = tt_pass(w, f, s);
    if w.len() > 0 {
        if w.len() >= 2 && w[0] == seq![f] && w[1] == seq![s] {
            let rest = tt_pass(w.skip(2), f, s);
            law_tt_pass_leaves_no_pair(w.skip(2), f, s);
            assert(r == seq![seq![f, s]] + rest);
            assert forall|i: int| 0 <= i < r.len() - 1 implies !(#[trigger] r[i] == seq![f] && r[i + 1] == seq![s]) by {
                if i == 0 {
                    assert(seq![f, s].len() != seq![f].len());
                } else {
                    assert(r[i] == rest[i - 1] && r[i + 1] == rest[i]);
                }
            }
        } else {
            let rest = tt_pass(w.skip(1), f, s);
            law_tt_pass_leaves_no_pair(w.skip(1), f, s);
            assert(r == seq![w[0]] + rest);
            assert forall|i: int| 0 <= i < r.len() - 1 implies !(#[trigger] r[i] == seq![f] && r[i + 1] == seq![s]) by {
                if i == 0 {
                    lemma_tt_pass_first(w.skip(1), f, s);
                    assert(w.skip(1)[0] == w[1]);
                    if r[0] == seq![f] && r[1] == seq![s] {
                        assert(rest[0] == seq![s]);
                        assert(seq![f, s].len() != seq![s].len());
                        assert(rest[0] == w[1]);
                    }
                } else {
                    assert(r[i] == rest[i - 1] && r[i + 1] == rest[i]);
                }
            }
        }
    }
}

/// `w` after every merge, in order.
pub open spec fn tt_merges(w: Seq<Seq<char>>, merges: Seq<(char, char)>) -> Seq<Seq<char>>
    decreases merges.len(),
{
    if merges.len() == 0 {
        w
    } else {
        tt_merges(tt_pass(w, merges[0].0, merges[0].1), merges.drop_first())
    }
}

/// Applying merges never changes the characters the symbols spell.
pub proof fn law_tt_merges_keep_text(w: Seq<Seq<char>>, merges: Seq<(char, char)>)
    ensures
        concat(tt_merges(w, merges)) == concat(w),
    decreases merges.len(),
{
    if merges.len() > 0 {
        law_tt_pass_keeps_text(w, merges[0].0, merges[0].1);
        law_tt_merges_keep_text(tt_pass(w, merges[0].0, merges[0].1), merges.drop_first());
    }
}

/// The symbols of the words, each read with a leading space and merged.
pub open spec fn tt_tokens(ws: Seq<Seq<char>>, merges: Seq<(char, char)>) -> Seq<Seq<char>>
    decreases ws.len(),
{
    if ws.len() == 0 {
        Seq::empty()
    } else {
        tt_tokens(ws.drop_last(), merges) + tt_merges(singletons(spaced(ws.last())), merges)
    }
}

/// The ids of the symbols that are tokens; the others are dropped.
pub open spec fn tt_ids(v: Seq<(Seq<char>, u32)>, toks: Seq<Seq<char>>) -> Seq<u32>
    decreases toks.len(),
{
    if toks.len() == 0 {
        Seq::empty()
    } else {
        tt_ids(v, toks.drop_last()) + match key_pos(v, toks.last()) {
            Some(k) => seq![v[k].1],
            None => Seq::empty(),
        }
    }
}

/// The first position at or after `i` of an entry with id `id`.
pub open spec fn id_pos_from(v: Seq<(Seq<char>, u32)>, id: u32, i: int) -> Option<int>
    decreases v.len() - i,
{
    if i < 0 || i >= v.len() {
        None
    } else if v[i].1 == id {
        Some(i)
    } else {
        id_pos_from(v, id, i + 1)
    }
}

/// `t` without its leading spaces.
pub open spec fn trim_spaces(t: Seq<char>) -> Seq<char>
    decreases t.len(),
{
    if t.len() > 0 && t[0] == ' ' {
        trim_spaces(t.skip(1))
    } else {
        t
    }
}

/// The text of the ids: for each, the first token with that id, without
/// its leading spaces; ids of no token are skipped.
pub open spec fn tt_text(v: Seq<(Seq<char>, u32)>, ids: Seq<u32>) -> Seq<char>
    decreases ids.len(),
{
    if ids.len() == 0 {
        Seq::empty()
    } else {
        tt_text(v, ids.drop_last()) + match id_pos_from(v, ids.last(), 0) {
            Some(k) => trim_spaces(v[k].0),
            None => Seq::empty(),
        }
    }
}

/// One merge pass over the symbols of a word.
fn tt_pass_exec(w: &Vec<Vec<char>>, f: char, s: char) -> (r: Vec<Vec<char>>)
    ensures
        char_views(r@) == tt_pass(char_views(w@), f, s),
{
    let ghost v = char_views(w@);
    let mut out: Vec<Vec<char>> = Vec::new();
    let mut i: usize = 0;
    assert(v.skip(0) =~= v);
    while i < w.len()
        invariant
            i <= w@.len(),
            v == char_views(w@),
            char_views(out@) + tt_pass(v.skip(i as int), f, s) == tt_pass(v, f, s),
        decreases w.len() - i,
    {
        let ghost rest = v.skip(i as int);
        let ghost o0 = char_views(out@);
        assert(rest[0] == w@[i as int]@);
        if i + 1 < w.len() && w[i].len() == 1 && w[i][0] == f && w[i + 1].len() == 1 && w[i + 1][0] == s {
            let t: Vec<char> = vec![f, s];
            proof {
                assert(rest[1] == w@[i + 1]@);
                assert(rest[0] =~= seq![f]);
                assert(rest[1] =~= seq![s]);
                assert(t@ =~= seq![f, s]);
                lemma_char_views_push(out@, t);
                assert(rest.skip(2) =~= v.skip(i + 2));
            }
            out.push(t);
            i = i + 2;
            assert(char_views(out@) + tt_pass(v.skip(i as int), f, s) =~= o0 + tt_pass(rest, f, s));
        } else {
            proof {
                if rest.len() >= 2 && rest[0] == seq![f] && rest[1] == seq![s] {
                    assert(rest[1] == w@[i + 1]@);
                    assert(rest[0][0] == f);
                    assert(rest[1][0] == s);
                }
            }
            let c = copy_chars(w[i].as_slice());
            proof {
                lemma_char_views_push(out@, c);
                assert(rest.skip(1) =~= v.skip(i + 1));
            }
            out.push(c);
            i = i + 1;
            assert(char_views(out@) + tt_pass(v.skip(i as int), f, s) =~= o0 + tt_pass(rest, f, s));
        }
    }
    assert(v.skip(i as int) =~= Seq::<Seq<char>>::empty());
    assert(char_views(out@) =~= tt_pass(v, f, s));
    out
}

impl TrieTokenTokenizer {
    /// The symbols of `text`: each word, with a leading space, split into
    /// characters and merged.
    fn tokenize(&self, text: &str) -> (r: Vec<Vec<char>>)
        ensures
            char_views(r@) == tt_tokens(words(text@), self.merges@),
    {
        let ms = &self.merges;
        let pieces = pre_tokenize_words(text);
        let ghost ws = views(pieces@);
        let mut result: Vec<Vec<char>> = Vec::new();
        let mut k: usize = 0;
        while k < pieces.len()
            invariant
                k <= pieces@.len(),
                ws == views(pieces@),
                *ms == self.merges,
                char_views(result@) == tt_tokens(ws.take(k as int), self.merges@),
            decreases pieces.len() - k,
        {
            let cs = chars_of(pieces[k].as_str());
            let mut word: Vec<Vec<char>> = Vec::new();
            let first: Vec<char> = vec![' '];
            proof {
                lemma_char_views_push(word@, first);
                assert(first@ =~= seq![' ']);
            }
            word.push(first);
            let mut i: usize = 0;
            while i < cs.len()
                invariant
                    i <= cs@.len(),
                    char_views(word@) == singletons(spaced(cs@)).take(i + 1),
                decreases cs.len() - i,
            {
                let sym: Vec<char> = vec![cs[i]];
                proof {
                    lemma_char_views_push(word@, sym);
                    assert(sym@ =~= seq![cs@[i as int]]);
                    assert(spaced(cs@)[i + 1] == cs@[i as int]);
                }
                word.push(sym);
                i = i + 1;
                assert(char_views(word@) =~= singletons(spaced(cs@)).take(i + 1));
            }
            assert(singletons(spaced(cs@)).take(cs@.len() as int + 1) =~= singletons(spaced(cs@)));
            let mut m: usize = 0;
            assert(self.merges@.skip(0) =~= self.merges@);
            while m < ms.len()
                invariant
                    m <= self.merges@.len(),
                    *ms == self.merges,
                    tt_merges(char_views(word@), self.merges@.skip(m as int)) == tt_merges(
                        singletons(spaced(cs@)),
                        self.merges@,
                    ),
                decreases ms.len() - m,
            {
                let ghost rest = self.merges@.skip(m as int);
                assert(rest[0] == self.merges@[m as int]);
                assert(rest.drop_first() =~= self.merges@.skip(m + 1));
                word = tt_pass_exec(&word, ms[m].0, ms[m].1);
                m = m + 1;
            }
            assert(self.merges@.skip(m as int) =~= Seq::<(char, char)>::empty());
            let ghost r0 = char_views(result@);
            let mut j: usize = 0;
            while j < word.len()
                invariant
                    j <= word@.len(),
                    char_views(result@) == r0 + char_views(word@).take(j as int),
                decreases word.len() - j,
            {
                let sym = copy_chars(word[j].as_slice());
                proof {
                    lemma_char_views_push(result@, sym);
                }
                result.push(sym);
                j = j + 1;
                assert(char_views(result@) =~= r0 + char_views(word@).take(j as int));
            }
            proof {
                assert(char_views(word@).take(word@.len() as int) =~= char_views(word@));
                assert(ws.take(k + 1).drop_last() =~= ws.take(k as int));
                assert(ws.take(k + 1).last() == cs@);
            }
            k = k + 1;
        }
        assert(ws.take(pieces@.len() as int) =~= ws);
        result
    }
}

impl Tokenizer for TrieTokenTokenizer {
    /// The ids of the symbols of `text` that are tokens.
    fn encode(&self, text: &str) -> (r: Vec<u32>)
        ensures
            r@ == tt_ids(entries(self.vocab@), tt_tokens(words(text@), self.merges@)),
    {
        let syms = self.tokenize(text);
        let ghost v = entries(self.vocab@);
        let ghost sv = char_views(syms@);
        let mut ids: Vec<u32> = Vec::new();
        let mut k: usize = 0;
        while k < syms.len()
            invariant
                k <= syms@.len(),
                v == entries(self.vocab@),
                sv == char_views(syms@),
                ids@ == tt_ids(v, sv.take(k as int)),
            decreases syms.len() - k,
        {
            assert(sv.take(k + 1).drop_last() =~= sv.take(k as int));
            assert(sv.take(k + 1).last() == syms@[k as int]@);
            match key_pos_exec(&self.vocab, syms[k].as_slice()) {
                Some(i) => {
                    assert(v[i as int] == (self.vocab@[i as int].0@, self.vocab@[i as int].1));
                    ids.push(self.vocab[i].1);
                },
                None => {},
            }
            k = k + 1;
            assert(ids@ =~= tt_ids(v, sv.take(k as int)));
        }
        assert(sv.take(syms@.len() as int) =~= sv);
        ids
    }

    /// The tokens of the ids, without their leading spaces, run together.
    fn decode(&self, tokens: &[u32]) -> (r: String)
        ensures
            r@ == tt_text(entries(self.vocab@), tokens@),
    {
        let ghost v = entries(self.vocab@);
        let mut out: Vec<char> = Vec::new();
        let mut k: usize = 0;
        while k < tokens.len()
            invariant
                k <= tokens@.len(),
                v == entries(self.vocab@),
                out@ == tt_text(v, tokens@.take(k as int)),
            decreases tokens.len() - k,
        {
            assert(tokens@.take(k + 1).drop_last() =~= tokens@.take(k as int));
            let id = tokens[k];
            let mut i: usize = 0;
            let mut pos: Option<usize> = None;
            while i < self.vocab.len() && pos.is_none()
                invariant
                    i <= self.vocab@.len(),
                    v == entries(self.vocab@),
                    id_pos_from(v, id, 0) == match pos {
                        Some(p) => Some(p as int),
                        None => id_pos_from(v, id, i as int),
                    },
                    pos matches Some(p) ==> p < self.vocab@.len(),
                decreases self.vocab@.len() - i, if pos is None { 1int } else { 0int },
            {
                assert(v[i as int] == (self.vocab@[i as int].0@, self.vocab@[i as int].1));
                if self.vocab[i].1 == id {
                    pos = Some(i);
                } else {
                    i = i + 1;
                }
            }
            if let Some(p) = pos {
                let t = &self.vocab[p].0;
                assert(v[p as int].0 == t@);
                let mut s0: usize = 0;
                assert(t@.skip(0) =~= t@);
                while s0 < t.len() && t[s0] == ' '
                    invariant
                        s0 <= t@.len(),
                        trim_spaces(t@.skip(s0 as int)) == trim_spaces(t@),
                    decreases t.len() - s0,
                {
                    assert(t@.skip(s0 as int).skip(1) =~= t@.skip(s0 + 1));
                    s0 = s0 + 1;
                }
                let ghost o0 = out@;
                let mut j: usize = s0;
                while j < t.len()
                    invariant
                        s0 <= j <= t@.len(),
                        out@ == o0 + t@.subrange(s0 as int, j as int),
                    decreases t.len() - j,
                {
                    out.push(t[j]);
                    j = j + 1;
                    assert(out@ =~= o0 + t@.subrange(s0 as int, j as int));
                }
                assert(t@.subrange(s0 as int, t@.len() as int) =~= t@.skip(s0 as int));
            } else {
                assert(id_pos_from(v, id, i as int) is None);
            }
            k = k + 1;
            assert(out@ =~= tt_text(v, tokens@.take(k as int)));
        }
        assert(tokens@.take(tokens@.len() as int) =~= tokens@);
        string_of(out.as_slice())
    }

    /// The number of tokens.
    fn vocab_size(&self) -> (r: usize)
        ensures
            r == self.vocab@.len(),
    {
        self.vocab.len()
    }
}

} // verus!
