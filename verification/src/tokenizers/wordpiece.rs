//! WordPiece tokenizer: a vocabulary of single characters ranked by
//! frequency, and greedy longest-match splitting of words.
use vstd::prelude::*;

use crate::tokenizers::bpe::{find_from, find_token, ids_of};
use crate::tokenizers::pairs::{char_views, copy_chars, lemma_char_views_push};
use crate::tokenizers::{chars_of, lowercase, pre_tokenize_words, string_of, to_lowercase, views, words, Tokenizer};

verus! {

/// A WordPiece tokenizer: token `i` of `vocab` has id `i`; token 0 is the
/// unknown token `[UNK]`, the others single characters.
pub struct WordPieceTokenizer {
    pub vocab: Vec<Vec<char>>,
    pub unk_token: Vec<char>,
    pub max_input_chars: usize,
}

/// The unknown token.
pub open spec fn unk() -> Seq<char> {
    seq!['[', 'U', 'N', 'K', ']']
}

/// The number of occurrences of `c` in `w`.
pub open spec fn char_count(w: Seq<char>, c: char) -> int
    decreases w.len(),
{
    if w.len() == 0 {
        0
    } else {
        char_count(w.drop_last(), c) + if w.last() == c { 1int } else { 0int }
    }
}

/// The number of words of `ls` equal to `l`.
pub open spec fn word_freq(ls: Seq<Seq<char>>, l: Seq<char>) -> int
    decreases ls.len(),
{
    if ls.len() == 0 {
        0
    } else {
        word_freq(ls.drop_last(), l) + if ls.last() == l { 1int } else { 0int }
    }
}

/// The frequency of `c` over the first `k` words: each occurrence in word
/// `j` counts as many times as there are words with the same lowercase form.
pub open spec fn freq_upto(ws: Seq<Seq<char>>, c: char, k: int) -> int
    decreases k,
{
    if k <= 0 {
        0
    } else {
        freq_upto(ws, c, k - 1) + char_count(ws[k - 1], c) * word_freq(
            ws.map_values(|w: Seq<char>| lowercase(w)),
            lowercase(ws[k - 1]),
        )
    }
}

/// The frequency of `c` in the words.
pub open spec fn char_freq(ws: Seq<Seq<char>>, c: char) -> int {
    freq_upto(ws, c, ws.len() as int)
}

/// `c` occurs in one of the words.
pub open spec fn in_words(ws: Seq<Seq<char>>, c: char) -> bool {
    exists|j: int, i: int| 0 <= j < ws.len() && 0 <= i < ws[j].len() && #[trigger] ws[j][i] == c
}

/// `chosen` lists distinct characters of the words, most frequent first,
/// `n` of them or all if there are fewer, and no character left out is
/// more frequent than the last one chosen.
pub open spec fn top_chars(ws: Seq<Seq<char>>, chosen: Seq<char>, n: int) -> bool {
    &&& chosen.no_duplicates()
    &&& forall|i: int| 0 <= i < chosen.len() ==> in_words(ws, #[trigger] chosen[i])
    &&& forall|i: int, j: int| 0 <= i < j < chosen.len() ==> char_freq(ws, #[trigger] chosen[i]) >= char_freq(
        ws,
        #[trigger] chosen[j],
    )
    &&& chosen.len() <= n
    &&& chosen.len() < n ==> forall|c: char| in_words(ws, c) ==> chosen.contains(c)
    &&& chosen.len() > 0 ==> forall|c: char|
        in_words(ws, c) && !chosen.contains(c) ==> char_freq(ws, c) <= char_freq(ws, chosen.last())
}

proof fn lemma_char_count_bounds(w: Seq<char>, c: char)
    ensures
        0 <= char_count(w, c) <= w.len(),
    decreases w.len(),
{
    if w.len() > 0 {
        lemma_char_count_bounds(w.drop_last(), c);
    }
}

proof fn lemma_word_freq_bounds(ls: Seq<Seq<char>>, l: Seq<char>)
    ensures
        0 <= word_freq(ls, l) <= ls.len(),
    decreases ls.len(),
{
    if ls.len() > 0 {
        lemma_word_freq_bounds(ls.drop_last(), l);
    }
}

proof fn lemma_freq_upto_mono(ws: Seq<Seq<char>>, c: char, k: int, m: int)
    requires
        0 <= k <= m <= ws.len(),
    ensures
        0 <= freq_upto(ws, c, k) <= freq_upto(ws, c, m),
    decreases m - k,
{
    if k < m {
        lemma_freq_upto_mono(ws, c, k, m - 1);
        lemma_char_count_bounds(ws[m - 1], c);
        lemma_word_freq_bounds(ws.map_values(|w: Seq<char>| lowercase(w)), lowercase(ws[m - 1]));
        let a = char_count(ws[m - 1], c);
        let b = word_freq(ws.map_values(|w: Seq<char>| lowercase(w)), lowercase(ws[m - 1]));
        assert(a * b >= 0) by (nonlinear_arith)
            requires
                a >= 0,
                b >= 0,
        ;
    } else {
        lemma_freq_upto_nonneg(ws, c, k);
    }
}

proof fn lemma_freq_upto_nonneg(ws: Seq<Seq<char>>, c: char, k: int)
    requires
        0 <= k <= ws.len(),
    ensures
        0 <= freq_upto(ws, c, k),
    decreases k,
{
    if k > 0 {
        lemma_freq_upto_nonneg(ws, c, k - 1);
        lemma_char_count_bounds(ws[k - 1], c);
        lemma_word_freq_bounds(ws.map_values(|w: Seq<char>| lowercase(w)), lowercase(ws[k - 1]));
        let a = char_count(ws[k - 1], c);
        let b = word_freq(ws.map_values(|w: Seq<char>| lowercase(w)), lowercase(ws[k - 1]));
        assert(a * b >= 0) by (nonlinear_arith)
            requires
                a >= 0,
                b >= 0,
        ;
    }
}

/// The number of occurrences of `c` in `w`.
fn count_char(w: &Vec<char>, c: char) -> (r: usize)
    ensures
        r == char_count(w@, c),
{
    let mut n: usize = 0;
    let mut i: usize = 0;
    while i < w.len()
        invariant
            i <= w@.len(),
            n == char_count(w@.take(i as int), c),
            n <= i,
        decreases w.len() - i,
    {
        assert(w@.take(i + 1).drop_last() =~= w@.take(i as int));
        if w[i] == c {
            n = n + 1;
        }
        i = i + 1;
    }
    assert(w@.take(w@.len() as int) =~= w@);
    n
}

/// Whether two character sequences are equal.
fn same_chars(a: &[char], b: &[char]) -> (r: bool)
    ensures
        r == (a@ == b@),
{
    if a.len() != b.len() {
        return false;
    }
    let mut i: usize = 0;
    while i < a.len()
        invariant
            i <= a@.len(),
            a@.len() == b@.len(),
            forall|j: int| 0 <= j < i ==> a@[j] == b@[j],
        decreases a.len() - i,
    {
        if a[i] != b[i] {
            return false;
        }
        i = i + 1;
    }
    assert(a@ =~= b@);
    true
}

/// The number of words of `ls` equal to `l`.
fn count_word(ls: &Vec<Vec<char>>, l: &Vec<char>) -> (r: usize)
    ensures
        r == word_freq(char_views(ls@), l@),
{
    let ghost v = char_views(ls@);
    let mut n: usize = 0;
    let mut i: usize = 0;
    while i < ls.len()
        invariant
            i <= ls@.len(),
            v == char_views(ls@),
            n == word_freq(v.take(i as int), l@),
            n <= i,
        decreases ls.len() - i,
    {
        assert(v.take(i + 1).drop_last() =~= v.take(i as int));
        assert(v.take(i + 1).last() == ls@[i as int]@);
        if same_chars(ls[i].as_slice(), l.as_slice()) {
            n = n + 1;
        }
        i = i + 1;
    }
    assert(v.take(ls@.len() as int) =~= v);
    n
}

/// The lowercase forms of the words.
pub open spec fn lowers(ws: Seq<Seq<char>>) -> Seq<Seq<char>> {
    ws.map_values(|w: Seq<char>| lowercase(w))
}

/// The frequency of `c` in the words `ws`, whose lowercase forms are `ls`.
fn freq_of(ws: &Vec<Vec<char>>, ls: &Vec<Vec<char>>, c: char) -> (r: usize)
    requires
        char_views(ls@) == lowers(char_views(ws@)),
        char_freq(char_views(ws@), c) <= usize::MAX,
    ensures
        r == char_freq(char_views(ws@), c),
{
    let ghost v = char_views(ws@);
    let mut total: usize = 0;
    let mut j: usize = 0;
    while j < ws.len()
        invariant
            j <= ws@.len(),
            v == char_views(ws@),
            char_views(ls@) == lowers(v),
            char_freq(v, c) <= usize::MAX,
            total == freq_upto(v, c, j as int),
        decreases ws.len() - j,
    {
        assert(char_views(ls@).len() == ls@.len());
        assert(lowers(v).len() == v.len());
        let cc = count_char(&ws[j], c);
        let wf = count_word(ls, &ls[j]);
        proof {
            assert(v[j as int] == ws@[j as int]@);
            assert(char_views(ls@)[j as int] == ls@[j as int]@);
            assert(lowers(v)[j as int] == lowercase(v[j as int]));
            assert(ls@[j as int]@ == lowercase(v[j as int]));
            lemma_freq_upto_mono(v, c, j + 1, v.len() as int);
            lemma_freq_upto_nonneg(v, c, j as int);
            assert(cc * wf <= usize::MAX);
        }
        total = total + cc * wf;
        j = j + 1;
    }
    total
}

/// The distinct characters of the words, in order of first occurrence.
fn distinct_chars(ws: &Vec<Vec<char>>) -> (r: Vec<char>)
    ensures
        r@.no_duplicates(),
        forall|i: int| 0 <= i < r@.len() ==> in_words(char_views(ws@), #[trigger] r@[i]),
        forall|c: char| in_words(char_views(ws@), c) ==> r@.contains(c),
{
    let ghost v = char_views(ws@);
    let mut out: Vec<char> = Vec::new();
    let mut j: usize = 0;
    while j < ws.len()
        invariant
            j <= ws@.len(),
            v == char_views(ws@),
            out@.no_duplicates(),
            forall|i: int| 0 <= i < out@.len() ==> in_words(v, #[trigger] out@[i]),
            forall|jj: int, i: int| 0 <= jj < j && 0 <= i < v[jj].len() ==> out@.contains(#[trigger] v[jj][i]),
        decreases ws.len() - j,
    {
        let w = &ws[j];
        let mut i: usize = 0;
        while i < w.len()
            invariant
                j < ws@.len(),
                *w == ws@[j as int],
                v == char_views(ws@),
                v[j as int] == w@,
                i <= w@.len(),
                out@.no_duplicates(),
                forall|ii: int| 0 <= ii < out@.len() ==> in_words(v, #[trigger] out@[ii]),
                forall|jj: int, ii: int| 0 <= jj < j && 0 <= ii < v[jj].len() ==> out@.contains(#[trigger] v[jj][ii]),
                forall|ii: int| 0 <= ii < i ==> out@.contains(#[trigger] w@[ii]),
            decreases w.len() - i,
        {
            let c = w[i];
            let mut found = false;
            let mut k: usize = 0;
            while k < out.len()
                invariant
                    k <= out@.len(),
                    found == (exists|kk: int| 0 <= kk < k && out@[kk] == c),
                decreases out.len() - k,
            {
                if out[k] == c {
                    found = true;
                }
                k = k + 1;
            }
            if !found {
                let ghost o0 = out@;
                out.push(c);
                proof {
                    assert(v[j as int][i as int] == c);
                    assert(in_words(v, c));
                    assert forall|a: int, b: int| 0 <= a < b < out@.len() implies out@[a] != out@[b] by {
                        if b == o0.len() {
                            assert(out@[a] == o0[a]);
                        }
                    }
                    assert forall|x: char| o0.contains(x) implies out@.contains(x) by {
                        let m = choose|m: int| 0 <= m < o0.len() && o0[m] == x;
                        assert(out@[m] == x);
                    }
                    assert(out@[o0.len() as int] == c);
                }
            }
            i = i + 1;
        }
        j = j + 1;
    }
    proof {
        assert forall|c: char| in_words(v, c) implies out@.contains(c) by {
            let (jj, ii) = choose|jj: int, ii: int| 0 <= jj < v.len() && 0 <= ii < v[jj].len() && #[trigger] v[jj][ii] == c;
        }
    }
    out
}

/// The `n` most frequent characters of the words (all if there are fewer),
/// most frequent first.
fn top_by_freq(ws: &Vec<Vec<char>>, ls: &Vec<Vec<char>>, n: usize) -> (r: Vec<char>)
    requires
        char_views(ls@) == lowers(char_views(ws@)),
        forall|c: char| char_freq(char_views(ws@), c) <= usize::MAX,
    ensures
        top_chars(char_views(ws@), r@, n as int),
{
    let ghost v = char_views(ws@);
    let mut rest = distinct_chars(ws);
    let mut chosen: Vec<char> = Vec::new();
    while chosen.len() < n && rest.len() > 0
        invariant
            v == char_views(ws@),
            char_views(ls@) == lowers(v),
            forall|c: char| char_freq(v, c) <= usize::MAX,
            chosen@.len() <= n,
            chosen@.no_duplicates(),
            rest@.no_duplicates(),
            forall|i: int, j: int| 0 <= i < chosen@.len() && 0 <= j < rest@.len() ==> chosen@[i] != rest@[j],
            forall|i: int| 0 <= i < chosen@.len() ==> in_words(v, #[trigger] chosen@[i]),
            forall|i: int| 0 <= i < rest@.len() ==> in_words(v, #[trigger] rest@[i]),
            forall|c: char| in_words(v, c) ==> chosen@.contains(c) || rest@.contains(c),
            forall|i: int, j: int| 0 <= i < j < chosen@.len() ==> char_freq(v, #[trigger] chosen@[i]) >= char_freq(
                v,
                #[trigger] chosen@[j],
            ),
            chosen@.len() > 0 ==> forall|j: int| 0 <= j < rest@.len() ==> char_freq(v, #[trigger] rest@[j]) <= char_freq(
                v,
                chosen@.last(),
            ),
        decreases rest.len(),
    {
        let mut best: usize = 0;
        let mut best_f = freq_of(ws, ls, rest[0]);
        let mut j: usize = 1;
        while j < rest.len()
            invariant
                1 <= j <= rest@.len(),
                best < rest@.len(),
                v == char_views(ws@),
                char_views(ls@) == lowers(v),
                forall|c: char| char_freq(v, c) <= usize::MAX,
                best_f == char_freq(v, rest@[best as int]),
                forall|m: int| 0 <= m < j ==> char_freq(v, #[trigger] rest@[m]) <= best_f,
            decreases rest.len() - j,
        {
            let f = freq_of(ws, ls, rest[j]);
            if f > best_f {
                best = j;
                best_f = f;
            }
            j = j + 1;
        }
        let ghost r0 = rest@;
        let ghost c0 = chosen@;
        let c = rest.remove(best);
        chosen.push(c);
        proof {
            assert(c == r0[best as int]);
            assert forall|jj: int| 0 <= jj < rest@.len() implies #[trigger] rest@[jj] == (if jj < best {
                r0[jj]
            } else {
                r0[jj + 1]
            }) by {}
            assert forall|a: int, b: int| 0 <= a < b < chosen@.len() implies chosen@[a] != chosen@[b] by {
                if b == c0.len() {
                    assert(chosen@[a] == c0[a]);
                }
            }
            assert forall|a: int, b: int| 0 <= a < b < rest@.len() implies rest@[a] != rest@[b] by {
                let ia = if a < best { a } else { a + 1 };
                let ib = if b < best { b } else { b + 1 };
                assert(r0[ia] != r0[ib]);
            }
            assert forall|i: int, j2: int| 0 <= i < chosen@.len() && 0 <= j2 < rest@.len() implies chosen@[i]
                != rest@[j2] by {
                let ij = if j2 < best { j2 } else { j2 + 1 };
                if i < c0.len() {
                    assert(chosen@[i] == c0[i]);
                    assert(c0[i] != r0[ij]);
                } else {
                    assert(r0[best as int] != r0[ij]);
                }
            }
            assert forall|i: int| 0 <= i < chosen@.len() implies in_words(v, #[trigger] chosen@[i]) by {
                if i < c0.len() {
                    assert(chosen@[i] == c0[i]);
                }
            }
            assert forall|i: int| 0 <= i < rest@.len() implies in_words(v, #[trigger] rest@[i]) by {
                let ij = if i < best { i } else { i + 1 };
                assert(in_words(v, r0[ij]));
            }
            assert forall|x: char| in_words(v, x) implies chosen@.contains(x) || rest@.contains(x) by {
                if c0.contains(x) {
                    let m = choose|m: int| 0 <= m < c0.len() && c0[m] == x;
                    assert(chosen@[m] == x);
                } else {
                    let m = choose|m: int| 0 <= m < r0.len() && r0[m] == x;
                    if m == best {
                        assert(chosen@[c0.len() as int] == x);
                    } else if m < best {
                        assert(rest@[m] == x);
                    } else {
                        assert(rest@[m - 1] == x);
                    }
                }
            }
            assert forall|i: int, j2: int| 0 <= i < j2 < chosen@.len() implies char_freq(v, #[trigger] chosen@[i])
                >= char_freq(v, #[trigger] chosen@[j2]) by {
                if j2 == c0.len() {
                    assert(chosen@[i] == c0[i]);
                    assert(char_freq(v, r0[best as int]) <= char_freq(v, c0.last()));
                    if i < c0.len() - 1 {
                        assert(char_freq(v, c0[i]) >= char_freq(v, c0[c0.len() - 1]));
                    }
                } else {
                    assert(chosen@[i] == c0[i]);
                    assert(chosen@[j2] == c0[j2]);
                }
            }
            assert forall|jj: int| 0 <= jj < rest@.len() implies char_freq(v, #[trigger] rest@[jj]) <= char_freq(
                v,
                chosen@.last(),
            ) by {
                let ij = if jj < best { jj } else { jj + 1 };
                assert(char_freq(v, r0[ij]) <= best_f);
            }
        }
    }
    proof {
        if chosen@.len() < n {
            assert(rest@.len() == 0);
        }
        assert forall|x: char| in_words(v, x) && !chosen@.contains(x) && chosen@.len() > 0 implies char_freq(v, x)
            <= char_freq(v, chosen@.last()) by {
            let m = choose|m: int| 0 <= m < rest@.len() && rest@[m] == x;
        }
    }
    chosen
}

/// The piece of `cs` from `start` to `end`, marked `##` when it continues a word.
pub open spec fn piece(cs: Seq<char>, start: int, end: int) -> Seq<char> {
    if start == 0 {
        cs.subrange(start, end)
    } else {
        seq!['#', '#'] + cs.subrange(start, end)
    }
}

/// The largest end at most `end` whose piece from `start` is in the vocabulary.
pub open spec fn longest_end(vocab: Seq<Seq<char>>, cs: Seq<char>, start: int, end: int) -> Option<int>
    decreases end - start,
{
    if end <= start || start < 0 || end > cs.len() {
        None
    } else if vocab.contains(piece(cs, start, end)) {
        Some(end)
    } else {
        longest_end(vocab, cs, start, end - 1)
    }
}

/// The greedy longest-match split of `cs` from `start`, if every step finds
/// a piece.
pub open spec fn wp_pieces(vocab: Seq<Seq<char>>, cs: Seq<char>, start: int) -> Option<Seq<Seq<char>>>
    decreases cs.len() - start,
{
    if start < 0 || start >= cs.len() {
        Some(Seq::empty())
    } else {
        match longest_end(vocab, cs, start, cs.len() as int) {
            None => None,
            Some(e) => if e <= start || e > cs.len() {
                None
            } else {
                match wp_pieces(vocab, cs, e) {
                    None => None,
                    Some(rest) => Some(seq![piece(cs, start, e)] + rest),
                }
            },
        }
    }
}

/// The tokens of one lowercase word: the unknown token when its UTF-8 form
/// is longer than `max` bytes or when it cannot be split.
pub open spec fn wp_word(vocab: Seq<Seq<char>>, unk_t: Seq<char>, max: int, w: Seq<char>) -> Seq<Seq<char>> {
    if vstd::utf8::encode_utf8(w).len() > max {
        seq![unk_t]
    } else {
        match wp_pieces(vocab, w, 0) {
            Some(p) => p,
            None => seq![unk_t],
        }
    }
}

/// The tokens of the words, each lowercased first.
pub open spec fn wp_tokens(vocab: Seq<Seq<char>>, unk_t: Seq<char>, max: int, ws: Seq<Seq<char>>) -> Seq<Seq<char>>
    decreases ws.len(),
{
    if ws.len() == 0 {
        Seq::empty()
    } else {
        wp_tokens(vocab, unk_t, max, ws.drop_last()) + wp_word(vocab, unk_t, max, lowercase(ws.last()))
    }
}

/// `t` without its leading `##` markers.
pub open spec fn trim_hashes(t: Seq<char>) -> Seq<char>
    decreases t.len(),
{
    if t.len() >= 2 && t[0] == '#' && t[1] == '#' {
        trim_hashes(t.skip(2))
    } else {
        t
    }
}

/// `t` begins with `##`.
pub open spec fn continues(t: Seq<char>) -> bool {
    t.len() >= 2 && t[0] == '#' && t[1] == '#'
}

/// The text of the ids that name a token: pieces that continue a word are
/// appended directly, the others after a space (but not at the start).
pub open spec fn wp_text(vocab: Seq<Seq<char>>, ids: Seq<u32>) -> Seq<char>
    decreases ids.len(),
{
    if ids.len() == 0 {
        Seq::empty()
    } else {
        let prev = wp_text(vocab, ids.drop_last());
        let id = ids.last();
        if id < vocab.len() {
            let t = vocab[id as int];
            let sep = ids.len() > 1 && !continues(t) && prev.len() > 0;
            prev + (if sep { seq![' '] } else { Seq::empty() }) + trim_hashes(t)
        } else {
            prev
        }
    }
}

/// Whether the vocabulary holds `t`.
fn vocab_has(vocab: &Vec<Vec<char>>, t: &Vec<char>) -> (r: bool)
    ensures
        r == char_views(vocab@).contains(t@),
{
    let ghost v = char_views(vocab@);
    let mut i: usize = 0;
    while i < vocab.len()
        invariant
            i <= vocab@.len(),
            v == char_views(vocab@),
            forall|k: int| 0 <= k < i ==> v[k] != t@,
        decreases vocab.len() - i,
    {
        assert(v[i as int] == vocab@[i as int]@);
        if same_chars(vocab[i].as_slice(), t.as_slice()) {
            return true;
        }
        i = i + 1;
    }
    false
}

/// The piece of `cs` from `start` to `end`, marked when it continues a word.
fn make_piece(cs: &Vec<char>, start: usize, end: usize) -> (r: Vec<char>)
    requires
        start <= end <= cs@.len(),
    ensures
        r@ == piece(cs@, start as int, end as int),
{
    let mut v: Vec<char> = Vec::new();
    if start != 0 {
        v.push('#');
        v.push('#');
    }
    let ghost v0 = v@;
    let mut i: usize = start;
    while i < end
        invariant
            start <= i <= end,
            end <= cs@.len(),
            v@ == v0 + cs@.subrange(start as int, i as int),
        decreases end - i,
    {
        v.push(cs[i]);
        i = i + 1;
        assert(v@ =~= v0 + cs@.subrange(start as int, i as int));
    }
    if start != 0 {
        assert(v0 =~= seq!['#', '#']);
    } else {
        assert(v0 =~= Seq::<char>::empty());
        assert(v@ =~= cs@.subrange(start as int, end as int));
    }
    v
}

/// `Some(p + rest)` for `Some(rest)`, `None` for `None`.
pub open spec fn after(p: Seq<Seq<char>>, o: Option<Seq<Seq<char>>>) -> Option<Seq<Seq<char>>> {
    match o {
        Some(rest) => Some(p + rest),
        None => None,
    }
}

impl WordPieceTokenizer {
    /// Whether `r` is what training on `text` with `vocab_size` gives: the
    /// unknown token, then the most frequent characters of the words as
    /// one-character tokens, most frequent first (characters are counted as
    /// they are written, each weighted by the number of words with the same
    /// lowercase form; the order among equally frequent ones is not fixed).
    pub open spec fn trained(text: Seq<char>, vocab_size: usize, r: WordPieceTokenizer) -> bool {
        let n = r.vocab@.len();
        &&& n >= 1
        &&& r.vocab@[0]@ == unk()
        &&& r.unk_token@ == unk()
        &&& r.max_input_chars == 100
        &&& forall|i: int| 1 <= i < n ==> (#[trigger] r.vocab@[i])@.len() == 1
        &&& top_chars(
            words(text),
            Seq::new((n - 1) as nat, |i: int| r.vocab@[i + 1]@[0]),
            if vocab_size >= 1 { vocab_size - 1 } else { 0 },
        )
    }

    /// Learns the unknown token and up to `vocab_size - 1` characters, the
    /// most frequent first.
    pub fn train(text: &str, vocab_size: usize) -> (r: Self)
        requires
            forall|c: char| char_freq(words(text@), c) <= usize::MAX,
        ensures
            WordPieceTokenizer::trained(text@, vocab_size, r),
    {
        let pieces = pre_tokenize_words(text);
        let mut ws: Vec<Vec<char>> = Vec::new();
        let mut ls: Vec<Vec<char>> = Vec::new();
        let mut k: usize = 0;
        while k < pieces.len()
            invariant
                k <= pieces@.len(),
                char_views(ws@) == views(pieces@).take(k as int),
                char_views(ls@) == lowers(views(pieces@).take(k as int)),
            decreases pieces.len() - k,
        {
            let w = chars_of(pieces[k].as_str());
            let lw = to_lowercase(pieces[k].as_str());
            let l = chars_of(lw.as_str());
            proof {
                lemma_char_views_push(ws@, w);
                lemma_char_views_push(ls@, l);
            }
            ws.push(w);
            ls.push(l);
            k = k + 1;
            assert(char_views(ws@) =~= views(pieces@).take(k as int));
            assert(char_views(ls@) =~= lowers(views(pieces@).take(k as int)));
        }
        assert(views(pieces@).take(pieces@.len() as int) =~= views(pieces@));
        let n = if vocab_size >= 1 {
            vocab_size - 1
        } else {
            0
        };
        let top = top_by_freq(&ws, &ls, n);
        let unk_token: Vec<char> = vec!['[', 'U', 'N', 'K', ']'];
        let mut vocab: Vec<Vec<char>> = Vec::new();
        vocab.push(copy_chars(unk_token.as_slice()));
        let mut i: usize = 0;
        while i < top.len()
            invariant
                i <= top@.len(),
                vocab@.len() == i + 1,
                vocab@[0]@ == unk_token@,
                forall|j: int| 1 <= j <= i ==> (#[trigger] vocab@[j])@ == seq![top@[j - 1]],
            decreases top.len() - i,
        {
            let t: Vec<char> = vec![top[i]];
            vocab.push(t);
            i = i + 1;
        }
        proof {
            assert(unk_token@ =~= unk());
            let chosen = Seq::new((vocab@.len() - 1) as nat, |j: int| vocab@[j + 1]@[0]);
            assert(chosen =~= top@);
        }
        WordPieceTokenizer { vocab, unk_token, max_input_chars: 100 }
    }

    /// The tokens of one lowercase word `cs`, whose UTF-8 form has `bytes`
    /// bytes.
    fn tokenize_word(&self, cs: &Vec<char>, bytes: usize) -> (r: Vec<Vec<char>>)
        requires
            bytes == vstd::utf8::encode_utf8(cs@).len(),
        ensures
            char_views(r@) == wp_word(char_views(self.vocab@), self.unk_token@, self.max_input_chars as int, cs@),
    {
        let ghost v = char_views(self.vocab@);
        if bytes > self.max_input_chars {
            let u = copy_chars(self.unk_token.as_slice());
            let mut r: Vec<Vec<char>> = Vec::new();
            r.push(u);
            assert(char_views(r@) =~= seq![self.unk_token@]);
            return r;
        }
        let mut result: Vec<Vec<char>> = Vec::new();
        let mut start: usize = 0;
        assert(char_views(result@) =~= Seq::<Seq<char>>::empty());
        assert(after(Seq::empty(), wp_pieces(v, cs@, 0)) =~= wp_pieces(v, cs@, 0)) by {
            match wp_pieces(v, cs@, 0) {
                Some(p) => {
                    assert(Seq::<Seq<char>>::empty() + p =~= p);
                },
                None => {},
            }
        }
        while start < cs.len()
            invariant
                start <= cs@.len(),
                v == char_views(self.vocab@),
                wp_pieces(v, cs@, 0) == after(char_views(result@), wp_pieces(v, cs@, start as int)),
            decreases cs.len() - start,
        {
            let mut end = cs.len();
            let mut found = false;
            while !found && start < end
                invariant
                    start <= end <= cs@.len(),
                    v == char_views(self.vocab@),
                    found ==> end > start && v.contains(piece(cs@, start as int, end as int)),
                    longest_end(v, cs@, start as int, cs@.len() as int) == if found {
                        Some(end as int)
                    } else {
                        longest_end(v, cs@, start as int, end as int)
                    },
                decreases end - start, if found { 0int } else { 1int },
            {
                let sub = make_piece(cs, start, end);
                if vocab_has(&self.vocab, &sub) {
                    found = true;
                } else {
                    end = end - 1;
                }
            }
            if !found {
                proof {
                    assert(longest_end(v, cs@, start as int, start as int) is None);
                    assert(wp_pieces(v, cs@, start as int) is None);
                }
                let u = copy_chars(self.unk_token.as_slice());
                let mut r: Vec<Vec<char>> = Vec::new();
                r.push(u);
                assert(char_views(r@) =~= seq![self.unk_token@]);
                return r;
            }
            let sub = make_piece(cs, start, end);
            let ghost r0 = char_views(result@);
            proof {
                lemma_char_views_push(result@, sub);
            }
            result.push(sub);
            proof {
                let e = end as int;
                let p = piece(cs@, start as int, e);
                assert(wp_pieces(v, cs@, start as int) == after(seq![p], wp_pieces(v, cs@, e)));
                match wp_pieces(v, cs@, e) {
                    Some(rest) => {
                        assert(r0 + (seq![p] + rest) =~= char_views(result@) + rest);
                    },
                    None => {},
                }
                assert(wp_pieces(v, cs@, 0) == after(char_views(result@), wp_pieces(v, cs@, e)));
            }
            start = end;
        }
        proof {
            assert(wp_pieces(v, cs@, start as int) == Some(Seq::<Seq<char>>::empty()));
            assert(char_views(result@) + Seq::<Seq<char>>::empty() =~= char_views(result@));
        }
        result
    }
}

/// `t` without its leading `##` markers.
fn trim_hashes_exec(t: &Vec<char>) -> (r: Vec<char>)
    ensures
        r@ == trim_hashes(t@),
{
    let mut i: usize = 0;
    assert(t@.skip(0) =~= t@);
    while t.len() >= 2 && i <= t.len() - 2 && t[i] == '#' && t[i + 1] == '#'
        invariant
            i <= t@.len(),
            trim_hashes(t@.skip(i as int)) == trim_hashes(t@),
        decreases t.len() - i,
    {
        assert(t@.skip(i as int).skip(2) =~= t@.skip(i + 2));
        i = i + 2;
    }
    let mut out: Vec<char> = Vec::new();
    let ghost i0 = i;
    while i < t.len()
        invariant
            i0 <= i <= t@.len(),
            out@ == t@.subrange(i0 as int, i as int),
        decreases t.len() - i,
    {
        out.push(t[i]);
        i = i + 1;
        assert(out@ =~= t@.subrange(i0 as int, i as int));
    }
    assert(t@.subrange(i0 as int, t@.len() as int) =~= t@.skip(i0 as int));
    out
}

impl Tokenizer for WordPieceTokenizer {
    /// The ids of the tokens of the lowercased words of `text`.
    fn encode(&self, text: &str) -> (r: Vec<u32>)
        ensures
            r@ == ids_of(
                char_views(self.vocab@),
                wp_tokens(char_views(self.vocab@), self.unk_token@, self.max_input_chars as int, words(text@)),
            ),
    {
        let ghost v = char_views(self.vocab@);
        let ghost unk_t = self.unk_token@;
        let ghost mx = self.max_input_chars as int;
        let pieces = pre_tokenize_words(text);
        let ghost ws = views(pieces@);
        let mut ids: Vec<u32> = Vec::new();
        let mut k: usize = 0;
        while k < pieces.len()
            invariant
                k <= pieces@.len(),
                ws == views(pieces@),
                v == char_views(self.vocab@),
                unk_t == self.unk_token@,
                mx == self.max_input_chars as int,
                ids@ == ids_of(v, wp_tokens(v, unk_t, mx, ws.take(k as int))),
            decreases pieces.len() - k,
        {
            let lw = to_lowercase(pieces[k].as_str());
            let cs = chars_of(lw.as_str());
            let bytes = lw.as_str().as_bytes().len();
            let toks = self.tokenize_word(&cs, bytes);
            let ghost before = wp_tokens(v, unk_t, mx, ws.take(k as int));
            let ghost tv = char_views(toks@);
            proof {
                assert(ws.take(k + 1).drop_last() =~= ws.take(k as int));
                assert(ws.take(k + 1).last() == pieces@[k as int]@);
                assert(wp_tokens(v, unk_t, mx, ws.take(k + 1)) == before + tv);
                lemma_ids_of_append(v, before, tv);
            }
            let ghost i0 = ids@;
            let mut j: usize = 0;
            while j < toks.len()
                invariant
                    j <= toks@.len(),
                    v == char_views(self.vocab@),
                    tv == char_views(toks@),
                    ids@ == i0 + ids_of(v, tv.take(j as int)),
                decreases toks.len() - j,
            {
                assert(tv.take(j + 1).drop_last() =~= tv.take(j as int));
                assert(tv.take(j + 1).last() == toks@[j as int]@);
                match find_token(&self.vocab, &toks[j]) {
                    Some(i) => {
                        ids.push(i as u32);
                    },
                    None => {},
                }
                j = j + 1;
                assert(ids@ =~= i0 + ids_of(v, tv.take(j as int)));
            }
            assert(tv.take(toks@.len() as int) =~= tv);
            k = k + 1;
        }
        assert(ws.take(pieces@.len() as int) =~= ws);
        ids
    }

    /// The tokens of the ids that name one: pieces that continue a word
    /// (`##...`) are appended without their marker, the others after a space.
    fn decode(&self, tokens: &[u32]) -> (r: String)
        ensures
            r@ == wp_text(char_views(self.vocab@), tokens@),
    {
        let ghost v = char_views(self.vocab@);
        let mut out: Vec<char> = Vec::new();
        let mut k: usize = 0;
        while k < tokens.len()
            invariant
                k <= tokens@.len(),
                v == char_views(self.vocab@),
                out@ == wp_text(v, tokens@.take(k as int)),
            decreases tokens.len() - k,
        {
            assert(tokens@.take(k + 1).drop_last() =~= tokens@.take(k as int));
            let id = tokens[k];
            if (id as usize) < self.vocab.len() {
                let t = &self.vocab[id as usize];
                let cont = t.len() >= 2 && t[0] == '#' && t[1] == '#';
                if k > 0 && !cont && out.len() > 0 {
                    out.push(' ');
                }
                let piece = trim_hashes_exec(t);
                let ghost o0 = out@;
                let mut j: usize = 0;
                while j < piece.len()
                    invariant
                        j <= piece@.len(),
                        out@ == o0 + piece@.take(j as int),
                    decreases piece.len() - j,
                {
                    out.push(piece[j]);
                    j = j + 1;
                    assert(out@ =~= o0 + piece@.take(j as int));
                }
                assert(piece@.take(piece@.len() as int) =~= piece@);
                assert(v[id as int] == self.vocab@[id as int]@);
            }
            k = k + 1;
            assert(out@ =~= wp_text(v, tokens@.take(k as int)));
        }
        assert(tokens@.take(tokens@.len() as int) =~= tokens@);
        string_of(out.as_slice())
    }

    /// The number of tokens.
    fn vocab_size(&self) -> (r: usize)
        ensures
            r == self.vocab@.len(),
    {
        self.vocab.len()
    }
}

proof fn lemma_ids_of_append(v: Seq<Seq<char>>, a: Seq<Seq<char>>, b: Seq<Seq<char>>)
    ensures
        ids_of(v, a + b) == ids_of(v, a) + ids_of(v, b),
    decreases b.len(),
{
    if b.len() == 0 {
        assert(a + b =~= a);
        assert(ids_of(v, a) + ids_of(v, b) =~= ids_of(v, a));
    } else {
        lemma_ids_of_append(v, a, b.drop_last());
        assert((a + b).drop_last() =~= a + b.drop_last());
        assert((a + b).last() == b.last());
    }
}

/// A longest match found from `start` is a piece of the vocabulary.
proof fn lemma_longest_end_in_vocab(vocab: Seq<Seq<char>>, cs: Seq<char>, start: int, end: int)
    requires
        longest_end(vocab, cs, start, end) is Some,
    ensures
        vocab.contains(piece(cs, start, longest_end(vocab, cs, start, end)->0)),
    decreases end - start,
{
    if !(end <= start || start < 0 || end > cs.len()) && !vocab.contains(piece(cs, start, end)) {
        lemma_longest_end_in_vocab(vocab, cs, start, end - 1);
    }
}

/// Every piece of a greedy split is in the vocabulary.
proof fn lemma_pieces_in_vocab(vocab: Seq<Seq<char>>, cs: Seq<char>, start: int)
    requires
        wp_pieces(vocab, cs, start) is Some,
    ensures
        forall|k: int|
            0 <= k < wp_pieces(vocab, cs, start)->0.len() ==> vocab.contains(
                #[trigger] wp_pieces(vocab, cs, start)->0[k],
            ),
    decreases cs.len() - start,
{
    if !(start < 0 || start >= cs.len()) {
        let e = longest_end(vocab, cs, start, cs.len() as int)->0;
        lemma_longest_end_in_vocab(vocab, cs, start, cs.len() as int);
        lemma_pieces_in_vocab(vocab, cs, e);
        let rest = wp_pieces(vocab, cs, e)->0;
        let all = wp_pieces(vocab, cs, start)->0;
        assert forall|k: int| 0 <= k < all.len() implies vocab.contains(#[trigger] all[k]) by {
            if k > 0 {
                assert(all[k] == rest[k - 1]);
            }
        }
    }
}

/// Every token of the words is in the vocabulary when the unknown token is.
proof fn lemma_tokens_in_vocab(vocab: Seq<Seq<char>>, unk_t: Seq<char>, max: int, ws: Seq<Seq<char>>)
    requires
        vocab.contains(unk_t),
    ensures
        forall|k: int|
            0 <= k < wp_tokens(vocab, unk_t, max, ws).len() ==> vocab.contains(
                #[trigger] wp_tokens(vocab, unk_t, max, ws)[k],
            ),
    decreases ws.len(),
{
    if ws.len() > 0 {
        lemma_tokens_in_vocab(vocab, unk_t, max, ws.drop_last());
        let w = lowercase(ws.last());
        let a = wp_tokens(vocab, unk_t, max, ws.drop_last());
        let b = wp_word(vocab, unk_t, max, w);
        if vstd::utf8::encode_utf8(w).len() <= max && wp_pieces(vocab, w, 0) is Some {
            lemma_pieces_in_vocab(vocab, w, 0);
        }
        assert forall|k: int| 0 <= k < b.len() implies vocab.contains(#[trigger] b[k]) by {}
        let all = wp_tokens(vocab, unk_t, max, ws);
        assert forall|k: int| 0 <= k < all.len() implies vocab.contains(#[trigger] all[k]) by {
            if k < a.len() {
                assert(all[k] == a[k]);
            } else {
                assert(all[k] == b[k - a.len()]);
            }
        }
    }
}

/// The first position of a token of the vocabulary holds that token.
proof fn lemma_find_contained(vocab: Seq<Seq<char>>, t: Seq<char>, i: int, j: int)
    requires
        0 <= i <= j < vocab.len(),
        vocab[j] == t,
    ensures
        find_from(vocab, t, i) is Some,
        0 <= find_from(vocab, t, i)->0 < vocab.len(),
        vocab[find_from(vocab, t, i)->0] == t,
    decreases j - i,
{
    if vocab[i] != t {
        lemma_find_contained(vocab, t, i + 1, j);
    }
}

/// Symbols that are all in the vocabulary keep one id each, the id of a
/// position that holds the symbol.
proof fn lemma_ids_of_contained(vocab: Seq<Seq<char>>, syms: Seq<Seq<char>>)
    requires
        forall|k: int| 0 <= k < syms.len() ==> vocab.contains(#[trigger] syms[k]),
        vocab.len() <= u32::MAX + 1,
    ensures
        ids_of(vocab, syms).len() == syms.len(),
        forall|k: int|
            0 <= k < syms.len() ==> (#[trigger] ids_of(vocab, syms)[k]) < vocab.len() && vocab[ids_of(
                vocab,
                syms,
            )[k] as int] == syms[k],
    decreases syms.len(),
{
    if syms.len() > 0 {
        let p = syms.drop_last();
        assert forall|k: int| 0 <= k < p.len() implies vocab.contains(#[trigger] p[k]) by {
            assert(p[k] == syms[k]);
        }
        lemma_ids_of_contained(vocab, p);
        let x = syms.last();
        assert(vocab.contains(syms[syms.len() - 1]));
        let j = choose|j: int| 0 <= j < vocab.len() && vocab[j] == x;
        lemma_find_contained(vocab, x, 0, j);
        let ids = ids_of(vocab, syms);
        let prev = ids_of(vocab, p);
        assert forall|k: int| 0 <= k < syms.len() implies (#[trigger] ids[k]) < vocab.len() && vocab[ids[k] as int]
            == syms[k] by {
            if k < p.len() {
                assert(ids[k] == prev[k]);
                assert(syms[k] == p[k]);
            }
        }
    }
}

/// Every token a WordPiece tokenizer produces is in its vocabulary (the
/// unknown token included), so encoding keeps one id per token, the id of
/// a vocabulary entry equal to it.
pub proof fn law_wordpiece_keeps_every_token(r: WordPieceTokenizer, t: Seq<char>)
    requires
        r.vocab@.len() >= 1,
        r.vocab@.len() <= u32::MAX + 1,
        r.vocab@[0]@ == r.unk_token@,
    ensures
        ({
            let v = char_views(r.vocab@);
            let toks = wp_tokens(v, r.unk_token@, r.max_input_chars as int, words(t));
            let ids = ids_of(v, toks);
            &&& ids.len() == toks.len()
            &&& forall|k: int| 0 <= k < toks.len() ==> (#[trigger] ids[k]) < v.len() && v[ids[k] as int] == toks[k]
        }),
{
    let v = char_views(r.vocab@);
    assert(v[0] == r.unk_token@);
    assert(v.contains(r.unk_token@));
    let toks = wp_tokens(v, r.unk_token@, r.max_input_chars as int, words(t));
    lemma_tokens_in_vocab(v, r.unk_token@, r.max_input_chars as int, words(t));
    lemma_ids_of_contained(v, toks);
}

} // verus!
