//! Byte-pair-encoding tokenizer.
use vstd::prelude::*;

use crate::tokenizers::pairs::{
    char_views, copy_chars, has_pair, is_most_frequent_pair, lemma_char_views_push, most_frequent_pairs, top_pairs,
};
use crate::tokenizers::{
    chars_of, concat, lemma_concat_append, lemma_concat_first, lemma_concat_single, law_pre_tokens_concat,
    pre_tokenize, pre_tokens, string_of, views, Tokenizer,
};

verus! {

/// A byte-pair-encoding tokenizer: token `i` of `vocab` has id `i`; the
/// first 256 are the characters with codes 0 to 255, and each learned merge
/// adds its two symbols joined by the marker `</c>`.
pub struct BpeTokenizer {
    pub vocab: Vec<Vec<char>>,
    pub merges: Vec<(Vec<char>, Vec<char>)>,
}

/// The marker that separates the two halves of a merged token.
pub open spec fn marker() -> Seq<char> {
    seq!['<', '/', 'c', '>']
}

/// The token of the character with code `i`.
pub open spec fn byte_token(i: int) -> Seq<char> {
    seq![(i as u8) as char]
}

/// `w` with each adjacent pair whose concatenation is `f + s` joined into one
/// symbol, scanning from the left.
pub open spec fn merge_pass(w: Seq<Seq<char>>, f: Seq<char>, s: Seq<char>) -> Seq<Seq<char>>
    decreases w.len(),
{
    if w.len() == 0 {
        Seq::empty()
    } else if w.len() >= 2 && w[0] + w[1] == f + s {
        seq![w[0] + w[1]] + merge_pass(w.skip(2), f, s)
    } else {
        seq![w[0]] + merge_pass(w.skip(1), f, s)
    }
}

/// `w` after every merge of `merges`, in order.
pub open spec fn apply_merges(w: Seq<Seq<char>>, merges: Seq<(Seq<char>, Seq<char>)>) -> Seq<Seq<char>>
    decreases merges.len(),
{
    if merges.len() == 0 {
        w
    } else {
        apply_merges(merge_pass(w, merges[0].0, merges[0].1), merges.drop_first())
    }
}

/// A merge pass only regroups symbols: the characters they spell, in
/// order, are the same before and after.
pub proof fn law_merge_pass_keeps_text(w: Seq<Seq<char>>, f: Seq<char>, s: Seq<char>)
    ensures
        concat(merge_pass(w, f, s)) == concat(w),
    decreases w.len(),
{
    if w.len() > 0 {
        lemma_concat_first(w);
        if w.len() >= 2 && w[0] + w[1] == f + s {
            law_merge_pass_keeps_text(w.skip(2), f, s);
            lemma_concat_first(w.skip(1));
            assert(w.skip(1).skip(1) =~= w.skip(2));
            lemma_concat_append(seq![w[0] + w[1]], merge_pass(w.skip(2), f, s));
            lemma_concat_single(w[0] + w[1]);
            assert(concat(w) =~= w[0] + w[1] + concat(w.skip(2)));
        } else {
            law_merge_pass_keeps_text(w.skip(1), f, s);
            lemma_concat_append(seq![w[0]], merge_pass(w.skip(1), f, s));
            lemma_concat_single(w[0]);
        }
    }
}

/// Applying merges never changes the characters the symbols spell.
pub proof fn law_apply_merges_keep_text(w: Seq<Seq<char>>, merges: Seq<(Seq<char>, Seq<char>)>)
    ensures
        concat(apply_merges(w, merges)) == concat(w),
    decreases merges.len(),
{
    if merges.len() > 0 {
        law_merge_pass_keeps_text(w, merges[0].0, merges[0].1);
        law_apply_merges_keep_text(merge_pass(w, merges[0].0, merges[0].1), merges.drop_first());
    }
}

/// Each character of `t` as a symbol of its own.
pub open spec fn singletons(t: Seq<char>) -> Seq<Seq<char>> {
    Seq::new(t.len(), |i: int| seq![t[i]])
}

/// The symbols of the pre-tokens `toks` after the merges.
pub open spec fn bpe_symbols(toks: Seq<Seq<char>>, merges: Seq<(Seq<char>, Seq<char>)>) -> Seq<Seq<char>>
    decreases toks.len(),
{
    if toks.len() == 0 {
        Seq::empty()
    } else {
        bpe_symbols(toks.drop_last(), merges) + apply_merges(singletons(toks.last()), merges)
    }
}

/// The first position at or after `i` where `vocab` holds `t`.
pub open spec fn find_from(vocab: Seq<Seq<char>>, t: Seq<char>, i: int) -> Option<int>
    decreases vocab.len() - i,
{
    if i < 0 || i >= vocab.len() {
        None
    } else if vocab[i] == t {
        Some(i)
    } else {
        find_from(vocab, t, i + 1)
    }
}

/// The ids of the symbols found in `vocab`; the others are dropped.
pub open spec fn ids_of(vocab: Seq<Seq<char>>, syms: Seq<Seq<char>>) -> Seq<u32>
    decreases syms.len(),
{
    if syms.len() == 0 {
        Seq::empty()
    } else {
        ids_of(vocab, syms.drop_last()) + match find_from(vocab, syms.last(), 0) {
            Some(i) => seq![i as u32],
            None => Seq::empty(),
        }
    }
}

/// `t` with every occurrence of the marker removed, scanning from the left.
pub open spec fn strip_marker(t: Seq<char>) -> Seq<char>
    decreases t.len(),
{
    if t.len() == 0 {
        Seq::empty()
    } else if t.len() >= 4 && t.take(4) == marker() {
        strip_marker(t.skip(4))
    } else {
        seq![t[0]] + strip_marker(t.skip(1))
    }
}

/// The text of the ids that name a token, markers removed.
pub open spec fn bpe_text(vocab: Seq<Seq<char>>, ids: Seq<u32>) -> Seq<char>
    decreases ids.len(),
{
    if ids.len() == 0 {
        Seq::empty()
    } else {
        bpe_text(vocab, ids.drop_last()) + if ids.last() < vocab.len() {
            strip_marker(vocab[ids.last() as int])
        } else {
            Seq::empty()
        }
    }
}

/// The number of entries of `v` that are not empty.
pub open spec fn named_count(v: Seq<Seq<char>>) -> nat
    decreases v.len(),
{
    if v.len() == 0 {
        0
    } else {
        named_count(v.drop_last()) + if v.last().len() > 0 {
            1nat
        } else {
            0nat
        }
    }
}

/// The pairs of a merge list, as views.
pub open spec fn merge_views(m: Seq<(Vec<char>, Vec<char>)>) -> Seq<(Seq<char>, Seq<char>)> {
    m.map_values(|p: (Vec<char>, Vec<char>)| (p.0@, p.1@))
}

/// Whether two character sequences are equal.
pub(crate) fn chars_equal(a: &[char], b: &[char]) -> (r: bool)
    ensures
        r == (a@ == b@),
{
    if a.len() != b.len() {
        return false;
    }
    let mut i: usize = 0;
    while i < a.len()
        invariant
            i <= a@.len(),
            a@.len() == b@.len(),
            forall|j: int| 0 <= j < i ==> a@[j] == b@[j],
        decreases a.len() - i,
    {
        if a[i] != b[i] {
            return false;
        }
        i = i + 1;
    }
    assert(a@ =~= b@);
    true
}

/// `a` followed by `b`.
fn joined(a: &[char], b: &[char]) -> (r: Vec<char>)
    ensures
        r@ == a@ + b@,
{
    let mut v: Vec<char> = Vec::new();
    let mut i: usize = 0;
    while i < a.len()
        invariant
            i <= a@.len(),
            v@ == a@.take(i as int),
        decreases a.len() - i,
    {
        v.push(a[i]);
        i = i + 1;
        assert(v@ =~= a@.take(i as int));
    }
    let mut j: usize = 0;
    while j < b.len()
        invariant
            j <= b@.len(),
            v@ == a@ + b@.take(j as int),
        decreases b.len() - j,
    {
        v.push(b[j]);
        j = j + 1;
        assert(v@ =~= a@ + b@.take(j as int));
    }
    assert(a@.take(a@.len() as int) =~= a@);
    assert(b@.take(b@.len() as int) =~= b@);
    v
}

/// One merge pass over a word.
fn merge_word(w: &Vec<Vec<char>>, f: &Vec<char>, s: &Vec<char>) -> (r: Vec<Vec<char>>)
    ensures
        char_views(r@) == merge_pass(char_views(w@), f@, s@),
{
    let ghost v = char_views(w@);
    let target = joined(f.as_slice(), s.as_slice());
    let mut out: Vec<Vec<char>> = Vec::new();
    let mut i: usize = 0;
    assert(v.skip(0) =~= v);
    while i < w.len()
        invariant
            i <= w@.len(),
            v == char_views(w@),
            target@ == f@ + s@,
            char_views(out@) + merge_pass(v.skip(i as int), f@, s@) == merge_pass(v, f@, s@),
        decreases w.len() - i,
    {
        let ghost rest = v.skip(i as int);
        let ghost o0 = char_views(out@);
        assert(rest[0] == w@[i as int]@);
        if i + 1 < w.len() {
            let pair = joined(w[i].as_slice(), w[i + 1].as_slice());
            assert(rest[1] == w@[i + 1]@);
            if chars_equal(pair.as_slice(), target.as_slice()) {
                proof {
                    lemma_char_views_push(out@, pair);
                }
                out.push(pair);
                proof {
                    assert(rest.skip(2) =~= v.skip(i + 2));
                    assert(char_views(out@) =~= o0 + seq![rest[0] + rest[1]]);
                }
                i = i + 2;
                assert(char_views(out@) + merge_pass(v.skip(i as int), f@, s@) =~= o0 + merge_pass(rest, f@, s@));
                continue;
            }
        }
        let c = copy_chars(w[i].as_slice());
        proof {
            lemma_char_views_push(out@, c);
        }
        out.push(c);
        proof {
            assert(rest.skip(1) =~= v.skip(i + 1));
            assert(char_views(out@) =~= o0 + seq![rest[0]]);
        }
        i = i + 1;
        assert(char_views(out@) + merge_pass(v.skip(i as int), f@, s@) =~= o0 + merge_pass(rest, f@, s@));
    }
    assert(v.skip(i as int) =~= Seq::<Seq<char>>::empty());
    assert(char_views(out@) =~= merge_pass(v, f@, s@));
    out
}

/// Every merge, in order, over a word.
fn merge_all(w: Vec<Vec<char>>, merges: &Vec<(Vec<char>, Vec<char>)>) -> (r: Vec<Vec<char>>)
    ensures
        char_views(r@) == apply_merges(char_views(w@), merge_views(merges@)),
{
    let ghost ms = merge_views(merges@);
    let mut word = w;
    let mut m: usize = 0;
    assert(ms.skip(0) =~= ms);
    while m < merges.len()
        invariant
            m <= merges@.len(),
            ms == merge_views(merges@),
            apply_merges(char_views(word@), ms.skip(m as int)) == apply_merges(char_views(w@), ms),
        decreases merges.len() - m,
    {
        let ghost rest = ms.skip(m as int);
        assert(rest[0] == (merges@[m as int].0@, merges@[m as int].1@));
        assert(rest.drop_first() =~= ms.skip(m + 1));
        word = merge_word(&word, &merges[m].0, &merges[m].1);
        m = m + 1;
    }
    assert(ms.skip(m as int) =~= Seq::<(Seq<char>, Seq<char>)>::empty());
    word
}

/// The id of `t`: its first position in `vocab`.
pub(crate) fn find_token(vocab: &Vec<Vec<char>>, t: &Vec<char>) -> (r: Option<usize>)
    ensures
        match r {
            Some(i) => find_from(char_views(vocab@), t@, 0) == Some(i as int),
            None => find_from(char_views(vocab@), t@, 0) is None,
        },
{
    let ghost v = char_views(vocab@);
    let mut i: usize = 0;
    while i < vocab.len()
        invariant
            i <= vocab@.len(),
            v == char_views(vocab@),
            find_from(v, t@, 0) == find_from(v, t@, i as int),
        decreases vocab.len() - i,
    {
        assert(v[i as int] == vocab@[i as int]@);
        if chars_equal(vocab[i].as_slice(), t.as_slice()) {
            return Some(i);
        }
        i = i + 1;
    }
    None
}

/// `t` with the marker removed wherever it occurs.
fn strip_marker_exec(t: &Vec<char>) -> (r: Vec<char>)
    ensures
        r@ == strip_marker(t@),
{
    let mut out: Vec<char> = Vec::new();
    let mut i: usize = 0;
    assert(t@.skip(0) =~= t@);
    while i < t.len()
        invariant
            i <= t@.len(),
            out@ + strip_marker(t@.skip(i as int)) == strip_marker(t@),
        decreases t.len() - i,
    {
        let ghost rest = t@.skip(i as int);
        let ghost o0 = out@;
        if t.len() >= 4 && i <= t.len() - 4 && t[i] == '<' && t[i + 1] == '/' && t[i + 2] == 'c' && t[i + 3] == '>' {
            assert(rest.take(4) =~= marker());
            assert(rest.skip(4) =~= t@.skip(i + 4));
            i = i + 4;
        } else {
            proof {
                if rest.len() >= 4 {
                    assert(rest.take(4) != marker()) by {
                        if rest.take(4) == marker() {
                            assert(rest.take(4)[0] == t@[i as int]);
                            assert(rest.take(4)[1] == t@[i + 1]);
                            assert(rest.take(4)[2] == t@[i + 2]);
                            assert(rest.take(4)[3] == t@[i + 3]);
                        }
                    }
                }
            }
            out.push(t[i]);
            assert(rest.skip(1) =~= t@.skip(i + 1));
            assert(out@ + strip_marker(t@.skip(i + 1)) =~= o0 + strip_marker(rest));
            i = i + 1;
        }
    }
    assert(t@.skip(i as int) =~= Seq::<char>::empty());
    assert(out@ =~= strip_marker(t@));
    out
}

/// The words of `text` as character vectors.
fn words_of(text: &str) -> (r: Vec<Vec<char>>)
    ensures
        char_views(r@) == pre_tokens(text@),
        concat(pre_tokens(text@)).len() <= usize::MAX,
{
    let n = text.unicode_len();
    let pieces = pre_tokenize(text);
    let mut words: Vec<Vec<char>> = Vec::new();
    let mut k: usize = 0;
    while k < pieces.len()
        invariant
            k <= pieces@.len(),
            char_views(words@) == views(pieces@).take(k as int),
        decreases pieces.len() - k,
    {
        let w = chars_of(pieces[k].as_str());
        proof {
            lemma_char_views_push(words@, w);
        }
        words.push(w);
        k = k + 1;
        assert(char_views(words@) =~= views(pieces@).take(k as int));
    }
    assert(views(pieces@).take(pieces@.len() as int) =~= views(pieces@));
    proof {
        law_pre_tokens_concat(text@);
    }
    words
}

/// The number of merges training learns from words `ws`: `vocab_size - 256`
/// when the vocabulary may grow and some word has two characters, else none.
pub open spec fn merge_target(ws: Seq<Seq<char>>, vocab_size: usize) -> int {
    if vocab_size > 256 && has_pair(ws) {
        vocab_size - 256
    } else {
        0
    }
}

/// Training on `text` reaches `vocab_size`: no word has two characters, or
/// there are enough most frequent pairs to learn (each merge is of a most
/// frequent pair, and merging leaves the words' pairs as they are).
pub open spec fn reaches(text: Seq<char>, vocab_size: usize) -> bool {
    let ws = pre_tokens(text);
    vocab_size <= 256 + top_pairs(ws).len() || !has_pair(ws)
}

/// Merge `j` of `r` joins a most frequent pair of adjacent characters of
/// `ws`, and token `256 + j` is that pair joined by the marker.
pub open spec fn learned_merge(ws: Seq<Seq<char>>, r: BpeTokenizer, j: int) -> bool {
    let f = r.merges@[j].0@;
    let s = r.merges@[j].1@;
    &&& f.len() == 1
    &&& s.len() == 1
    &&& is_most_frequent_pair(ws, f[0], s[0])
    &&& r.vocab@[256 + j]@ == f + marker() + s
}

impl BpeTokenizer {
    /// Whether `r` is what training on `text` with `vocab_size` gives: the
    /// 256 character tokens, then `merge_target` merges of distinct most
    /// frequent pairs of adjacent characters, each with its joined token
    /// (which of several tied pairs, and in what order, is not fixed).
    pub open spec fn trained(text: Seq<char>, vocab_size: usize, r: BpeTokenizer) -> bool {
        let ws = pre_tokens(text);
        let n = merge_target(ws, vocab_size);
        &&& r.vocab@.len() == 256 + n
        &&& forall|i: int| 0 <= i < 256 ==> (#[trigger] r.vocab@[i])@ == byte_token(i)
        &&& r.merges@.len() == n
        &&& forall|j: int| 0 <= j < n ==> #[trigger] learned_merge(ws, r, j)
        &&& forall|j: int, k: int|
            0 <= j < k < n ==> (#[trigger] r.merges@[j].0@, r.merges@[j].1@) != (#[trigger] r.merges@[k].0@, r.merges@[k].1@)
    }

    /// `train` where it returns: `None` on the vocabulary sizes that training
    /// never reaches (there it would go on for ever).
    pub fn train_checked(text: &str, vocab_size: usize) -> (r: Option<Self>)
        ensures
            r is Some <==> reaches(text@, vocab_size),
            r matches Some(t) ==> BpeTokenizer::trained(text@, vocab_size, t),
    {
        let words = words_of(text);
        let tops = most_frequent_pairs(&words);
        if vocab_size <= 256 || tops.len() == 0 || vocab_size - 256 <= tops.len() {
            Some(Self::train(text, vocab_size))
        } else {
            None
        }
    }

    /// Learns a vocabulary from `text`: the 256 character tokens, then, while
    /// the vocabulary is smaller than `vocab_size`, a merge of a most frequent
    /// pair of adjacent symbols. Merging never changes the words' symbols, so
    /// only most frequent pairs are ever chosen, and each adds a token only
    /// the first time; this takes each tied pair once. `vocab_size` is
    /// limited to the sizes training reaches.
    pub fn train(text: &str, vocab_size: usize) -> (r: Self)
        requires
            reaches(text@, vocab_size),
        ensures
            BpeTokenizer::trained(text@, vocab_size, r),
    {
        let mut vocab: Vec<Vec<char>> = Vec::new();
        let mut b: u32 = 0;
        while b < 256
            invariant
                b <= 256,
                vocab@.len() == b,
                forall|i: int| 0 <= i < b ==> (#[trigger] vocab@[i])@ == byte_token(i),
            decreases 256 - b,
        {
            let c = (b as u8) as char;
            let t: Vec<char> = vec![c];
            vocab.push(t);
            b = b + 1;
        }
        let words = words_of(text);
        let ghost ws = pre_tokens(text@);
        let tops = most_frequent_pairs(&words);
        let mut merges: Vec<(Vec<char>, Vec<char>)> = Vec::new();
        let mut i: usize = 0;
        while vocab.len() < vocab_size && i < tops.len()
            invariant
                i <= tops@.len(),
                i == 0 || 256 + i <= vocab_size,
                vocab@.len() == 256 + i,
                merges@.len() == i,
                tops@.no_duplicates(),
                tops@.to_set() == top_pairs(ws),
                tops@.len() == top_pairs(ws).len(),
                tops@.len() == 0 <==> !has_pair(ws),
                ws == pre_tokens(text@),
                reaches(text@, vocab_size),
                forall|k: int| 0 <= k < 256 ==> (#[trigger] vocab@[k])@ == byte_token(k),
                forall|j: int|
                    0 <= j < i ==> {
                        &&& (#[trigger] merges@[j]).0@ == seq![tops@[j].0]
                        &&& merges@[j].1@ == seq![tops@[j].1]
                        &&& vocab@[256 + j]@ == seq![tops@[j].0] + marker() + seq![tops@[j].1]
                    },
            decreases tops.len() - i,
        {
            let (a, c) = tops[i];
            let first: Vec<char> = vec![a];
            let second: Vec<char> = vec![c];
            let mark: Vec<char> = vec!['<', '/', 'c', '>'];
            let left = joined(first.as_slice(), mark.as_slice());
            let token = joined(left.as_slice(), second.as_slice());
            proof {
                assert(mark@ =~= marker());
            }
            merges.push((first, second));
            vocab.push(token);
            i = i + 1;
        }
        let r = BpeTokenizer { vocab, merges };
        proof {
            let n = merge_target(ws, vocab_size);
            assert(tops@.len() == 0 <==> !has_pair(ws));
            assert(i == n);
            assert forall|j: int| 0 <= j < n implies #[trigger] learned_merge(ws, r, j) by {
                assert(tops@.to_set().contains(tops@[j]));
                assert(top_pairs(ws).contains(tops@[j]));
            }
            assert forall|j: int, k: int|
                0 <= j < k < n implies (#[trigger] r.merges@[j].0@, r.merges@[j].1@) != (#[trigger] r.merges@[k].0@, r.merges@[k].1@) by {
                assert(tops@[j] != tops@[k]);
                if r.merges@[j].0@ == r.merges@[k].0@ && r.merges@[j].1@ == r.merges@[k].1@ {
                    assert(r.merges@[j].0@[0] == tops@[j].0);
                    assert(r.merges@[k].0@[0] == tops@[k].0);
                    assert(r.merges@[j].1@[0] == tops@[j].1);
                    assert(r.merges@[k].1@[0] == tops@[k].1);
                }
            }
        }
        r
    }

    /// The symbols of `text`: each pre-token split into characters, then
    /// every merge applied in order.
    fn tokenize(&self, text: &str) -> (r: Vec<Vec<char>>)
        ensures
            char_views(r@) == bpe_symbols(pre_tokens(text@), merge_views(self.merges@)),
    {
        let ghost ms = merge_views(self.merges@);
        let pieces = pre_tokenize(text);
        let ghost toks = views(pieces@);
        let mut result: Vec<Vec<char>> = Vec::new();
        let mut k: usize = 0;
        while k < pieces.len()
            invariant
                k <= pieces@.len(),
                toks == views(pieces@),
                ms == merge_views(self.merges@),
                char_views(result@) == bpe_symbols(toks.take(k as int), ms),
            decreases pieces.len() - k,
        {
            let cs = chars_of(pieces[k].as_str());
            let mut word: Vec<Vec<char>> = Vec::new();
            let mut i: usize = 0;
            while i < cs.len()
                invariant
                    i <= cs@.len(),
                    char_views(word@) == singletons(cs@).take(i as int),
                decreases cs.len() - i,
            {
                let sym: Vec<char> = vec![cs[i]];
                proof {
                    lemma_char_views_push(word@, sym);
                    assert(sym@ =~= seq![cs@[i as int]]);
                }
                word.push(sym);
                i = i + 1;
                assert(char_views(word@) =~= singletons(cs@).take(i as int));
            }
            assert(singletons(cs@).take(cs@.len() as int) =~= singletons(cs@));
            let merged = merge_all(word, &self.merges);
            let ghost r0 = char_views(result@);
            let mut j: usize = 0;
            while j < merged.len()
                invariant
                    j <= merged@.len(),
                    char_views(result@) == r0 + char_views(merged@).take(j as int),
                decreases merged.len() - j,
            {
                let sym = copy_chars(merged[j].as_slice());
                proof {
                    lemma_char_views_push(result@, sym);
                }
                result.push(sym);
                j = j + 1;
                assert(char_views(result@) =~= r0 + char_views(merged@).take(j as int));
            }
            proof {
                assert(char_views(merged@).take(merged@.len() as int) =~= char_views(merged@));
                assert(toks.take(k + 1).drop_last() =~= toks.take(k as int));
                assert(toks.take(k + 1).last() == cs@);
            }
            k = k + 1;
        }
        assert(toks.take(pieces@.len() as int) =~= toks);
        assert(toks == pre_tokens(text@));
        result
    }
}

impl Tokenizer for BpeTokenizer {
    /// The ids of the symbols of `text` that are in the vocabulary (a merged
    /// symbol, written without the marker, is not, and is dropped).
    fn encode(&self, text: &str) -> (r: Vec<u32>)
        ensures
            r@ == ids_of(char_views(self.vocab@), bpe_symbols(pre_tokens(text@), merge_views(self.merges@))),
    {
        let syms = self.tokenize(text);
        let ghost v = char_views(self.vocab@);
        let ghost sv = char_views(syms@);
        let mut ids: Vec<u32> = Vec::new();
        let mut k: usize = 0;
        while k < syms.len()
            invariant
                k <= syms@.len(),
                v == char_views(self.vocab@),
                sv == char_views(syms@),
                ids@ == ids_of(v, sv.take(k as int)),
            decreases syms.len() - k,
        {
            assert(sv.take(k + 1).drop_last() =~= sv.take(k as int));
            assert(sv.take(k + 1).last() == syms@[k as int]@);
            match find_token(&self.vocab, &syms[k]) {
                Some(i) => {
                    ids.push(i as u32);
                },
                None => {},
            }
            k = k + 1;
            assert(ids@ =~= ids_of(v, sv.take(k as int)));
        }
        assert(sv.take(syms@.len() as int) =~= sv);
        ids
    }

    /// The tokens of the ids that name one, markers removed, run together.
    fn decode(&self, tokens: &[u32]) -> (r: String)
        ensures
            r@ == bpe_text(char_views(self.vocab@), tokens@),
    {
        let ghost v = char_views(self.vocab@);
        let mut out: Vec<char> = Vec::new();
        let mut k: usize = 0;
        while k < tokens.len()
            invariant
                k <= tokens@.len(),
                v == char_views(self.vocab@),
                out@ == bpe_text(v, tokens@.take(k as int)),
            decreases tokens.len() - k,
        {
            assert(tokens@.take(k + 1).drop_last() =~= tokens@.take(k as int));
            let id = tokens[k];
            if (id as usize) < self.vocab.len() {
                let piece = strip_marker_exec(&self.vocab[id as usize]);
                let ghost o0 = out@;
                let mut j: usize = 0;
                while j < piece.len()
                    invariant
                        j <= piece@.len(),
                        out@ == o0 + piece@.take(j as int),
                    decreases piece.len() - j,
                {
                    out.push(piece[j]);
                    j = j + 1;
                    assert(out@ =~= o0 + piece@.take(j as int));
                }
                assert(piece@.take(piece@.len() as int) =~= piece@);
            }
            k = k + 1;
            assert(out@ =~= bpe_text(v, tokens@.take(k as int)));
        }
        assert(tokens@.take(tokens@.len() as int) =~= tokens@);
        string_of(out.as_slice())
    }

    /// The number of tokens: the entries of the vocabulary that are not
    /// empty (an empty entry marks an id that names no token).
    fn vocab_size(&self) -> (r: usize)
        ensures
            r == named_count(char_views(self.vocab@)),
    {
        let ghost v = char_views(self.vocab@);
        let mut n: usize = 0;
        let mut i: usize = 0;
        while i < self.vocab.len()
            invariant
                i <= self.vocab@.len(),
                v == char_views(self.vocab@),
                n == named_count(v.take(i as int)),
                n <= i,
            decreases self.vocab.len() - i,
        {
            proof {
                assert(v.take(i + 1).drop_last() =~= v.take(i as int));
                assert(v[i as int] == self.vocab@[i as int]@);
            }
            if self.vocab[i].len() > 0 {
                n = n + 1;
            }
            i = i + 1;
        }
        proof {
            assert(v.take(self.vocab@.len() as int) =~= v);
        }
        n
    }
}

/// Singletons of a concatenation are the singletons of the parts.
proof fn lemma_singletons_append(a: Seq<char>, b: Seq<char>)
    ensures
        singletons(a + b) == singletons(a) + singletons(b),
{
    assert(singletons(a + b) =~= singletons(a) + singletons(b));
}

/// Without merges, the symbols of pre-tokens are the characters of their
/// concatenation.
proof fn lemma_symbols_unmerged(toks: Seq<Seq<char>>)
    ensures
        bpe_symbols(toks, Seq::empty()) == singletons(concat(toks)),
    decreases toks.len(),
{
    if toks.len() == 0 {
        assert(singletons(Seq::<char>::empty()) =~= Seq::<Seq<char>>::empty());
    } else {
        lemma_symbols_unmerged(toks.drop_last());
        lemma_singletons_append(concat(toks.drop_last()), toks.last());
    }
}

/// In the 256 character tokens, the one-character symbol of a character
/// below 256 is found at its code.
proof fn lemma_find_byte(v: Seq<Seq<char>>, c: char, k: int)
    requires
        v.len() == 256,
        forall|i: int| 0 <= i < 256 ==> #[trigger] v[i] == byte_token(i),
        (c as u32) < 256,
        0 <= k <= (c as u32),
    ensures
        find_from(v, seq![c], k) == Some(c as u32 as int),
    decreases 256 - k,
{
    if k < (c as u32) {
        assert(v[k] == byte_token(k));
        assert(byte_token(k)[0] != c);
        assert(v[k] != seq![c]);
        lemma_find_byte(v, c, k + 1);
    } else {
        assert(v[k] == byte_token(k));
        assert(byte_token(k) =~= seq![c]);
    }
}

/// The token of a character below 256 is that character.
proof fn lemma_byte_token_of(c: char)
    requires
        (c as u32) < 256,
    ensures
        byte_token((c as u32) as int) == seq![c],
{
    let k = (c as u32) as int;
    assert(((k as u8) as char) == c);
    assert(byte_token(k) =~= seq![c]);
}

/// The ids of the characters of `u`, all below 256, are their codes.
proof fn lemma_byte_ids(v: Seq<Seq<char>>, u: Seq<char>)
    requires
        v.len() == 256,
        forall|i: int| 0 <= i < 256 ==> #[trigger] v[i] == byte_token(i),
        forall|i: int| 0 <= i < u.len() ==> (#[trigger] u[i] as u32) < 256,
    ensures
        ids_of(v, singletons(u)) == Seq::new(u.len(), |i: int| u[i] as u32),
    decreases u.len(),
{
    if u.len() == 0 {
        assert(ids_of(v, singletons(u)) =~= Seq::new(u.len(), |i: int| u[i] as u32));
    } else {
        let p = u.drop_last();
        assert(singletons(u).drop_last() =~= singletons(p));
        lemma_byte_ids(v, p);
        let c = u.last();
        assert((u[u.len() - 1] as u32) < 256);
        lemma_find_byte(v, c, 0);
        assert(ids_of(v, singletons(u)) =~= Seq::new(u.len(), |i: int| u[i] as u32));
    }
}

/// Decoding codes below 256 with the 256 character tokens gives their
/// characters back.
proof fn lemma_byte_text(v: Seq<Seq<char>>, u: Seq<char>)
    requires
        v.len() == 256,
        forall|i: int| 0 <= i < 256 ==> #[trigger] v[i] == byte_token(i),
        forall|i: int| 0 <= i < u.len() ==> (#[trigger] u[i] as u32) < 256,
    ensures
        bpe_text(v, Seq::new(u.len(), |i: int| u[i] as u32)) == u,
    decreases u.len(),
{
    let ids = Seq::new(u.len(), |i: int| u[i] as u32);
    if u.len() > 0 {
        let p = u.drop_last();
        assert(ids.drop_last() =~= Seq::new(p.len(), |i: int| p[i] as u32));
        lemma_byte_text(v, p);
        let c = u.last();
        assert((u[u.len() - 1] as u32) < 256);
        let id = ids.last();
        let k = id as int;
        assert((c as u32) < 256);
        assert(k == (c as u32) as int);
        assert(v[k] == byte_token(k));
        lemma_byte_token_of(c);
        assert(seq![c].skip(1) =~= Seq::<char>::empty());
        assert(strip_marker(Seq::<char>::empty()) == Seq::<char>::empty());
        assert(strip_marker(seq![c]) =~= seq![c]);
        assert(p + seq![c] =~= u);
    } else {
        assert(u =~= Seq::<char>::empty());
    }
}

/// A tokenizer with only the 256 character tokens and no merges encodes a
/// text of characters below 256 to ids that decode back to the text.
pub proof fn law_bpe_round_trip(r: BpeTokenizer, t: Seq<char>)
    requires
        r.vocab@.len() == 256,
        forall|i: int| 0 <= i < 256 ==> (#[trigger] r.vocab@[i])@ == byte_token(i),
        r.merges@.len() == 0,
        forall|i: int| 0 <= i < t.len() ==> (#[trigger] t[i] as u32) < 256,
    ensures
        bpe_text(
            char_views(r.vocab@),
            ids_of(char_views(r.vocab@), bpe_symbols(pre_tokens(t), merge_views(r.merges@))),
        ) == t,
{
    let v = char_views(r.vocab@);
    assert forall|i: int| 0 <= i < 256 implies #[trigger] v[i] == byte_token(i) by {
        assert(r.vocab@[i]@ == byte_token(i));
    }
    assert(merge_views(r.merges@) =~= Seq::<(Seq<char>, Seq<char>)>::empty());
    crate::tokenizers::law_pre_tokens_concat(t);
    lemma_symbols_unmerged(pre_tokens(t));
    lemma_byte_ids(v, t);
    lemma_byte_text(v, t);
}

} // verus!
