//! Text tokenizers, and the splitting of text into words they share.
use vstd::prelude::*;

pub mod bpe;
pub mod bpe_files;
pub mod pairs;
pub mod trietoken;
pub mod wordpiece;

pub use bpe::BpeTokenizer;
pub use trietoken::TrieTokenTokenizer;
pub use wordpiece::WordPieceTokenizer;

verus! {

/// Turns text into token ids and back.
pub trait Tokenizer {
    /// The token ids of `text`.
    fn encode(&self, text: &str) -> Vec<u32>;

    /// The text of a list of token ids.
    fn decode(&self, tokens: &[u32]) -> String;

    /// The number of tokens of the vocabulary.
    fn vocab_size(&self) -> usize;
}

/// Whether `c` has the Unicode `White_Space` property (`char::is_whitespace`):
/// the 25 code points tab to carriage return, space, next line, no-break
/// space, ogham space mark, en quad to hair space, line and paragraph
/// separator, narrow no-break space, medium mathematical space and
/// ideographic space.
pub open spec fn is_whitespace_char(c: char) -> bool {
    let u = c as u32;
    ||| 0x9 <= u <= 0xD
    ||| u == 0x20
    ||| u == 0x85
    ||| u == 0xA0
    ||| u == 0x1680
    ||| 0x2000 <= u <= 0x200A
    ||| u == 0x2028
    ||| u == 0x2029
    ||| u == 0x202F
    ||| u == 0x205F
    ||| u == 0x3000
}

/// Whether `c` is alphabetic or numeric in Unicode (`char::is_alphanumeric`).
pub uninterp spec fn is_alphanumeric_char(c: char) -> bool;

/// The Unicode lowercase mapping of a string (`str::to_lowercase`).
pub uninterp spec fn lowercase(s: Seq<char>) -> Seq<char>;

/// Calls `char::is_whitespace`, which tests the Unicode `White_Space`
/// property, stated by `is_whitespace_char`.
#[verifier::external_body]
fn char_is_whitespace(c: char) -> (r: bool)
    ensures
        r == is_whitespace_char(c),
{
    c.is_whitespace()
}

/// Calls `char::is_alphanumeric`, whose result is named `is_alphanumeric_char`.
#[verifier::external_body]
fn char_is_alphanumeric(c: char) -> (r: bool)
    ensures
        r == is_alphanumeric_char(c),
{
    c.is_alphanumeric()
}

/// Calls `str::to_lowercase`, whose result is named `lowercase`.
#[verifier::external_body]
pub(crate) fn to_lowercase(s: &str) -> (r: String)
    ensures
        r@ == lowercase(s@),
{
    s.to_lowercase()
}

/// Calls `String::push`, which appends one character.
#[verifier::external_body]
pub(crate) fn push_char(s: &mut String, c: char)
    ensures
        final(s)@ == old(s)@.push(c),
{
    s.push(c)
}

/// A string holding the characters `cs`.
pub fn string_of(cs: &[char]) -> (r: String)
    ensures
        r@ == cs@,
{
    let mut s = String::new();
    let mut i: usize = 0;
    while i < cs.len()
        invariant
            i <= cs@.len(),
            s@ == cs@.take(i as int),
        decreases cs.len() - i,
    {
        push_char(&mut s, cs[i]);
        i = i + 1;
        assert(s@ =~= cs@.take(i as int));
    }
    assert(cs@.take(cs@.len() as int) =~= cs@);
    s
}

/// The characters of a string.
pub fn chars_of(s: &str) -> (r: Vec<char>)
    ensures
        r@ == s@,
{
    let n = s.unicode_len();
    let mut v: Vec<char> = Vec::new();
    let mut i: usize = 0;
    while i < n
        invariant
            n == s@.len(),
            i <= n,
            v@ == s@.take(i as int),
        decreases n - i,
    {
        v.push(s.get_char(i));
        i = i + 1;
        assert(v@ =~= s@.take(i as int));
    }
    assert(s@.take(n as int) =~= s@);
    v
}

/// Characters that end a word and stand as tokens of their own: white
/// space and every other character that is neither alphanumeric nor an
/// apostrophe.
pub open spec fn is_separator(c: char) -> bool {
    is_whitespace_char(c) || (!is_alphanumeric_char(c) && c != '\'')
}

/// `cur` as a one-token list, or nothing if it is empty.
pub open spec fn flush(cur: Seq<char>) -> Seq<Seq<char>> {
    if cur.len() > 0 {
        seq![cur]
    } else {
        Seq::empty()
    }
}

/// The tokens of `s` when `cur` holds the characters of the word read so far.
pub open spec fn pre_tokens_from(s: Seq<char>, cur: Seq<char>) -> Seq<Seq<char>>
    decreases s.len(),
{
    if s.len() == 0 {
        flush(cur)
    } else if is_separator(s[0]) {
        flush(cur) + seq![seq![s[0]]] + pre_tokens_from(s.drop_first(), Seq::empty())
    } else {
        pre_tokens_from(s.drop_first(), cur.push(s[0]))
    }
}

/// The pre-tokens of a text: maximal runs of word characters, and each
/// separator on its own.
pub open spec fn pre_tokens(s: Seq<char>) -> Seq<Seq<char>> {
    pre_tokens_from(s, Seq::empty())
}

/// The words of `s` when `cur` holds the characters of the word read so far.
pub open spec fn words_from(s: Seq<char>, cur: Seq<char>) -> Seq<Seq<char>>
    decreases s.len(),
{
    if s.len() == 0 {
        flush(cur)
    } else if is_whitespace_char(s[0]) {
        flush(cur) + words_from(s.drop_first(), Seq::empty())
    } else {
        words_from(s.drop_first(), cur.push(s[0]))
    }
}

/// The maximal runs of non-white-space characters of a text.
pub open spec fn words(s: Seq<char>) -> Seq<Seq<char>> {
    words_from(s, Seq::empty())
}

/// The views of a list of strings.
pub open spec fn views(v: Seq<String>) -> Seq<Seq<char>> {
    v.map_values(|s: String| s@)
}

proof fn lemma_views_push(v: Seq<String>, x: String)
    ensures
        views(v.push(x)) == views(v).push(x@),
{
    assert(views(v.push(x)) =~= views(v).push(x@));
}

/// Splits `text` into words and separators, each separator a token of its
/// own.
pub fn pre_tokenize(text: &str) -> (r: Vec<String>)
    ensures
        views(r@) == pre_tokens(text@),
{
    let cs = chars_of(text);
    let mut result: Vec<String> = Vec::new();
    let mut current: Vec<char> = Vec::new();
    let mut i: usize = 0;
    assert(cs@.skip(0) =~= cs@);
    assert(views(result@) =~= Seq::<Seq<char>>::empty());
    assert(views(result@) + pre_tokens_from(cs@.skip(0), current@) =~= pre_tokens(text@));
    while i < cs.len()
        invariant
            i <= cs@.len(),
            cs@ == text@,
            views(result@) + pre_tokens_from(cs@.skip(i as int), current@) == pre_tokens(text@),
        decreases cs.len() - i,
    {
        let c = cs[i];
        let ghost rest = cs@.skip(i as int);
        assert(rest[0] == c);
        assert(rest.drop_first() =~= cs@.skip(i + 1));
        let ghost r0 = views(result@);
        let ghost cur0 = current@;
        if char_is_whitespace(c) || (!char_is_alphanumeric(c) && c != '\'') {
            if current.len() > 0 {
                let t = string_of(current.as_slice());
                proof {
                    lemma_views_push(result@, t);
                }
                result.push(t);
                current = Vec::new();
            }
            assert(views(result@) =~= r0 + flush(cur0));
            let single: Vec<char> = vec![c];
            let t = string_of(single.as_slice());
            proof {
                lemma_views_push(result@, t);
                assert(t@ =~= seq![c]);
            }
            result.push(t);
            proof {
                assert(views(result@) =~= r0 + flush(cur0) + seq![seq![c]]);
                assert(pre_tokens_from(rest, cur0) == flush(cur0) + seq![seq![c]] + pre_tokens_from(
                    rest.drop_first(),
                    Seq::empty(),
                ));
                assert(current@ =~= Seq::<char>::empty());
                assert(views(result@) + pre_tokens_from(cs@.skip(i + 1), current@) =~= r0
                    + pre_tokens_from(rest, cur0));
            }
        } else {
            current.push(c);
            assert(pre_tokens_from(rest, cur0) == pre_tokens_from(rest.drop_first(), cur0.push(c)));
        }
        i = i + 1;
    }
    let ghost r0 = views(result@);
    let ghost cur0 = current@;
    if current.len() > 0 {
        let t = string_of(current.as_slice());
        proof {
            lemma_views_push(result@, t);
        }
        result.push(t);
    }
    proof {
        assert(cs@.skip(i as int) =~= Seq::<char>::empty());
        assert(views(result@) =~= r0 + flush(cur0));
    }
    result
}

/// Splits `text` at white space, dropping it.
pub fn pre_tokenize_words(text: &str) -> (r: Vec<String>)
    ensures
        views(r@) == words(text@),
{
    let cs = chars_of(text);
    let mut result: Vec<String> = Vec::new();
    let mut current: Vec<char> = Vec::new();
    let mut i: usize = 0;
    assert(cs@.skip(0) =~= cs@);
    assert(views(result@) =~= Seq::<Seq<char>>::empty());
    assert(views(result@) + words_from(cs@.skip(0), current@) =~= words(text@));
    while i < cs.len()
        invariant
            i <= cs@.len(),
            cs@ == text@,
            views(result@) + words_from(cs@.skip(i as int), current@) == words(text@),
        decreases cs.len() - i,
    {
        let c = cs[i];
        let ghost rest = cs@.skip(i as int);
        assert(rest[0] == c);
        assert(rest.drop_first() =~= cs@.skip(i + 1));
        let ghost r0 = views(result@);
        let ghost cur0 = current@;
        if char_is_whitespace(c) {
            if current.len() > 0 {
                let t = string_of(current.as_slice());
                proof {
                    lemma_views_push(result@, t);
                }
                result.push(t);
                current = Vec::new();
            }
            proof {
                assert(views(result@) =~= r0 + flush(cur0));
                assert(words_from(rest, cur0) == flush(cur0) + words_from(rest.drop_first(), Seq::empty()));
                assert(current@ =~= Seq::<char>::empty());
                assert(views(result@) + words_from(cs@.skip(i + 1), current@) =~= r0 + words_from(rest, cur0));
            }
        } else {
            current.push(c);
            assert(words_from(rest, cur0) == words_from(rest.drop_first(), cur0.push(c)));
        }
        i = i + 1;
    }
    let ghost r0 = views(result@);
    let ghost cur0 = current@;
    if current.len() > 0 {
        let t = string_of(current.as_slice());
        proof {
            lemma_views_push(result@, t);
        }
        result.push(t);
    }
    proof {
        assert(cs@.skip(i as int) =~= Seq::<char>::empty());
        assert(views(result@) =~= r0 + flush(cur0));
    }
    result
}

/// The concatenation of a list of strings.
pub open spec fn concat(ts: Seq<Seq<char>>) -> Seq<char>
    decreases ts.len(),
{
    if ts.len() == 0 {
        Seq::empty()
    } else {
        concat(ts.drop_last()) + ts.last()
    }
}

pub(crate) proof fn lemma_concat_append(a: Seq<Seq<char>>, b: Seq<Seq<char>>)
    ensures
        concat(a + b) == concat(a) + concat(b),
    decreases b.len(),
{
    if b.len() == 0 {
        assert(a + b =~= a);
        assert(concat(a) + concat(b) =~= concat(a));
    } else {
        lemma_concat_append(a, b.drop_last());
        assert((a + b).drop_last() =~= a + b.drop_last());
        assert(concat(a) + concat(b) =~= concat(a) + concat(b.drop_last()) + b.last());
    }
}

/// The characters of a nonempty list of symbols: its first symbol, then
/// the rest.
pub(crate) proof fn lemma_concat_first(w: Seq<Seq<char>>)
    requires
        w.len() > 0,
    ensures
        concat(w) == w[0] + concat(w.skip(1)),
{
    assert(w =~= seq![w[0]] + w.skip(1));
    lemma_concat_append(seq![w[0]], w.skip(1));
    lemma_concat_single(w[0]);
}

pub(crate) proof fn lemma_concat_single(x: Seq<char>)
    ensures
        concat(seq![x]) == x,
{
    assert(seq![x].drop_last() =~= Seq::<Seq<char>>::empty());
    assert(concat(Seq::<Seq<char>>::empty()) == Seq::<char>::empty());
    assert(Seq::<char>::empty() + x =~= x);
}

proof fn lemma_flush_concat(cur: Seq<char>)
    ensures
        concat(flush(cur)) == cur,
{
    if cur.len() > 0 {
        lemma_concat_single(cur);
    } else {
        assert(cur =~= Seq::<char>::empty());
    }
}

proof fn lemma_pre_tokens_from_concat(s: Seq<char>, cur: Seq<char>)
    ensures
        concat(pre_tokens_from(s, cur)) == cur + s,
    decreases s.len(),
{
    if s.len() == 0 {
        lemma_flush_concat(cur);
        assert(cur + s =~= cur);
    } else if is_separator(s[0]) {
        lemma_pre_tokens_from_concat(s.drop_first(), Seq::empty());
        lemma_concat_append(flush(cur) + seq![seq![s[0]]], pre_tokens_from(s.drop_first(), Seq::empty()));
        lemma_concat_append(flush(cur), seq![seq![s[0]]]);
        lemma_flush_concat(cur);
        lemma_concat_single(seq![s[0]]);
        assert(cur + seq![s[0]] + (Seq::<char>::empty() + s.drop_first()) =~= cur + s);
    } else {
        lemma_pre_tokens_from_concat(s.drop_first(), cur.push(s[0]));
        assert(cur.push(s[0]) + s.drop_first() =~= cur + s);
    }
}

/// Pre-tokenizing loses nothing: the tokens put back together are the text.
pub proof fn law_pre_tokens_concat(s: Seq<char>)
    ensures
        concat(pre_tokens(s)) == s,
{
    lemma_pre_tokens_from_concat(s, Seq::empty());
    assert(Seq::<char>::empty() + s =~= s);
}

proof fn lemma_pre_tokens_from_shape(s: Seq<char>, cur: Seq<char>)
    requires
        forall|k: int| 0 <= k < cur.len() ==> !is_separator(#[trigger] cur[k]),
    ensures
        forall|j: int| 0 <= j < pre_tokens_from(s, cur).len() ==> {
            let t = #[trigger] pre_tokens_from(s, cur)[j];
            &&& t.len() > 0
            &&& (t.len() == 1 && is_separator(t[0])) || forall|k: int| 0 <= k < t.len() ==> !is_separator(t[k])
        },
    decreases s.len(),
{
    if s.len() == 0 {
        assert(pre_tokens_from(s, cur) == flush(cur));
        assert forall|j: int| 0 <= j < flush(cur).len() implies {
            let t = #[trigger] flush(cur)[j];
            &&& t.len() > 0
            &&& (t.len() == 1 && is_separator(t[0])) || forall|k: int| 0 <= k < t.len() ==> !is_separator(t[k])
        } by {
            assert(flush(cur)[j] == cur);
        }
    } else if is_separator(s[0]) {
        lemma_pre_tokens_from_shape(s.drop_first(), Seq::empty());
        let a = flush(cur) + seq![seq![s[0]]];
        let b = pre_tokens_from(s.drop_first(), Seq::empty());
        assert(pre_tokens_from(s, cur) == a + b);
        assert forall|j: int| 0 <= j < (a + b).len() implies {
            let t = #[trigger] (a + b)[j];
            &&& t.len() > 0
            &&& (t.len() == 1 && is_separator(t[0])) || forall|k: int| 0 <= k < t.len() ==> !is_separator(t[k])
        } by {
            if j >= a.len() {
                assert((a + b)[j] == b[j - a.len()]);
            } else if j == a.len() - 1 {
                assert((a + b)[j] == seq![s[0]]);
            } else {
                assert((a + b)[j] == cur);
            }
        }
    } else {
        let c2 = cur.push(s[0]);
        assert forall|k: int| 0 <= k < c2.len() implies !is_separator(#[trigger] c2[k]) by {
            if k < cur.len() {
                assert(c2[k] == cur[k]);
            }
        }
        lemma_pre_tokens_from_shape(s.drop_first(), c2);
        assert(pre_tokens_from(s, cur) == pre_tokens_from(s.drop_first(), c2));
    }
}

/// Every pre-token is non-empty, and is either one separator or a run of
/// word characters.
pub proof fn law_pre_tokens_shape(s: Seq<char>)
    ensures
        forall|j: int| 0 <= j < pre_tokens(s).len() ==> {
            let t = #[trigger] pre_tokens(s)[j];
            &&& t.len() > 0
            &&& (t.len() == 1 && is_separator(t[0])) || forall|k: int| 0 <= k < t.len() ==> !is_separator(t[k])
        },
{
    lemma_pre_tokens_from_shape(s, Seq::empty());
}

} // verus!
