//! The text files of a byte-pair-encoding tokenizer: a vocabulary file
//! with one token per line (its id is its line number) and a merges file
//! with one pair `first second` per line.
use vstd::prelude::*;

use crate::tokenizers::bpe::{chars_equal, merge_views, BpeTokenizer};
use crate::tokenizers::chars_of;
use crate::tokenizers::pairs::{char_views, copy_chars};

verus! {

/// A line without the `'\r'` that ends it, if one does.
pub open spec fn strip_cr(l: Seq<char>) -> Seq<char> {
    if l.len() > 0 && l.last() == '\r' {
        l.drop_last()
    } else {
        l
    }
}

/// The lines ended by `'\n'` in `s` (each without its `"\n"` or `"\r\n"`)
/// and the characters after the last `'\n'`.
pub open spec fn lines_acc(s: Seq<char>) -> (Seq<Seq<char>>, Seq<char>)
    decreases s.len(),
{
    if s.len() == 0 {
        (Seq::empty(), Seq::empty())
    } else {
        let (ls, cur) = lines_acc(s.drop_last());
        if s.last() == '\n' {
            (ls.push(strip_cr(cur)), Seq::empty())
        } else {
            (ls, cur.push(s.last()))
        }
    }
}

/// The lines of `s` as `str::lines` gives them: split at `'\n'`, a
/// `'\r'` just before a `'\n'` dropped, and a last line without a `'\n'`
/// kept when it is not empty.
pub open spec fn text_lines(s: Seq<char>) -> Seq<Seq<char>> {
    let (ls, cur) = lines_acc(s);
    if cur.len() > 0 {
        ls.push(cur)
    } else {
        ls
    }
}

/// The token of id `i` in a vocabulary file with lines `ls`: line `i`, if
/// it is not empty and no later line repeats it (a later line takes the
/// token over), else the empty token, which no symbol matches.
pub open spec fn vocab_entry(ls: Seq<Seq<char>>, i: int) -> Seq<char> {
    if ls[i].len() > 0 && forall|j: int| i < j < ls.len() ==> ls[j] != ls[i] {
        ls[i]
    } else {
        Seq::empty()
    }
}

/// The vocabulary of a file with lines `ls`, by id.
pub open spec fn vocab_from_lines(ls: Seq<Seq<char>>) -> Seq<Seq<char>> {
    Seq::new(ls.len(), |i: int| vocab_entry(ls, i))
}

/// The number of spaces in `l`.
pub open spec fn space_count(l: Seq<char>) -> nat
    decreases l.len(),
{
    if l.len() == 0 {
        0
    } else {
        space_count(l.drop_last()) + if l.last() == ' ' {
            1nat
        } else {
            0nat
        }
    }
}

/// The position of the first space in `l` (`l.len()` if there is none).
pub open spec fn first_space(l: Seq<char>) -> int
    decreases l.len(),
{
    if l.len() == 0 {
        0
    } else if space_count(l.drop_last()) > 0 {
        first_space(l.drop_last())
    } else if l.last() == ' ' {
        l.len() - 1
    } else {
        l.len() as int
    }
}

/// The pair of a merges line: the parts before and after its one space;
/// none for a line with no space or more than one.
pub open spec fn merge_of(l: Seq<char>) -> Option<(Seq<char>, Seq<char>)> {
    if space_count(l) == 1 {
        Some((l.take(first_space(l)), l.skip(first_space(l) + 1)))
    } else {
        None
    }
}

/// The pairs of the merges lines `ls` that have one, in order.
pub open spec fn merges_from_lines(ls: Seq<Seq<char>>) -> Seq<(Seq<char>, Seq<char>)>
    decreases ls.len(),
{
    if ls.len() == 0 {
        Seq::empty()
    } else {
        let prev = merges_from_lines(ls.drop_last());
        match merge_of(ls.last()) {
            Some(p) => prev.push(p),
            None => prev,
        }
    }
}

/// The lines of `s`, as `text_lines` describes them.
pub fn split_lines(s: &str) -> (r: Vec<Vec<char>>)
    ensures
        char_views(r@) == text_lines(s@),
{
    let cs = chars_of(s);
    let mut lines: Vec<Vec<char>> = Vec::new();
    let mut cur: Vec<char> = Vec::new();
    let mut i: usize = 0;
    while i < cs.len()
        invariant
            i <= cs@.len(),
            cs@ == s@,
            (char_views(lines@), cur@) == lines_acc(cs@.take(i as int)),
        decreases cs.len() - i,
    {
        proof {
            assert(cs@.take(i + 1).drop_last() =~= cs@.take(i as int));
        }
        let c = cs[i];
        if c == '\n' {
            let ghost before = lines@;
            let n = cur.len();
            if n > 0 && cur[n - 1] == '\r' {
                cur.pop();
            }
            let line = cur;
            lines.push(line);
            proof {
                assert(char_views(lines@) =~= char_views(before).push(line@));
            }
            cur = Vec::new();
        } else {
            cur.push(c);
        }
        i = i + 1;
    }
    proof {
        assert(cs@.take(cs@.len() as int) =~= cs@);
    }
    if cur.len() > 0 {
        let ghost before = lines@;
        let last = cur;
        lines.push(last);
        proof {
            assert(char_views(lines@) =~= char_views(before).push(last@));
        }
    }
    lines
}

/// Whether some line after `i` equals line `i`.
fn repeated_later(ls: &Vec<Vec<char>>, i: usize) -> (r: bool)
    requires
        i < ls.len(),
    ensures
        r == exists|j: int| i < j < ls@.len() && #[trigger] ls@[j]@ == ls@[i as int]@,
{
    let mut j: usize = i + 1;
    while j < ls.len()
        invariant
            i < j <= ls@.len(),
            forall|k: int| i < k < j ==> #[trigger] ls@[k]@ != ls@[i as int]@,
        decreases ls.len() - j,
    {
        if chars_equal(ls[j].as_slice(), ls[i].as_slice()) {
            return true;
        }
        j = j + 1;
    }
    false
}

/// The pair of a merges line, as `merge_of` describes it.
fn parse_merge(l: &Vec<char>) -> (r: Option<(Vec<char>, Vec<char>)>)
    ensures
        match r {
            Some((a, b)) => merge_of(l@) == Some((a@, b@)),
            None => merge_of(l@) is None,
        },
{
    let mut spaces: usize = 0;
    let mut at: usize = 0;
    let mut j: usize = 0;
    while j < l.len()
        invariant
            j <= l@.len(),
            spaces == space_count(l@.take(j as int)),
            spaces <= j,
            spaces > 0 ==> at == first_space(l@.take(j as int)) && at < j,
        decreases l.len() - j,
    {
        proof {
            assert(l@.take(j + 1).drop_last() =~= l@.take(j as int));
        }
        if l[j] == ' ' {
            if spaces == 0 {
                at = j;
            }
            spaces = spaces + 1;
        }
        j = j + 1;
    }
    proof {
        assert(l@.take(l@.len() as int) =~= l@);
    }
    if spaces != 1 {
        return None;
    }
    let mut a: Vec<char> = Vec::new();
    let mut k: usize = 0;
    while k < at
        invariant
            k <= at,
            at < l@.len(),
            a@ == l@.take(k as int),
        decreases at - k,
    {
        a.push(l[k]);
        k = k + 1;
        assert(a@ =~= l@.take(k as int));
    }
    let mut b: Vec<char> = Vec::new();
    let mut k: usize = at + 1;
    while k < l.len()
        invariant
            at + 1 <= k <= l@.len(),
            b@ == l@.subrange(at + 1, k as int),
        decreases l.len() - k,
    {
        b.push(l[k]);
        k = k + 1;
        assert(b@ =~= l@.subrange(at + 1, k as int));
    }
    assert(b@ =~= l@.skip(at + 1));
    Some((a, b))
}

impl BpeTokenizer {
    /// A tokenizer from the contents of a vocabulary file and a merges
    /// file: token `i` is line `i` of the vocabulary (see `vocab_entry`),
    /// and the merges are the pairs of the merges lines with exactly one
    /// space, in order.
    pub fn from_contents(vocab: &str, merges: &str) -> (r: Self)
        ensures
            char_views(r.vocab@) == vocab_from_lines(text_lines(vocab@)),
            merge_views(r.merges@) == merges_from_lines(text_lines(merges@)),
    {
        let vl = split_lines(vocab);
        let ghost ls = char_views(vl@);
        let mut tokens: Vec<Vec<char>> = Vec::new();
        let mut i: usize = 0;
        while i < vl.len()
            invariant
                i <= vl@.len(),
                ls == char_views(vl@),
                char_views(tokens@) == vocab_from_lines(ls).take(i as int),
            decreases vl.len() - i,
        {
            let ghost before = tokens@;
            let keep = vl[i].len() > 0 && !repeated_later(&vl, i);
            proof {
                assert(ls[i as int] == vl@[i as int]@);
                if !keep && vl@[i as int]@.len() > 0 {
                    let j = choose|j: int| i < j < vl@.len() && #[trigger] vl@[j]@ == vl@[i as int]@;
                    assert(ls[j] == ls[i as int]);
                }
                if keep {
                    assert forall|j: int| i < j < ls.len() implies ls[j] != ls[i as int] by {
                        assert(ls[j] == vl@[j]@);
                    }
                }
            }
            let entry: Vec<char> = if keep {
                copy_chars(vl[i].as_slice())
            } else {
                Vec::new()
            };
            assert(entry@ == vocab_entry(ls, i as int));
            tokens.push(entry);
            proof {
                assert(char_views(tokens@) =~= char_views(before).push(entry@));
                assert(char_views(tokens@) =~= vocab_from_lines(ls).take(i + 1));
            }
            i = i + 1;
        }
        let ml = split_lines(merges);
        let ghost ms = char_views(ml@);
        let mut pairs: Vec<(Vec<char>, Vec<char>)> = Vec::new();
        let mut k: usize = 0;
        while k < ml.len()
            invariant
                k <= ml@.len(),
                ms == char_views(ml@),
                merge_views(pairs@) == merges_from_lines(ms.take(k as int)),
            decreases ml.len() - k,
        {
            let ghost before = pairs@;
            proof {
                assert(ms.take(k + 1).drop_last() =~= ms.take(k as int));
                assert(ms.take(k + 1).last() == ml@[k as int]@);
            }
            match parse_merge(&ml[k]) {
                Some(p) => {
                    pairs.push(p);
                    proof {
                        assert(merge_views(pairs@) =~= merge_views(before).push((p.0@, p.1@)));
                    }
                },
                None => {},
            }
            k = k + 1;
        }
        proof {
            assert(vocab_from_lines(ls).take(vl@.len() as int) =~= vocab_from_lines(ls));
            assert(ms.take(ml@.len() as int) =~= ms);
        }
        BpeTokenizer { vocab: tokens, merges: pairs }
    }
}


/// The tokens `ts`, each followed by a `'\n'`: a vocabulary file.
pub open spec fn join_lines(ts: Seq<Seq<char>>) -> Seq<char>
    decreases ts.len(),
{
    if ts.len() == 0 {
        Seq::empty()
    } else {
        join_lines(ts.drop_last()) + ts.last() + seq!['\n']
    }
}

/// Characters without a `'\n'` extend the current line.
proof fn lemma_lines_acc_append(p: Seq<char>, t: Seq<char>)
    requires
        forall|i: int| 0 <= i < t.len() ==> t[i] != '\n',
    ensures
        lines_acc(p + t) == (lines_acc(p).0, lines_acc(p).1 + t),
    decreases t.len(),
{
    if t.len() == 0 {
        assert(p + t =~= p);
        assert(lines_acc(p).1 + t =~= lines_acc(p).1);
    } else {
        assert((p + t).drop_last() =~= p + t.drop_last());
        lemma_lines_acc_append(p, t.drop_last());
        assert(lines_acc(p).1 + t.drop_last() + seq![t.last()] =~= lines_acc(p).1 + t);
        assert((lines_acc(p).1 + t.drop_last()).push(t.last()) =~= lines_acc(p).1 + t);
    }
}

/// Reading the lines of `join_lines(ts)` gives `ts` back, when no token
/// holds a `'\n'` or ends with a `'\r'`.
proof fn lemma_join_lines(ts: Seq<Seq<char>>)
    requires
        forall|k: int, i: int| 0 <= k < ts.len() && 0 <= i < ts[k].len() ==> ts[k][i] != '\n',
        forall|k: int| 0 <= k < ts.len() && ts[k].len() > 0 ==> ts[k].last() != '\r',
    ensures
        lines_acc(join_lines(ts)) == (ts, Seq::<char>::empty()),
    decreases ts.len(),
{
    if ts.len() == 0 {
        assert(lines_acc(join_lines(ts)).0 =~= ts);
    } else {
        let init = ts.drop_last();
        let t = ts.last();
        lemma_join_lines(init);
        let x = join_lines(init);
        assert(forall|i: int| 0 <= i < t.len() ==> t[i] != '\n') by {
            assert(t == ts[ts.len() - 1]);
        }
        lemma_lines_acc_append(x, t);
        let whole = x + t + seq!['\n'];
        assert(whole.drop_last() =~= x + t);
        assert(Seq::<char>::empty() + t =~= t);
        assert(strip_cr(t) == t) by {
            assert(t == ts[ts.len() - 1]);
        }
        assert(init.push(t) =~= ts);
    }
}

/// A vocabulary file that lists distinct non-empty tokens, one per line,
/// each line ended by `'\n'` (tokens without a `'\n'` or a final `'\r'`),
/// reads back as those tokens, the token of id `i` on line `i`.
pub proof fn law_vocab_lines_read_back(ts: Seq<Seq<char>>)
    requires
        forall|k: int| 0 <= k < ts.len() ==> #[trigger] ts[k].len() > 0,
        forall|k: int, i: int| 0 <= k < ts.len() && 0 <= i < ts[k].len() ==> ts[k][i] != '\n',
        forall|k: int| 0 <= k < ts.len() ==> #[trigger] ts[k].last() != '\r',
        forall|j: int, k: int| 0 <= j < k < ts.len() ==> ts[j] != ts[k],
    ensures
        vocab_from_lines(text_lines(join_lines(ts))) == ts,
{
    lemma_join_lines(ts);
    assert(text_lines(join_lines(ts)) == ts);
    assert(vocab_from_lines(ts) =~= ts);
}

} // verus!
