//! The checkpoint file format: a magic number, the number of variables,
//! then for each variable its shape and its values, every number a
//! little-endian 32-bit word (values as the bit patterns of `f32`s).
use vstd::prelude::*;

use crate::errors::{decimal, two_numbers_message, VolticError};

verus! {

/// `"VOLT"` read as a little-endian word.
pub const CHECKPOINT_MAGIC: u32 = 0x564F4C54;

/// The saved shape and values (as `f32` bit patterns) of one variable.
#[derive(Debug, Clone, PartialEq)]
pub struct Entry {
    pub shape: Vec<u32>,
    pub data: Vec<u32>,
}

impl Entry {
    pub open spec fn view(&self) -> (Seq<u32>, Seq<u32>) {
        (self.shape@, self.data@)
    }
}

/// The views of a list of entries.
pub open spec fn entry_views(es: Seq<Entry>) -> Seq<(Seq<u32>, Seq<u32>)> {
    es.map_values(|e: Entry| e.view())
}

/// The four little-endian bytes of `x`.
pub open spec fn le_bytes(x: u32) -> Seq<u8> {
    seq![(x % 256) as u8, ((x / 256) % 256) as u8, ((x / 65536) % 256) as u8, (x / 16777216) as u8]
}

/// The words `ws`, four little-endian bytes each.
pub open spec fn words_bytes(ws: Seq<u32>) -> Seq<u8>
    decreases ws.len(),
{
    if ws.len() == 0 {
        Seq::empty()
    } else {
        words_bytes(ws.drop_last()) + le_bytes(ws.last())
    }
}

/// One variable: the rank, the shape, the number of values, the values.
pub open spec fn entry_bytes(e: (Seq<u32>, Seq<u32>)) -> Seq<u8> {
    le_bytes(e.0.len() as u32) + words_bytes(e.0) + le_bytes(e.1.len() as u32) + words_bytes(e.1)
}

/// The variables one after the other.
pub open spec fn entries_bytes(es: Seq<(Seq<u32>, Seq<u32>)>) -> Seq<u8>
    decreases es.len(),
{
    if es.len() == 0 {
        Seq::empty()
    } else {
        entries_bytes(es.drop_last()) + entry_bytes(es.last())
    }
}

/// A whole checkpoint of the variables `es`.
pub open spec fn checkpoint_bytes(es: Seq<(Seq<u32>, Seq<u32>)>) -> Seq<u8> {
    le_bytes(CHECKPOINT_MAGIC) + le_bytes(es.len() as u32) + entries_bytes(es)
}

/// The counts of a checkpoint of `es` fit in its 32-bit words.
pub open spec fn counts_fit(es: Seq<(Seq<u32>, Seq<u32>)>) -> bool {
    &&& es.len() <= u32::MAX
    &&& forall|i: int| 0 <= i < es.len() ==> (#[trigger] es[i]).0.len() <= u32::MAX && es[i].1.len() <= u32::MAX
}

/// The little-endian word at byte `p` of `b`.
pub open spec fn word_at(b: Seq<u8>, p: int) -> u32 {
    (b[p] + 256 * b[p + 1] + 65536 * b[p + 2] + 16777216 * b[p + 3]) as u32
}

/// The `n` words from byte `p` of `b`.
pub open spec fn words_at(b: Seq<u8>, p: int, n: nat) -> Seq<u32> {
    Seq::new(n, |i: int| word_at(b, p + 4 * i))
}

/// The first `k` variables read from byte `p` of `b`, and where they end;
/// `None` when the bytes run out.
pub open spec fn read_entries(b: Seq<u8>, p: int, k: nat) -> Option<(Seq<(Seq<u32>, Seq<u32>)>, int)>
    decreases k,
{
    if k == 0 {
        Some((Seq::empty(), p))
    } else {
        match read_entries(b, p, (k - 1) as nat) {
            None => None,
            Some((es, q)) => {
                if q + 4 > b.len() {
                    None
                } else {
                    let rank = word_at(b, q);
                    let q1 = q + 4;
                    if q1 + 4 * rank + 4 > b.len() {
                        None
                    } else {
                        let count = word_at(b, q1 + 4 * rank);
                        let q2 = q1 + 4 * rank + 4;
                        if q2 + 4 * count > b.len() {
                            None
                        } else {
                            Some((es.push((words_at(b, q1, rank as nat), words_at(b, q2, count as nat))), q2 + 4 * count))
                        }
                    }
                }
            }
        }
    }
}

/// The error of a read that runs out of bytes.
pub open spec fn truncated_message() -> Seq<char> {
    "failed to fill whole buffer"@
}

/// The error of a checkpoint with another number of variables.
pub open spec fn count_message(found: u32, expected: usize) -> Seq<char> {
    "Checkpoint has "@ + decimal(found as nat) + " vars but expected "@ + decimal(expected as nat)
}

/// The message of a checkpoint with another number of variables.
fn format_count_message(found: u32, expected: usize) -> (r: String)
    ensures
        r@ == count_message(found, expected),
{
    let r = two_numbers_message("Checkpoint has ", found as u64, " vars but expected ", expected as u64, "");
    proof {
        reveal_strlit("");
        assert(r@ =~= count_message(found, expected));
    }
    r
}

/// The little-endian bytes of `x`.
fn push_word(out: &mut Vec<u8>, x: u32)
    ensures
        final(out)@ == old(out)@ + le_bytes(x),
{
    out.push((x % 256) as u8);
    out.push(((x / 256) % 256) as u8);
    out.push(((x / 65536) % 256) as u8);
    out.push((x / 16777216) as u8);
    assert(final(out)@ =~= old(out)@ + le_bytes(x));
}

/// Appends the words of `ws`.
fn push_words(out: &mut Vec<u8>, ws: &Vec<u32>)
    ensures
        final(out)@ == old(out)@ + words_bytes(ws@),
{
    let mut i: usize = 0;
    while i < ws.len()
        invariant
            i <= ws@.len(),
            out@ == old(out)@ + words_bytes(ws@.take(i as int)),
        decreases ws.len() - i,
    {
        assert(ws@.take(i + 1).drop_last() =~= ws@.take(i as int));
        push_word(out, ws[i]);
        i = i + 1;
        assert(out@ =~= old(out)@ + words_bytes(ws@.take(i as int)));
    }
    assert(ws@.take(ws@.len() as int) =~= ws@);
}

/// The bytes of a checkpoint of `entries`.
pub fn encode_checkpoint(entries: &Vec<Entry>) -> (r: Vec<u8>)
    requires
        counts_fit(entry_views(entries@)),
    ensures
        r@ == checkpoint_bytes(entry_views(entries@)),
{
    let ghost es = entry_views(entries@);
    let mut out: Vec<u8> = Vec::new();
    push_word(&mut out, CHECKPOINT_MAGIC);
    push_word(&mut out, entries.len() as u32);
    let ghost head = out@;
    let mut i: usize = 0;
    while i < entries.len()
        invariant
            i <= entries@.len(),
            es == entry_views(entries@),
            counts_fit(es),
            head == le_bytes(CHECKPOINT_MAGIC) + le_bytes(es.len() as u32),
            out@ == head + entries_bytes(es.take(i as int)),
        decreases entries.len() - i,
    {
        let e = &entries[i];
        assert(es[i as int] == e.view());
        assert(es.take(i + 1).drop_last() =~= es.take(i as int));
        push_word(&mut out, e.shape.len() as u32);
        push_words(&mut out, &e.shape);
        push_word(&mut out, e.data.len() as u32);
        push_words(&mut out, &e.data);
        i = i + 1;
        assert(out@ =~= head + entries_bytes(es.take(i as int)));
    }
    assert(es.take(entries@.len() as int) =~= es);
    out
}

/// The little-endian word at byte `p` of `b`.
fn read_word(b: &[u8], p: usize) -> (r: u32)
    requires
        p + 4 <= b@.len(),
    ensures
        r == word_at(b@, p as int),
{
    let v: u64 = b[p] as u64 + 256 * (b[p + 1] as u64) + 65536 * (b[p + 2] as u64) + 16777216 * (
    b[p + 3] as u64);
    v as u32
}

/// Reads `n` words from byte `p` of `b`.
fn read_words(b: &[u8], p: usize, n: u32) -> (r: Vec<u32>)
    requires
        p + 4 * n <= b@.len(),
    ensures
        r@ == words_at(b@, p as int, n as nat),
{
    let blen = b.len();
    let mut out: Vec<u32> = Vec::new();
    let mut i: u32 = 0;
    while i < n
        invariant
            i <= n,
            p + 4 * n <= b@.len(),
            blen == b@.len(),
            out@ == words_at(b@, p as int, i as nat),
        decreases n - i,
    {
        let w = read_word(b, p + 4 * (i as usize));
        out.push(w);
        i = i + 1;
        assert(out@ =~= words_at(b@, p as int, i as nat));
    }
    out
}

/// The variables of the checkpoint `bytes`, which must hold `expected` of
/// them; bytes after the last variable are not read.
pub fn decode_checkpoint(bytes: &[u8], expected: usize) -> (r: Result<Vec<Entry>, VolticError>)
    ensures
        ({
            let b = bytes@;
            match r {
                Ok(es) => {
                    &&& b.len() >= 8
                    &&& word_at(b, 0) == CHECKPOINT_MAGIC
                    &&& word_at(b, 4) == expected
                    &&& read_entries(b, 8, expected as nat) matches Some((vs, _)) && vs == entry_views(es@)
                },
                Err(e) => if b.len() < 4 {
                    e matches VolticError::Internal(m) && m@ == truncated_message()
                } else if word_at(b, 0) != CHECKPOINT_MAGIC {
                    e matches VolticError::Internal(m) && m@ == "Invalid checkpoint file"@
                } else if b.len() < 8 {
                    e matches VolticError::Internal(m) && m@ == truncated_message()
                } else if word_at(b, 4) != expected {
                    e matches VolticError::Internal(m) && m@ == count_message(word_at(b, 4), expected)
                } else {
                    &&& read_entries(b, 8, expected as nat) is None
                    &&& e matches VolticError::Internal(m) && m@ == truncated_message()
                },
            }
        }),
{
    let ghost b = bytes@;
    if bytes.len() < 4 {
        return Err(VolticError::Internal(String::from_str("failed to fill whole buffer")));
    }
    let magic = read_word(bytes, 0);
    if magic != CHECKPOINT_MAGIC {
        return Err(VolticError::Internal(String::from_str("Invalid checkpoint file")));
    }
    if bytes.len() < 8 {
        return Err(VolticError::Internal(String::from_str("failed to fill whole buffer")));
    }
    let count = read_word(bytes, 4);
    if count as usize != expected {
        return Err(VolticError::Internal(format_count_message(count, expected)));
    }
    let mut entries: Vec<Entry> = Vec::new();
    let mut pos: usize = 8;
    let mut k: usize = 0;
    while k < expected
        invariant
            k <= expected,
            b == bytes@,
            read_entries(b, 8, k as nat) == Some((entry_views(entries@), pos as int)),
            pos <= b.len(),
            b.len() >= 8,
            word_at(b, 0) == CHECKPOINT_MAGIC,
            word_at(b, 4) == expected,
        decreases expected - k,
    {
        if bytes.len() - pos < 4 {
            proof {
                assert(read_entries(b, 8, (k + 1) as nat) is None);
                lemma_read_entries_none_grows(b, (k + 1) as nat, expected as nat);
            }
            return Err(VolticError::Internal(String::from_str("failed to fill whole buffer")));
        }
        let rank = read_word(bytes, pos);
        let q1 = pos + 4;
        if ((bytes.len() - q1) as u64) < 4 * (rank as u64) + 4 {
            proof {
                assert(read_entries(b, 8, (k + 1) as nat) is None);
                lemma_read_entries_none_grows(b, (k + 1) as nat, expected as nat);
            }
            return Err(VolticError::Internal(String::from_str("failed to fill whole buffer")));
        }
        let shape = read_words(bytes, q1, rank);
        let q = q1 + 4 * (rank as usize);
        let n = read_word(bytes, q);
        let q2 = q + 4;
        if ((bytes.len() - q2) as u64) < 4 * (n as u64) {
            proof {
                assert(read_entries(b, 8, (k + 1) as nat) is None);
                lemma_read_entries_none_grows(b, (k + 1) as nat, expected as nat);
            }
            return Err(VolticError::Internal(String::from_str("failed to fill whole buffer")));
        }
        let data = read_words(bytes, q2, n);
        let ghost before = entries@;
        entries.push(Entry { shape, data });
        pos = q2 + 4 * (n as usize);
        k = k + 1;
        proof {
            assert(entry_views(entries@) =~= entry_views(before).push((words_at(b, q1 as int, rank as nat), words_at(b, q2 as int, n as nat))));
        }
    }
    Ok(entries)
}

/// A read that runs out of bytes for `k` variables runs out for more.
proof fn lemma_read_entries_none_grows(b: Seq<u8>, k: nat, m: nat)
    requires
        read_entries(b, 8, k) is None,
        k <= m,
    ensures
        read_entries(b, 8, m) is None,
    decreases m - k,
{
    if k < m {
        lemma_read_entries_none_grows(b, k, (m - 1) as nat);
    }
}

/// A word written at byte `p` reads back from byte `p`.
proof fn lemma_word_reads_back(b: Seq<u8>, p: int, x: u32)
    requires
        0 <= p,
        p + 4 <= b.len(),
        b.subrange(p, p + 4) == le_bytes(x),
    ensures
        word_at(b, p) == x,
{
    assert(b[p] == le_bytes(x)[0]);
    assert(b[p + 1] == le_bytes(x)[1]);
    assert(b[p + 2] == le_bytes(x)[2]);
    assert(b[p + 3] == le_bytes(x)[3]);
    assert((x % 256) + 256 * ((x / 256) % 256) + 65536 * ((x / 65536) % 256) + 16777216 * (x / 16777216) == x)
        by (bit_vector);
    assert(x / 16777216 < 256) by (bit_vector);
}

/// The bytes of `ws` are four per word.
proof fn lemma_words_bytes_len(ws: Seq<u32>)
    ensures
        words_bytes(ws).len() == 4 * ws.len(),
    decreases ws.len(),
{
    if ws.len() > 0 {
        lemma_words_bytes_len(ws.drop_last());
    }
}

/// Words written from byte `p` read back from byte `p`.
proof fn lemma_words_read_back(b: Seq<u8>, p: int, ws: Seq<u32>)
    requires
        0 <= p,
        p + 4 * ws.len() <= b.len(),
        b.subrange(p, p + 4 * ws.len()) == words_bytes(ws),
    ensures
        words_at(b, p, ws.len()) == ws,
    decreases ws.len(),
{
    if ws.len() > 0 {
        let n = ws.len() - 1;
        let init = ws.drop_last();
        lemma_words_bytes_len(init);
        assert(b.subrange(p, p + 4 * n) =~= b.subrange(p, p + 4 * ws.len()).subrange(0, 4 * n));
        assert(words_bytes(ws).subrange(0, 4 * n) =~= words_bytes(init));
        lemma_words_read_back(b, p, init);
        assert(b.subrange(p + 4 * n, p + 4 * n + 4) =~= b.subrange(p, p + 4 * ws.len()).subrange(4 * n, 4 * n + 4));
        assert(words_bytes(ws).subrange(4 * n, 4 * n + 4) =~= le_bytes(ws.last()));
        lemma_word_reads_back(b, p + 4 * n, ws.last());
        assert forall|i: int| 0 <= i < ws.len() implies #[trigger] words_at(b, p, ws.len())[i] == ws[i] by {
            if i < n {
                assert(words_at(b, p, n as nat)[i] == init[i]);
            }
        }
        assert(words_at(b, p, ws.len()) =~= ws);
    } else {
        assert(words_at(b, p, 0) =~= ws);
    }
}

/// The number of bytes of one variable.
proof fn lemma_entry_bytes_len(e: (Seq<u32>, Seq<u32>))
    ensures
        entry_bytes(e).len() == 8 + 4 * e.0.len() + 4 * e.1.len(),
{
    lemma_words_bytes_len(e.0);
    lemma_words_bytes_len(e.1);
}

/// Variables written from byte `p` read back from byte `p`, ending where
/// their bytes end.
#[verifier::spinoff_prover]
#[verifier::rlimit(60)]
proof fn lemma_entries_read_back(b: Seq<u8>, p: int, es: Seq<(Seq<u32>, Seq<u32>)>)
    requires
        0 <= p,
        p + entries_bytes(es).len() <= b.len(),
        b.subrange(p, p + entries_bytes(es).len()) == entries_bytes(es),
        counts_fit(es),
    ensures
        read_entries(b, p, es.len()) == Some((es, p + entries_bytes(es).len())),
    decreases es.len(),
{
    if es.len() > 0 {
        let init = es.drop_last();
        let e = es.last();
        let q = p + entries_bytes(init).len();
        let all = entries_bytes(es);
        assert(all == entries_bytes(init) + entry_bytes(e));
        assert(counts_fit(init)) by {
            assert forall|i: int| 0 <= i < init.len() implies (#[trigger] init[i]).0.len() <= u32::MAX
                && init[i].1.len() <= u32::MAX by {
                assert(init[i] == es[i]);
            }
        }
        assert(b.subrange(p, q) =~= b.subrange(p, p + all.len()).subrange(0, entries_bytes(init).len() as int));
        assert(all.subrange(0, entries_bytes(init).len() as int) =~= entries_bytes(init));
        lemma_entries_read_back(b, p, init);
        lemma_entry_bytes_len(e);
        let eb = entry_bytes(e);
        assert(b.subrange(q, q + eb.len()) =~= b.subrange(p, p + all.len()).subrange(
            entries_bytes(init).len() as int,
            all.len() as int,
        ));
        assert(all.subrange(entries_bytes(init).len() as int, all.len() as int) =~= eb);
        let rank = e.0.len() as int;
        let count = e.1.len() as int;
        assert(es[es.len() - 1] == e);
        lemma_words_bytes_len(e.0);
        lemma_words_bytes_len(e.1);
        assert(b.subrange(q, q + 4) =~= eb.subrange(0, 4));
        assert(eb.subrange(0, 4) =~= le_bytes(rank as u32));
        lemma_word_reads_back(b, q, rank as u32);
        assert(b.subrange(q + 4, q + 4 + 4 * rank) =~= eb.subrange(4, 4 + 4 * rank));
        assert(eb.subrange(4, 4 + 4 * rank) =~= words_bytes(e.0));
        lemma_words_read_back(b, q + 4, e.0);
        assert(b.subrange(q + 4 + 4 * rank, q + 8 + 4 * rank) =~= eb.subrange(4 + 4 * rank, 8 + 4 * rank));
        assert(eb.subrange(4 + 4 * rank, 8 + 4 * rank) =~= le_bytes(count as u32));
        lemma_word_reads_back(b, q + 4 + 4 * rank, count as u32);
        assert(b.subrange(q + 8 + 4 * rank, q + 8 + 4 * rank + 4 * count) =~= eb.subrange(
            8 + 4 * rank,
            8 + 4 * rank + 4 * count,
        ));
        assert(eb.subrange(8 + 4 * rank, 8 + 4 * rank + 4 * count) =~= words_bytes(e.1));
        lemma_words_read_back(b, q + 8 + 4 * rank, e.1);
        assert(init.push(e) =~= es);
    }
}

/// Reading back the checkpoint of `es` gives `es`: the magic number, the
/// count, and every variable's shape and values as written.
pub proof fn law_checkpoint_round_trip(es: Seq<(Seq<u32>, Seq<u32>)>)
    requires
        counts_fit(es),
    ensures
        ({
            let b = checkpoint_bytes(es);
            &&& b.len() >= 8
            &&& word_at(b, 0) == CHECKPOINT_MAGIC
            &&& word_at(b, 4) == es.len()
            &&& read_entries(b, 8, es.len()) == Some((es, b.len() as int))
        }),
{
    let b = checkpoint_bytes(es);
    let eb = entries_bytes(es);
    assert(b.subrange(0, 4) =~= le_bytes(CHECKPOINT_MAGIC));
    lemma_word_reads_back(b, 0, CHECKPOINT_MAGIC);
    assert(b.subrange(4, 8) =~= le_bytes(es.len() as u32));
    lemma_word_reads_back(b, 4, es.len() as u32);
    assert(b.subrange(8, 8 + eb.len() as int) =~= eb);
    lemma_entries_read_back(b, 8, es);
}

} // verus!
