//! Subsequence-based shape alignment for broadcast binary ops.
//!
//! Given two shapes, the shorter one is aligned as a subsequence of the
//! longer one, scanning from the right and matching greedily (rightmost match
//! on ties, as NumPy aligns trailing dimensions).  From the alignment follow:
//!   - the output shape (the longer shape: broadcasting never shrinks),
//!   - the row-major strides of the longer input,
//!   - the strides of the shorter input, 0 on every axis it does not occupy.
use vstd::prelude::*;

use crate::dims::{lemma_prod_subrange_first, prefix_prods_fit, prod, shape_product, strides_fit};
use crate::errors::{Result, VolticError};

verus! {

/// Everything the GPU kernel needs to execute a broadcast binary op.
#[derive(Debug, Clone)]
pub struct BroadcastShape {
    pub rank: usize,
    pub out_shape: Vec<u32>,
    pub lhs_strides: Vec<u32>,
    pub rhs_strides: Vec<u32>,
    pub total: u32,
}

// ── specification ────────────────────────────────────────────────────────────

/// Two dimension sizes are compatible for broadcasting if they are equal,
/// or at least one of them is 1.
pub open spec fn compatible(a: u32, b: u32) -> bool {
    a == b || a == 1 || b == 1
}

/// Row-major strides: `stride[d] = product(shape[d+1..])`.
pub open spec fn row_major(s: Seq<u32>) -> Seq<u32> {
    Seq::new(s.len(), |d: int| prod(s.subrange(d + 1, s.len() as int)) as u32)
}

/// `m` places each dimension of `s` at an axis of `l`: positions strictly
/// increase and each placed pair of sizes is compatible.
pub open spec fn is_alignment(l: Seq<u32>, s: Seq<u32>, m: Seq<usize>) -> bool {
    &&& m.len() == s.len()
    &&& forall|i: int| 0 <= i < m.len() ==> #[trigger] m[i] < l.len()
    &&& forall|i: int| 0 <= i < m.len() ==> compatible(l[#[trigger] m[i] as int], s[i])
    &&& forall|i: int, j: int| 0 <= i < j < m.len() ==> #[trigger] m[i] < #[trigger] m[j]
}

/// The greedy right-to-left alignment: the last dimension of `s` goes to the
/// rightmost compatible axis of `l`, and so on leftwards.
pub open spec fn greedy_align(l: Seq<u32>, s: Seq<u32>) -> Option<Seq<usize>>
    decreases l.len(),
{
    if s.len() == 0 {
        Some(Seq::empty())
    } else if l.len() == 0 {
        None
    } else if compatible(l.last(), s.last()) {
        match greedy_align(l.drop_last(), s.drop_last()) {
            Some(m) => Some(m.push((l.len() - 1) as usize)),
            None => None,
        }
    } else {
        greedy_align(l.drop_last(), s)
    }
}

/// Strides of length `n` that are `src[i]` at axis `m[i]` and 0 elsewhere.
pub open spec fn scatter(n: nat, m: Seq<usize>, src: Seq<u32>) -> Seq<u32>
    decreases m.len(),
{
    if m.len() == 0 || src.len() == 0 {
        Seq::new(n, |d: int| 0u32)
    } else {
        scatter(n, m.drop_last(), src.drop_last()).update(m.last() as int, src.last())
    }
}

/// The input that `infer` aligns into (the longer one; `lhs` on ties).
pub open spec fn longer_of(lhs: Seq<u32>, rhs: Seq<u32>) -> Seq<u32> {
    if lhs.len() >= rhs.len() { lhs } else { rhs }
}

/// The input that `infer` aligns (the shorter one; `rhs` on ties).
pub open spec fn shorter_of(lhs: Seq<u32>, rhs: Seq<u32>) -> Seq<u32> {
    if lhs.len() >= rhs.len() { rhs } else { lhs }
}

/// The axes of `0..rank` that are not listed in `bd`, in increasing order.
pub open spec fn non_broadcast_axes(rank: nat, bd: Seq<usize>) -> Seq<usize>
    decreases rank,
{
    if rank == 0 {
        Seq::empty()
    } else {
        let p = non_broadcast_axes((rank - 1) as nat, bd);
        if bd.contains((rank - 1) as usize) {
            p
        } else {
            p.push((rank - 1) as usize)
        }
    }
}

/// `rhs` fits the non-broadcast axes of `lhs` one for one.
pub open spec fn explicit_dims_match(lhs: Seq<u32>, rhs: Seq<u32>, bd: Seq<usize>) -> bool {
    let nb = non_broadcast_axes(lhs.len(), bd);
    &&& nb.len() == rhs.len()
    &&& forall|i: int| 0 <= i < nb.len() ==> lhs[#[trigger] nb[i] as int] == rhs[i]
}

/// `bs` is what `infer` builds for `lhs` and `rhs`: the shorter shape is
/// aligned greedily into the longer one, which is the output shape.
pub open spec fn is_inferred_broadcast(lhs: Seq<u32>, rhs: Seq<u32>, bs: BroadcastShape) -> bool {
    let l = longer_of(lhs, rhs);
    let s = shorter_of(lhs, rhs);
    &&& greedy_align(l, s) is Some
    &&& bs.rank == l.len()
    &&& bs.out_shape@ == l
    &&& bs.total == prod(l)
    &&& lhs.len() >= rhs.len() ==> bs.lhs_strides@ == row_major(l) && bs.rhs_strides@ == scatter(
        l.len(),
        greedy_align(l, s).unwrap(),
        row_major(s),
    )
    &&& lhs.len() < rhs.len() ==> bs.rhs_strides@ == row_major(l) && bs.lhs_strides@ == scatter(
        l.len(),
        greedy_align(l, s).unwrap(),
        row_major(s),
    )
}

/// `bs` is what `with_dims` builds: `lhs` is the output, `rhs` fills the
/// axes not listed in `bd`.
pub open spec fn is_explicit_broadcast(
    lhs: Seq<u32>,
    rhs: Seq<u32>,
    bd: Seq<usize>,
    bs: BroadcastShape,
) -> bool {
    &&& explicit_dims_match(lhs, rhs, bd)
    &&& bs.rank == lhs.len()
    &&& bs.out_shape@ == lhs
    &&& bs.total == prod(lhs)
    &&& bs.lhs_strides@ == row_major(lhs)
    &&& bs.rhs_strides@ == scatter(lhs.len(), non_broadcast_axes(lhs.len(), bd), row_major(rhs))
}

/// The requirements of `infer` on two shapes.
pub open spec fn infer_fits(lhs: Seq<u32>, rhs: Seq<u32>) -> bool {
    &&& strides_fit(lhs)
    &&& strides_fit(rhs)
    &&& greedy_align(longer_of(lhs, rhs), shorter_of(lhs, rhs)) is Some ==> prefix_prods_fit(
        longer_of(lhs, rhs),
    )
}

// ── laws of the alignment ────────────────────────────────────────────────────

/// The greedy alignment, when it exists, is an alignment.
pub proof fn lemma_greedy_sound(l: Seq<u32>, s: Seq<u32>)
    requires
        l.len() <= usize::MAX,
    ensures
        greedy_align(l, s) matches Some(m) ==> is_alignment(l, s, m),
    decreases l.len(),
{
    if s.len() > 0 && l.len() > 0 {
        if compatible(l.last(), s.last()) {
            lemma_greedy_sound(l.drop_last(), s.drop_last());
            if let Some(m0) = greedy_align(l.drop_last(), s.drop_last()) {
                let m = m0.push((l.len() - 1) as usize);
                assert forall|i: int| 0 <= i < m.len() implies compatible(
                    l[#[trigger] m[i] as int],
                    s[i],
                ) by {
                    if i < m0.len() {
                        assert(m0[i] < l.drop_last().len());
                        assert(m[i] == m0[i]);
                        assert(l[m0[i] as int] == l.drop_last()[m0[i] as int]);
                        assert(s[i] == s.drop_last()[i]);
                    }
                }
                assert forall|i: int, j: int| 0 <= i < j < m.len() implies #[trigger] m[i]
                    < #[trigger] m[j] by {
                    if j < m0.len() {
                        assert(m[i] == m0[i] && m[j] == m0[j]);
                    } else {
                        assert(m[i] == m0[i]);
                        assert(m0[i] < l.drop_last().len());
                    }
                }
            }
        } else {
            lemma_greedy_sound(l.drop_last(), s);
            if let Some(m) = greedy_align(l.drop_last(), s) {
                assert forall|i: int| 0 <= i < m.len() implies compatible(
                    l[#[trigger] m[i] as int],
                    s[i],
                ) by {
                    assert(l[m[i] as int] == l.drop_last()[m[i] as int]);
                }
            }
        }
    }
}

/// If any alignment of `s` into `l` exists, the greedy scan finds one.
pub proof fn lemma_greedy_complete(l: Seq<u32>, s: Seq<u32>, m: Seq<usize>)
    requires
        l.len() <= usize::MAX,
        is_alignment(l, s, m),
    ensures
        greedy_align(l, s) is Some,
    decreases l.len(),
{
    if s.len() > 0 {
        let k = (m.len() - 1) as int;
        assert(m[k] < l.len());
        let lp = l.drop_last();
        if compatible(l.last(), s.last()) {
            let m2 = m.drop_last();
            assert forall|i: int| 0 <= i < m2.len() implies #[trigger] m2[i] < lp.len() by {
                assert(m[i] < m[k]);
            }
            assert forall|i: int| 0 <= i < m2.len() implies compatible(
                lp[#[trigger] m2[i] as int],
                s.drop_last()[i],
            ) by {
                assert(m[i] < m[k]);
                assert(compatible(l[m[i] as int], s[i]));
            }
            assert forall|i: int, j: int| 0 <= i < j < m2.len() implies #[trigger] m2[i]
                < #[trigger] m2[j] by {
                assert(m[i] < m[j]);
            }
            lemma_greedy_complete(lp, s.drop_last(), m2);
        } else {
            assert(compatible(l[m[k] as int], s[k]));
            assert(m[k] != l.len() - 1);
            assert forall|i: int| 0 <= i < m.len() implies #[trigger] m[i] < lp.len() by {
                if i < k {
                    assert(m[i] < m[k]);
                }
            }
            assert forall|i: int| 0 <= i < m.len() implies compatible(
                lp[#[trigger] m[i] as int],
                s[i],
            ) by {
                if i < k {
                    assert(m[i] < m[k]);
                }
                assert(compatible(l[m[i] as int], s[i]));
            }
            lemma_greedy_complete(lp, s, m);
        }
    }
}

/// Broadcast inference succeeds exactly when the shorter shape can be
/// aligned into the longer one, and the alignment it uses is one.
pub proof fn lemma_infer_succeeds_iff_alignable(lhs: Seq<u32>, rhs: Seq<u32>)
    requires
        lhs.len() <= usize::MAX,
        rhs.len() <= usize::MAX,
    ensures
        greedy_align(longer_of(lhs, rhs), shorter_of(lhs, rhs)) is Some <==> exists|m: Seq<usize>|
            is_alignment(longer_of(lhs, rhs), shorter_of(lhs, rhs), m),
        greedy_align(longer_of(lhs, rhs), shorter_of(lhs, rhs)) matches Some(m) ==> is_alignment(
            longer_of(lhs, rhs),
            shorter_of(lhs, rhs),
            m,
        ),
{
    let l = longer_of(lhs, rhs);
    let s = shorter_of(lhs, rhs);
    lemma_greedy_sound(l, s);
    if exists|m: Seq<usize>| is_alignment(l, s, m) {
        let m = choose|m: Seq<usize>| is_alignment(l, s, m);
        lemma_greedy_complete(l, s, m);
    }
}

/// A shape aligns into itself.
pub proof fn lemma_greedy_self(s: Seq<u32>)
    ensures
        greedy_align(s, s) is Some,
    decreases s.len(),
{
    if s.len() > 0 {
        lemma_greedy_self(s.drop_last());
    }
}

/// Pointwise description of `scatter` for a strictly increasing placement.
pub proof fn lemma_scatter_at(n: nat, m: Seq<usize>, src: Seq<u32>)
    requires
        m.len() == src.len(),
        forall|i: int| 0 <= i < m.len() ==> #[trigger] m[i] < n,
        forall|i: int, j: int| 0 <= i < j < m.len() ==> #[trigger] m[i] < #[trigger] m[j],
    ensures
        scatter(n, m, src).len() == n,
        forall|i: int| 0 <= i < m.len() ==> scatter(n, m, src)[#[trigger] m[i] as int] == src[i],
        forall|d: int|
            0 <= d < n && (forall|i: int| 0 <= i < m.len() ==> m[i] != d) ==> #[trigger] scatter(
                n,
                m,
                src,
            )[d] == 0,
    decreases m.len(),
{
    if m.len() > 0 {
        let k = m.len() - 1;
        lemma_scatter_at(n, m.drop_last(), src.drop_last());
        assert forall|i: int| 0 <= i < m.len() implies scatter(n, m, src)[#[trigger] m[i] as int]
            == src[i] by {
            if i < k {
                assert(m[i] < m[k as int]);
                assert(m.drop_last()[i] == m[i]);
            }
        }
        assert forall|d: int|
            0 <= d < n && (forall|i: int| 0 <= i < m.len() ==> m[i] != d) implies #[trigger] scatter(
            n,
            m,
            src,
        )[d] == 0 by {
            assert(m[k as int] != d);
            assert forall|i: int| 0 <= i < m.drop_last().len() implies m.drop_last()[i] != d by {
                assert(m[i] != d);
            }
        }
    }
}

// ── executable code ──────────────────────────────────────────────────────────

/// Row-major strides: `stride[d] = product(shape[d+1..])`.
pub fn row_major_strides(shape: &[u32]) -> (strides: Vec<u32>)
    requires
        strides_fit(shape@),
    ensures
        strides@ == row_major(shape@),
{
    let n = shape.len();
    let mut strides: Vec<u32> = Vec::new();
    let mut i: usize = 0;
    while i < n
        invariant
            i <= n,
            n == shape.len(),
            strides@.len() == i,
            forall|e: int| 0 <= e < i ==> strides@[e] == 1,
        decreases n - i,
    {
        strides.push(1);
        i = i + 1;
    }
    if n >= 2 {
        let mut d: usize = n - 1;
        assert(shape@.subrange(n as int, n as int) =~= Seq::<u32>::empty());
        assert(prod(Seq::<u32>::empty()) == 1);
        while d > 0
            invariant
                0 <= d < n,
                n == shape.len(),
                strides_fit(shape@),
                strides@.len() == n,
                forall|e: int| d <= e < n ==> #[trigger] strides@[e] == prod(
                    shape@.subrange(e + 1, n as int),
                ),
                forall|e: int| 0 <= e < d ==> strides@[e] == 1,
            decreases d,
        {
            proof {
                lemma_prod_subrange_first(shape@, d as int, n as int);
                assert(prod(shape@.subrange(d as int, n as int)) <= u32::MAX);
                assert(strides@[d as int] == prod(shape@.subrange(d + 1, n as int)));
                let a = strides@[d as int] as int;
                let b = shape@[d as int] as int;
                assert(a * b == b * a) by (nonlinear_arith);
            }
            let v = strides[d] * shape[d];
            strides.set(d - 1, v);
            d = d - 1;
        }
    }
    proof {
        if n == 1 {
            assert(shape@.subrange(1, 1) =~= Seq::<u32>::empty());
            assert(prod(Seq::<u32>::empty()) == 1);
        }
        assert(strides@ =~= row_major(shape@));
    }
    strides
}

/// Two dimension sizes are compatible for broadcasting if they are equal,
/// or at least one of them is 1.
fn dims_compatible(a: u32, b: u32) -> (r: bool)
    ensures
        r == compatible(a, b),
{
    a == b || a == 1 || b == 1
}

/// Greedy right-to-left alignment.
///
/// Returns, for each element of `shorter` (left to right), the index in
/// `longer` where it was matched; an error if not all of `shorter` fits.
fn lcs_rightmost(longer: &[u32], shorter: &[u32]) -> (r: Result<Vec<usize>>)
    ensures
        match r {
            Ok(m) => greedy_align(longer@, shorter@) == Some(m@),
            Err(e) => {
                &&& greedy_align(longer@, shorter@) is None
                &&& e matches VolticError::IncompatibleShapes { lhs, rhs, op }
                &&& lhs@ == longer@
                &&& rhs@ == shorter@
                &&& op == "broadcast: rhs shape cannot be aligned into lhs shape"
            },
        },
{
    if shorter.len() == 0 {
        return Ok(Vec::new());
    }
    let ghost l = longer@;
    let ghost s = shorter@;
    let mut matched: Vec<usize> = Vec::new();
    let mut k: usize = 0;
    while k < shorter.len()
        invariant
            k <= shorter.len(),
            matched@.len() == k,
        decreases shorter.len() - k,
    {
        matched.push(0);
        k = k + 1;
    }

    // `li` / `si` count the not-yet-scanned positions of `longer` / `shorter`.
    let mut li: usize = longer.len();
    let mut si: usize = shorter.len();
    assert(l.take(li as int) =~= l);
    assert(s.take(si as int) =~= s);
    assert(matched@.subrange(si as int, s.len() as int) =~= Seq::<usize>::empty());
    while si > 0 && li > 0
        invariant
            li <= l.len(),
            si <= s.len(),
            l == longer@,
            s == shorter@,
            matched@.len() == s.len(),
            greedy_align(l, s) == (match greedy_align(l.take(li as int), s.take(si as int)) {
                Some(m0) => Some(m0 + matched@.subrange(si as int, s.len() as int)),
                None => None,
            }),
        decreases li,
    {
        let lv = longer[li - 1];
        let sv = shorter[si - 1];
        let ghost lt = l.take(li as int);
        let ghost st = s.take(si as int);
        assert(lt.drop_last() =~= l.take(li - 1));
        assert(st.drop_last() =~= s.take(si - 1));
        if dims_compatible(lv, sv) {
            let ghost old_m = matched@;
            matched.set(si - 1, li - 1);
            proof {
                assert(matched@.subrange(si - 1, s.len() as int) =~= seq![(li - 1) as usize]
                    + old_m.subrange(si as int, s.len() as int));
                if let Some(m0) = greedy_align(l.take(li - 1), s.take(si - 1)) {
                    assert(m0.push((li - 1) as usize) + old_m.subrange(si as int, s.len() as int)
                        =~= m0 + matched@.subrange(si - 1, s.len() as int));
                }
            }
            si = si - 1;
        }
        li = li - 1;
    }

    if si > 0 {
        // Could not fit all of shorter into longer.
        assert(l.take(0) =~= Seq::<u32>::empty());
        return Err(
            VolticError::IncompatibleShapes {
                lhs: slice_to_vec(longer),
                rhs: slice_to_vec(shorter),
                op: "broadcast: rhs shape cannot be aligned into lhs shape",
            },
        );
    }
    assert(s.take(0) =~= Seq::<u32>::empty());
    assert(matched@.subrange(0, s.len() as int) =~= matched@);
    assert(Seq::<usize>::empty() + matched@ =~= matched@);
    proof {
        lemma_greedy_sound(l, s);
    }

    // Validate that matched dim sizes are actually compatible.
    let mut i: usize = 0;
    while i < matched.len()
        invariant
            i <= matched@.len(),
            greedy_align(l, s) == Some(matched@),
            is_alignment(l, s, matched@),
            l == longer@,
            s == shorter@,
        decreases matched@.len() - i,
    {
        let pos = matched[i];
        assert(pos < l.len());
        let lv = longer[pos];
        let sv = shorter[i];
        if lv != sv && lv != 1 && sv != 1 {
            assert(compatible(l[matched@[i as int] as int], s[i as int]));
            return Err(
                VolticError::IncompatibleShapes {
                    lhs: slice_to_vec(longer),
                    rhs: slice_to_vec(shorter),
                    op: "broadcast: matched dims have incompatible sizes",
                },
            );
        }
        i = i + 1;
    }
    Ok(matched)
}

/// A copy of a slice of dimension sizes.
pub fn slice_to_vec(s: &[u32]) -> (v: Vec<u32>)
    ensures
        v@ == s@,
{
    let mut v: Vec<u32> = Vec::new();
    let mut i: usize = 0;
    while i < s.len()
        invariant
            i <= s.len(),
            v@ == s@.take(i as int),
        decreases s.len() - i,
    {
        v.push(s[i]);
        i = i + 1;
        assert(v@ =~= s@.take(i as int));
    }
    assert(s@.take(s.len() as int) =~= s@);
    v
}

/// `n` strides, `src[i]` at axis `positions[i]` and 0 elsewhere.
fn scatter_strides(n: usize, positions: &Vec<usize>, src: &Vec<u32>) -> (r: Vec<u32>)
    requires
        positions@.len() == src@.len(),
        forall|i: int| 0 <= i < positions@.len() ==> #[trigger] positions@[i] < n,
    ensures
        r@ == scatter(n as nat, positions@, src@),
{
    let mut r: Vec<u32> = Vec::new();
    let mut d: usize = 0;
    while d < n
        invariant
            d <= n,
            r@.len() == d,
            forall|e: int| 0 <= e < d ==> r@[e] == 0,
        decreases n - d,
    {
        r.push(0);
        d = d + 1;
    }
    assert(r@ =~= scatter(n as nat, positions@.take(0), src@.take(0)));
    let mut i: usize = 0;
    while i < positions.len()
        invariant
            i <= positions@.len(),
            positions@.len() == src@.len(),
            forall|j: int| 0 <= j < positions@.len() ==> #[trigger] positions@[j] < n,
            r@ == scatter(n as nat, positions@.take(i as int), src@.take(i as int)),
        decreases positions@.len() - i,
    {
        proof {
            let mt = positions@.take(i + 1);
            let st = src@.take(i + 1);
            assert(mt.drop_last() =~= positions@.take(i as int));
            assert(st.drop_last() =~= src@.take(i as int));
            lemma_scatter_len(n as nat, positions@.take(i as int), src@.take(i as int));
        }
        r.set(positions[i], src[i]);
        i = i + 1;
    }
    assert(positions@.take(positions@.len() as int) =~= positions@);
    assert(src@.take(src@.len() as int) =~= src@);
    r
}

proof fn lemma_scatter_len(n: nat, m: Seq<usize>, src: Seq<u32>)
    requires
        forall|i: int| 0 <= i < m.len() ==> #[trigger] m[i] < n,
    ensures
        scatter(n, m, src).len() == n,
    decreases m.len(),
{
    if m.len() > 0 && src.len() > 0 {
        lemma_scatter_len(n, m.drop_last(), src.drop_last());
    }
}

/// Whether `d` is listed in `axes`.
fn contains_axis(axes: &[usize], d: usize) -> (r: bool)
    ensures
        r == axes@.contains(d),
{
    let mut i: usize = 0;
    while i < axes.len()
        invariant
            i <= axes.len(),
            forall|j: int| 0 <= j < i ==> axes@[j] != d,
        decreases axes.len() - i,
    {
        if axes[i] == d {
            return true;
        }
        i = i + 1;
    }
    false
}

impl BroadcastShape {
    /// Infer the broadcast shape from two input shapes by aligning the
    /// shorter one into the longer one (rightmost match first).
    /// Fails when no such alignment exists.
    pub fn infer(lhs: &[u32], rhs: &[u32]) -> (r: Result<Self>)
        requires
            strides_fit(lhs@),
            strides_fit(rhs@),
            greedy_align(longer_of(lhs@, rhs@), shorter_of(lhs@, rhs@)) is Some ==> prefix_prods_fit(
                longer_of(lhs@, rhs@),
            ),
        ensures
            ({
                let l = longer_of(lhs@, rhs@);
                let s = shorter_of(lhs@, rhs@);
                match r {
                    Ok(bs) => is_inferred_broadcast(lhs@, rhs@, bs),
                    Err(e) => {
                        &&& greedy_align(l, s) is None
                        &&& e matches VolticError::IncompatibleShapes { lhs: el, rhs: er, op }
                        &&& el@ == l
                        &&& er@ == s
                        &&& op == "broadcast: rhs shape cannot be aligned into lhs shape"
                    },
                }
            }),
    {
        let lhs_is_longer = lhs.len() >= rhs.len();
        let (longer, shorter) = if lhs_is_longer {
            (lhs, rhs)
        } else {
            (rhs, lhs)
        };
        let matched_positions = lcs_rightmost(longer, shorter)?;
        proof {
            lemma_greedy_sound(longer@, shorter@);
        }

        let out_shape = slice_to_vec(longer);
        let longer_strides = row_major_strides(longer);
        let shorter_row_major = row_major_strides(shorter);
        let shorter_strides = scatter_strides(longer.len(), &matched_positions, &shorter_row_major);

        let (lhs_strides, rhs_strides) = if lhs_is_longer {
            (longer_strides, shorter_strides)
        } else {
            (shorter_strides, longer_strides)
        };
        let total = shape_product(longer);
        Ok(BroadcastShape { rank: out_shape.len(), out_shape, lhs_strides, rhs_strides, total })
    }

    /// Build a BroadcastShape with explicit broadcast dims given by the caller.
    /// `broadcast_dims` lists the axes of the output where `rhs` is broadcast;
    /// `lhs` is the output shape and `rhs` must match its other axes in order.
    pub fn with_dims(lhs: &[u32], rhs: &[u32], broadcast_dims: &[usize]) -> (r: Result<Self>)
        requires
            strides_fit(lhs@),
            prefix_prods_fit(lhs@),
            explicit_dims_match(lhs@, rhs@, broadcast_dims@) ==> strides_fit(rhs@),
        ensures
            ({
                let nb = non_broadcast_axes(lhs@.len(), broadcast_dims@);
                match r {
                    Ok(bs) => is_explicit_broadcast(lhs@, rhs@, broadcast_dims@, bs),
                    Err(e) => {
                        &&& !explicit_dims_match(lhs@, rhs@, broadcast_dims@)
                        &&& e matches VolticError::IncompatibleShapes { lhs: el, rhs: er, op }
                        &&& el@ == lhs@
                        &&& er@ == rhs@
                        &&& op == (if nb.len() != rhs@.len() {
                            "broadcast: explicit dims don't match rhs rank"
                        } else {
                            "broadcast: explicit dim size mismatch"
                        })
                    },
                }
            }),
    {
        let rank = lhs.len();
        let ghost bd = broadcast_dims@;

        // Collect the non-broadcast positions in order.
        let mut non_bc: Vec<usize> = Vec::new();
        let mut d: usize = 0;
        while d < rank
            invariant
                d <= rank,
                rank == lhs@.len(),
                bd == broadcast_dims@,
                non_bc@ == non_broadcast_axes(d as nat, bd),
                forall|i: int| 0 <= i < non_bc@.len() ==> #[trigger] non_bc@[i] < d,
            decreases rank - d,
        {
            if !contains_axis(broadcast_dims, d) {
                non_bc.push(d);
            }
            d = d + 1;
        }

        if non_bc.len() != rhs.len() {
            return Err(
                VolticError::IncompatibleShapes {
                    lhs: slice_to_vec(lhs),
                    rhs: slice_to_vec(rhs),
                    op: "broadcast: explicit dims don't match rhs rank",
                },
            );
        }

        let mut i: usize = 0;
        while i < non_bc.len()
            invariant
                i <= non_bc@.len(),
                non_bc@.len() == rhs@.len(),
                non_bc@ == non_broadcast_axes(rank as nat, bd),
                bd == broadcast_dims@,
                rank == lhs@.len(),
                forall|j: int| 0 <= j < non_bc@.len() ==> #[trigger] non_bc@[j] < rank,
                forall|j: int| 0 <= j < i ==> lhs@[#[trigger] non_bc@[j] as int] == rhs@[j],
            decreases non_bc@.len() - i,
        {
            let pos = non_bc[i];
            if lhs[pos] != rhs[i] {
                assert(non_broadcast_axes(lhs@.len(), broadcast_dims@)[i as int] == pos);
                return Err(
                    VolticError::IncompatibleShapes {
                        lhs: slice_to_vec(lhs),
                        rhs: slice_to_vec(rhs),
                        op: "broadcast: explicit dim size mismatch",
                    },
                );
            }
            i = i + 1;
        }

        let lhs_strides = row_major_strides(lhs);
        let rhs_row_major = row_major_strides(rhs);
        let rhs_strides = scatter_strides(rank, &non_bc, &rhs_row_major);
        let out_shape = slice_to_vec(lhs);
        let total = shape_product(lhs);
        Ok(BroadcastShape { rank, out_shape, lhs_strides, rhs_strides, total })
    }
}

} // verus!
